use vstd::prelude::*;
use crate::text::{is_word, lower_of, lowercase};

verus! {

/// How a file is decoded.
#[derive(Clone, Copy, Debug, PartialEq, Eq, Structural)]
pub enum DecodeStrategy {
    /// Read the uncompressed container's header and samples directly.
    WavReader,
    /// Probe the byte stream for its container and codec, then decode packets.
    Probe,
}

/// The container that an output file's extension asks for.
#[derive(Clone, Copy, Debug, PartialEq, Eq, Structural)]
pub enum OutputFormat {
    Wav,
    Mp3,
    Flac,
}

/// How the output is written: always an uncompressed file, at `bit_depth`
/// bits, as floats or as integers. When `requested` is not `Wav`, the file
/// is written under the same name with a `wav` extension instead, and the
/// substitution is reported.
#[derive(Clone, Copy, Debug, PartialEq, Eq, Structural)]
pub struct OutputPlan {
    pub requested: OutputFormat,
    pub bit_depth: u16,
    pub float_samples: bool,
}

/// The strategy for a lower-case extension.
pub open spec fn strategy_named(ext: Seq<char>) -> DecodeStrategy {
    if ext == "wav"@ {
        DecodeStrategy::WavReader
    } else {
        DecodeStrategy::Probe
    }
}

/// The output format for a lower-case extension; anything unknown is `Wav`.
pub open spec fn format_named(ext: Seq<char>) -> OutputFormat {
    if ext == "mp3"@ {
        OutputFormat::Mp3
    } else if ext == "flac"@ {
        OutputFormat::Flac
    } else {
        OutputFormat::Wav
    }
}

/// The plan for writing a `format` file at a requested bit depth: a stand-in
/// for MP3 is written at 16 bits, one for FLAC at 24 bits or more.
pub open spec fn plan_of(format: OutputFormat, bit_depth: u16) -> OutputPlan {
    let bits: u16 = match format {
        OutputFormat::Wav => bit_depth,
        OutputFormat::Mp3 => 16,
        OutputFormat::Flac => if bit_depth < 24 {
            24
        } else {
            bit_depth
        },
    };
    OutputPlan { requested: format, bit_depth: bits, float_samples: bits == 32 }
}

/// Format detection for reading and writing audio files.
pub struct MultiFormatProcessor;

impl MultiFormatProcessor {
    /// The decode strategy for a file extension, ignoring case.
    pub fn decode_strategy(ext: &str) -> (r: DecodeStrategy)
        ensures
            r == strategy_named(lower_of(ext@)),
    {
        let lower = lowercase(ext);
        MultiFormatProcessor::strategy_for_lowercase(&lower)
    }

    /// The decode strategy for an extension already in lower case.
    pub fn strategy_for_lowercase(ext: &String) -> (r: DecodeStrategy)
        ensures
            r == strategy_named(ext@),
    {
        if is_word(ext, "wav") {
            DecodeStrategy::WavReader
        } else {
            DecodeStrategy::Probe
        }
    }

    /// The plan for writing a file with extension `ext` (any case).
    pub fn output_plan(ext: &str, bit_depth: u16) -> (r: OutputPlan)
        ensures
            r == plan_of(format_named(lower_of(ext@)), bit_depth),
    {
        let lower = lowercase(ext);
        MultiFormatProcessor::plan_for_lowercase(&lower, bit_depth)
    }

    /// The plan for writing a file with a lower-case extension.
    pub fn plan_for_lowercase(ext: &String, bit_depth: u16) -> (r: OutputPlan)
        ensures
            r == plan_of(format_named(ext@), bit_depth),
    {
        let format = if is_word(ext, "mp3") {
            OutputFormat::Mp3
        } else if is_word(ext, "flac") {
            OutputFormat::Flac
        } else {
            OutputFormat::Wav
        };
        let bits: u16 = match format {
            OutputFormat::Wav => bit_depth,
            OutputFormat::Mp3 => 16,
            OutputFormat::Flac => if bit_depth < 24 {
                24
            } else {
                bit_depth
            },
        };
        OutputPlan { requested: format, bit_depth: bits, float_samples: bits == 32 }
    }
}

} // verus!
