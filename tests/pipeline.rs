use audio_normalizer::buffer::{interleave_into, AudioData};
use audio_normalizer::decode::{decode_packets, DecodeError, DecodeSession, PacketEvent, Step, LOST_PACKET_FRAMES};
use audio_normalizer::fade::{apply_fade_window, fade_in_window, fade_out_window, FadeCurve, FadeWindow};
use audio_normalizer::format::{DecodeStrategy, MultiFormatProcessor, OutputFormat, OutputPlan};
use audio_normalizer::gain::{choose_gain_branch, plan_gain, GainBranch};
use audio_normalizer::layout::{pow2_u64, quantize_scale, wav_full_scale, SampleLayout};

fn packet(planes: Vec<Vec<f32>>, frames: usize) -> PacketEvent<f32> {
    PacketEvent::Decoded { planes, frames, sample_rate: 48000 }
}

#[test]
fn curve_names_ignore_case() {
    assert_eq!(FadeCurve::from_str("exponential"), FadeCurve::Exponential);
    assert_eq!(FadeCurve::from_str("EXP"), FadeCurve::Exponential);
    assert_eq!(FadeCurve::from_str("Logarithmic"), FadeCurve::Logarithmic);
    assert_eq!(FadeCurve::from_str("log"), FadeCurve::Logarithmic);
    assert_eq!(FadeCurve::from_str("linear"), FadeCurve::Linear);
    assert_eq!(FadeCurve::from_str("cubic"), FadeCurve::Linear);
    assert_eq!(FadeCurve::from_str(""), FadeCurve::Linear);
}

#[test]
fn curve_from_lowercase_is_exact() {
    assert_eq!(FadeCurve::from_lowercase(&"exp".to_string()), FadeCurve::Exponential);
    assert_eq!(FadeCurve::from_lowercase(&"EXP".to_string()), FadeCurve::Linear);
}

#[test]
fn zero_fade_touches_nothing() {
    assert_eq!(fade_in_window(0, 48000).frames, 0);
    assert_eq!(fade_out_window(0, 48000).frames, 0);
}

#[test]
fn long_fades_cover_whole_buffer() {
    assert_eq!(fade_in_window(96000, 48000), FadeWindow { start_frame: 0, frames: 48000 });
    assert_eq!(fade_out_window(96000, 48000), FadeWindow { start_frame: 0, frames: 48000 });
}

#[test]
fn short_fade_out_ends_at_last_frame() {
    let w = fade_out_window(100, 1000);
    assert_eq!(w, FadeWindow { start_frame: 900, frames: 100 });
    assert_eq!(w.frame_at(0), 900);
    assert_eq!(w.frame_at(99), 999);
}

#[test]
fn interleave_two_channels() {
    let planes = vec![vec![1.0f32, 2.0, 3.0], vec![-1.0f32, -2.0, -3.0]];
    let mut out = vec![9.0f32];
    interleave_into(&planes, 2, &mut out);
    assert_eq!(out, vec![9.0, 1.0, -1.0, 2.0, -2.0]);
}

#[test]
fn frame_count_of_stereo_buffer() {
    let a = AudioData { samples: vec![0.0f32; 10], channels: 2, sample_rate: 44100 };
    assert_eq!(a.frame_count(), 5);
}

#[test]
fn session_latches_first_packet() {
    let mut s = DecodeSession::new(0.0f32);
    assert_eq!(s.step(&PacketEvent::Corrupt), Step::Continue);
    let first = PacketEvent::Decoded { planes: vec![vec![0.5f32; 4], vec![0.25f32; 4]], frames: 4, sample_rate: 44100 };
    assert_eq!(s.step(&first), Step::Continue);
    let second = PacketEvent::Decoded { planes: vec![vec![0.1f32; 2], vec![0.2f32; 2]], frames: 2, sample_rate: 8000 };
    assert_eq!(s.step(&second), Step::Continue);
    let a = s.finish().unwrap();
    assert_eq!(a.channels, 2);
    assert_eq!(a.sample_rate, 44100);
    assert_eq!(a.samples, vec![0.5, 0.25, 0.5, 0.25, 0.5, 0.25, 0.5, 0.25, 0.1, 0.2, 0.1, 0.2]);
}

#[test]
fn corrupt_packet_becomes_silence() {
    let mut s = DecodeSession::new(0.0f32);
    assert_eq!(s.step(&packet(vec![vec![1.0f32; 3]; 2], 3)), Step::Continue);
    assert_eq!(s.step(&PacketEvent::Corrupt), Step::Continue);
    let a = s.finish().unwrap();
    assert_eq!(a.samples.len(), 6 + 2 * LOST_PACKET_FRAMES);
    assert!(a.samples[6..].iter().all(|v| *v == 0.0));
}

#[test]
fn session_stops_and_aborts() {
    let mut s = DecodeSession::new(0.0f32);
    assert_eq!(s.step(&PacketEvent::EndOfStream), Step::Stop);
    assert_eq!(s.step(&PacketEvent::Failed), Step::Abort(DecodeError::Decode));
    assert_eq!(s.step(&packet(vec![], 0)), Step::Abort(DecodeError::NoChannels));
    assert_eq!(s.step(&packet(vec![vec![0.1f32; 1]], 1)), Step::Continue);
    assert_eq!(s.step(&packet(vec![vec![0.1f32; 1]; 2], 1)), Step::Abort(DecodeError::ChannelMismatch));
}

#[test]
fn nothing_decoded_is_an_error() {
    let s = DecodeSession::new(0.0f32);
    assert_eq!(s.finish().unwrap_err(), DecodeError::NoAudioData);
    let r = decode_packets(&vec![PacketEvent::Corrupt, PacketEvent::Corrupt, PacketEvent::EndOfStream], 0.0f32);
    assert_eq!(r.unwrap_err(), DecodeError::NoAudioData);
}

#[test]
fn one_corrupt_packet_among_good_ones() {
    let events = vec![
        packet(vec![vec![0.5f32; 1152]; 2], 1152),
        packet(vec![vec![0.5f32; 1152]; 2], 1152),
        PacketEvent::Corrupt,
        packet(vec![vec![0.5f32; 576]; 2], 576),
    ];
    let a = decode_packets(&events, 0.0f32).unwrap();
    assert_eq!(a.channels, 2);
    assert_eq!(a.frame_count(), 1152 + 1152 + 576 + LOST_PACKET_FRAMES);
    assert_eq!(a.samples[2 * 2304], 0.0);
    assert_eq!(a.samples[2 * (2304 + LOST_PACKET_FRAMES)], 0.5);
}

#[test]
fn decoding_stops_at_end_of_stream() {
    let events = vec![packet(vec![vec![0.5f32; 10]], 10), PacketEvent::EndOfStream, packet(vec![vec![0.5f32; 10]], 10)];
    assert_eq!(decode_packets(&events, 0.0f32).unwrap().frame_count(), 10);
}

#[test]
fn fatal_decoder_error_aborts() {
    let events = vec![packet(vec![vec![0.5f32; 10]], 10), PacketEvent::Failed];
    assert_eq!(decode_packets(&events, 0.0f32).unwrap_err(), DecodeError::Decode);
}

#[test]
fn layout_rules() {
    assert_eq!(SampleLayout::U8.centered(0), -128);
    assert_eq!(SampleLayout::U8.centered(255), 127);
    assert_eq!(SampleLayout::U8.full_scale(), 127);
    assert_eq!(SampleLayout::U16.centered(32768), 0);
    assert_eq!(SampleLayout::U24.midpoint(), 8388608);
    assert_eq!(SampleLayout::U32.centered(0), -2147483648);
    assert_eq!(SampleLayout::S16.centered(-32768), -32768);
    assert_eq!(SampleLayout::S16.full_scale(), 32767);
    assert_eq!(SampleLayout::S24.full_scale(), 8388607);
    assert_eq!(SampleLayout::S32.full_scale(), 2147483647);
    assert!(SampleLayout::F64.is_float());
    assert!(!SampleLayout::S8.is_float());
}

#[test]
fn integer_scales() {
    assert_eq!(pow2_u64(0), 1);
    assert_eq!(pow2_u64(63), 1u64 << 63);
    assert_eq!(wav_full_scale(16), 32768);
    assert_eq!(wav_full_scale(24), 8388608);
    assert_eq!(quantize_scale(8), 127);
    assert_eq!(quantize_scale(16), 32767);
    assert_eq!(quantize_scale(24), 8388607);
    assert_eq!(quantize_scale(32), 2147483647);
    assert_eq!(quantize_scale(12), 2047);
}

#[test]
fn decode_strategy_by_extension() {
    assert_eq!(MultiFormatProcessor::decode_strategy("wav"), DecodeStrategy::WavReader);
    assert_eq!(MultiFormatProcessor::decode_strategy("WAV"), DecodeStrategy::WavReader);
    assert_eq!(MultiFormatProcessor::decode_strategy("mp3"), DecodeStrategy::Probe);
    assert_eq!(MultiFormatProcessor::decode_strategy(""), DecodeStrategy::Probe);
    assert_eq!(MultiFormatProcessor::strategy_for_lowercase(&"WAV".to_string()), DecodeStrategy::Probe);
}

#[test]
fn output_plans() {
    assert_eq!(
        MultiFormatProcessor::output_plan("Mp3", 24),
        OutputPlan { requested: OutputFormat::Mp3, bit_depth: 16, float_samples: false }
    );
    assert_eq!(
        MultiFormatProcessor::output_plan("FLAC", 16),
        OutputPlan { requested: OutputFormat::Flac, bit_depth: 24, float_samples: false }
    );
    assert_eq!(
        MultiFormatProcessor::output_plan("flac", 32),
        OutputPlan { requested: OutputFormat::Flac, bit_depth: 32, float_samples: true }
    );
    assert_eq!(
        MultiFormatProcessor::output_plan("wav", 16),
        OutputPlan { requested: OutputFormat::Wav, bit_depth: 16, float_samples: false }
    );
    assert_eq!(MultiFormatProcessor::output_plan("", 32).requested, OutputFormat::Wav);
    assert!(MultiFormatProcessor::output_plan("ogg", 32).float_samples);
}

#[test]
fn gain_branches() {
    assert_eq!(choose_gain_branch(false, false), GainBranch::Requested);
    assert_eq!(choose_gain_branch(false, true), GainBranch::Requested);
    assert_eq!(choose_gain_branch(true, false), GainBranch::SafetyAdjusted);
    assert_eq!(choose_gain_branch(true, true), GainBranch::ForcedClip);
    assert!(GainBranch::ForcedClip.applies_requested_gain());
    assert!(!GainBranch::SafetyAdjusted.applies_requested_gain());
    assert!(!GainBranch::Requested.warns());
    assert!(GainBranch::ForcedClip.warns());
}

#[test]
fn unclipped_loudness_request_keeps_requested_gain() {
    // Peak 0.1 at -30 LUFS, target -14 LUFS: 16 dB lifts the peak to about 0.63.
    let current = -30.0f32;
    let target = -14.0f32;
    let gain = 10f32.powf((target - current) / 20.0);
    let would_clip = (0.1f32 * gain).abs() > 1.0;
    assert!(!would_clip);
    let max_safe = current + (0.0 - 20.0 * 0.1f32.log10()) - 0.5;
    let plan = plan_gain(target, max_safe, would_clip, false);
    assert_eq!(plan.branch, GainBranch::Requested);
    assert_eq!(plan.level - current, 16.0);
}

#[test]
fn fade_window_scales_only_its_frames() {
    let mut samples = vec![1.0f32; 10];
    let w = fade_in_window(3, 5);
    apply_fade_window(&mut samples, 2, w, &|s: f32, offset: usize, frames: usize| s * offset as f32 / frames as f32);
    let third = 1.0f32 / 3.0;
    let two_thirds = 2.0f32 / 3.0;
    assert_eq!(samples, vec![0.0, 0.0, third, third, two_thirds, two_thirds, 1.0, 1.0, 1.0, 1.0]);
}

#[test]
fn empty_fade_window_leaves_buffer_identical() {
    let original = vec![0.3f32, -0.7, 0.9, 0.1];
    let mut samples = original.clone();
    apply_fade_window(&mut samples, 2, fade_in_window(0, 2), &|s: f32, _o: usize, _n: usize| s * 0.0);
    apply_fade_window(&mut samples, 2, fade_out_window(0, 2), &|s: f32, _o: usize, _n: usize| s * 0.0);
    assert_eq!(samples, original);
}

#[test]
fn overlapping_fades_compound() {
    let mut samples = vec![1.0f32; 4];
    apply_fade_window(&mut samples, 1, fade_in_window(4, 4), &|s: f32, _o: usize, _n: usize| s * 0.5);
    apply_fade_window(&mut samples, 1, fade_out_window(2, 4), &|s: f32, _o: usize, _n: usize| s * 0.5);
    assert_eq!(samples, vec![0.5, 0.5, 0.25, 0.25]);
}

#[test]
fn channel_change_aborts_stream() {
    let events = vec![packet(vec![vec![0.5f32; 4]; 2], 4), PacketEvent::Corrupt, packet(vec![vec![0.5f32; 4]], 4)];
    assert_eq!(decode_packets(&events, 0.0f32).unwrap_err(), DecodeError::ChannelMismatch);
}

#[test]
fn corrupt_packets_before_first_decode_are_skipped() {
    let events = vec![PacketEvent::Corrupt, packet(vec![vec![0.5f32; 4]], 4), PacketEvent::Corrupt];
    let a = decode_packets(&events, 0.0f32).unwrap();
    assert_eq!(a.frame_count(), 4 + LOST_PACKET_FRAMES);
    assert_eq!(a.sample_rate, 48000);
}

#[test]
fn plan_keeps_target_unless_it_clips() {
    let safe = plan_gain(-14.0f32, -18.5, false, false);
    assert_eq!(safe.branch, GainBranch::Requested);
    assert_eq!(safe.level, -14.0);
    let adjusted = plan_gain(-14.0f32, -18.5, true, false);
    assert_eq!(adjusted.branch, GainBranch::SafetyAdjusted);
    assert_eq!(adjusted.level, -18.5);
    let forced = plan_gain(-14.0f32, -18.5, true, true);
    assert_eq!(forced.branch, GainBranch::ForcedClip);
    assert_eq!(forced.level, -14.0);
}
