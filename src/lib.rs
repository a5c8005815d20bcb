//! Audio normalization: the decisions behind decoding, level planning,
//! fade envelopes and encoding, over a canonical interleaved sample buffer.
pub mod buffer;
pub mod decode;
pub mod fade;
pub mod format;
pub mod gain;
pub mod layout;
pub mod text;
