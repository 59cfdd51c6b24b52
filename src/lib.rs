//! Mixing of two little-endian signed 16-bit PCM buffers into one, with
//! attenuation and clipping; every function is verified with Verus.

pub mod codec;
pub mod laws;
pub mod mixer;
