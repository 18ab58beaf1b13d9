//! Fingerprints of content.

pub mod xx_hasher;
pub mod xxhash64;
