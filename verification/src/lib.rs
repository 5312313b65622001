//! Adler-32 checksums with a caller-chosen initial state, for one byte
//! sequence or for a batch of them.

pub mod adler32;
pub mod errors;
pub mod model;
