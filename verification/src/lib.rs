//! A table-driven 32-bit CRC engine.
//!
//! An [`Algorithm`] value describes a CRC variant: generator polynomial,
//! checksum width, initial register value, input/output bit-reflection flags
//! and the final XOR mask.  A [`Crc`] engine pairs such a description with a
//! 256-entry lookup table derived from it, and offers one-shot checksums as
//! well as a streaming [`Digest`] handle.

pub mod algorithm;
pub mod bits;
pub mod engine;
pub mod table;

pub use crate::algorithm::Algorithm;
pub use crate::engine::Crc;
pub use crate::engine::Digest;
