//! Rebuilds raster images from truncated singular value decompositions.
//!
//! A sample is handled as the 32-bit word of its IEEE 754 single-precision
//! encoding. The crate fixes where every sample lives and in which order the
//! samples are combined; it never interprets a word itself. The two pieces
//! of arithmetic the channel kernel needs, a product and a sum of samples,
//! are handed in by the caller.

pub mod sample;
pub mod layout;
pub mod interleave;
pub mod channel;
pub mod arithmetic;

pub use crate::interleave::reconstruct;
pub use crate::channel::reconstruct_channel;
