//! Byte-level encodings and the order on byte strings that they are built
//! to keep.

pub mod bytes;
pub mod number;
pub mod order;
