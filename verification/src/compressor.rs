//! Compression of the serialized bit array.

pub mod lzw;
pub mod round_trip;
