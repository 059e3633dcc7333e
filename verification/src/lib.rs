//! A Bloom filter with a compact, bit-exact persistence format.
//!
//! The crate is made of a byte-packed bit array, two 32-bit hash functions
//! combined by double hashing, the filter itself, a dictionary compressor
//! for the serialized bit array, and the codec that ties them together.
//! Every executable function carries a contract stated over mathematical
//! models of the data, and the round-trip laws are proved as lemmas.

pub mod bloom_filter;
pub mod compressor;
pub mod decoder;
pub mod encoder;
pub mod error;
pub mod hash;

pub use bloom_filter::{BloomFilter, BloomFilterBuilder, CompressMode};
