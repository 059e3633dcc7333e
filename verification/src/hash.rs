//! The two independent 32-bit hash functions behind the filter's indices.

pub mod fnv;
pub mod murmur3;

pub use fnv::fnv;
pub use murmur3::murmur3;
