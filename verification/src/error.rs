//! The failures that the library reports.

use vstd::prelude::*;

verus! {

/// Why an operation of the library failed.
#[derive(Debug, Clone, Copy, PartialEq, Eq, Structural)]
pub enum BloomFilterError {
    /// A persisted buffer is too short, or one of its length fields does not
    /// agree with the bytes that are there.
    InvalidFormat,
    /// A bit index at or beyond `limit`, the bit array's size, was asked for.
    IndexOutOfBounds { limit: usize },
    /// A compressed stream holds a code that its dictionary cannot resolve.
    CorruptCompressedData,
    /// A filter cannot be sized for the capacity it was asked to hold.
    InvalidConfig,
}

} // verus!
