//! What it is to be read back from bytes.

use crate::error::BloomFilterError;
use vstd::prelude::*;

verus! {

/// A value that can be read back from its byte layout.
pub trait Decodable: Sized + View {
    /// What `bytes` hold, or the reason why they hold no value.
    spec fn decoding(bytes: Seq<u8>) -> Result<Self::V, BloomFilterError>;

    /// Reads the value that the whole of `bytes` holds.
    fn decode(bytes: &[u8]) -> (result: Result<Self, BloomFilterError>)
        ensures
            match result {
                Ok(value) => Self::decoding(bytes@) == Ok::<Self::V, BloomFilterError>(value@),
                Err(e) => Self::decoding(bytes@) == Err::<Self::V, BloomFilterError>(e),
            },
    ;
}

} // verus!
