//! What it is to have a byte layout.

use vstd::prelude::*;

verus! {

/// A value with a byte layout.
pub trait Encodable {
    /// The bytes that the value is persisted as.
    spec fn encoding(&self) -> Seq<u8>;

    /// Writes the value out.
    fn encode(&self) -> (encoded: Vec<u8>)
        ensures
            encoded@ == self.encoding(),
    ;
}

} // verus!
