//! 32-bit FNV-1a.

use vstd::prelude::*;

verus! {

/// The hash of the empty sequence.
pub const FNV_OFFSET_BASIS: u32 = 0x811c9dc5;

/// The multiplier of every round.
pub const FNV_PRIME: u32 = 0x01000193;

/// One round of FNV-1a: fold `byte` into `hash` by xor, then multiply by the
/// prime modulo 2^32.
pub open spec fn fnv_round(hash: u32, byte: u8) -> u32 {
    (((hash ^ (byte as u32)) as nat * FNV_PRIME as nat) % 0x1_0000_0000) as u32
}

/// The FNV-1a hash of a byte sequence: the offset basis for the empty
/// sequence, and one more round for each further byte, left to right.
pub open spec fn fnv_hash(data: Seq<u8>) -> u32
    decreases data.len(),
{
    if data.len() == 0 {
        FNV_OFFSET_BASIS
    } else {
        fnv_round(fnv_hash(data.drop_last()), data.last())
    }
}

/// 32-bit FNV-1a of `data`.
pub fn fnv(data: &[u8]) -> (hash: u32)
    ensures
        hash == fnv_hash(data@),
{
    let mut hash: u32 = FNV_OFFSET_BASIS;
    let mut i: usize = 0;
    while i < data.len()
        invariant
            i <= data.len(),
            hash == fnv_hash(data@.take(i as int)),
        decreases data.len() - i,
    {
        proof {
            assert(data@.take(i + 1).drop_last() =~= data@.take(i as int));
        }
        hash = (hash ^ (data[i] as u32)).wrapping_mul(FNV_PRIME);
        i += 1;
    }
    proof {
        assert(data@.take(i as int) =~= data@);
    }
    hash
}

} // verus!
