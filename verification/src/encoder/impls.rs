//! The byte layout of the bit array, the compression mode and the filter.
//! All integers are unsigned and big-endian.

use crate::bloom_filter::bit_array::Bits;
use crate::bloom_filter::{BitArray, BloomFilter, CompressMode, Filter};
use crate::compressor::lzw::{compress, compressed};
use crate::decoder::impls::{decoded_bits, decoded_filter};
use crate::decoder::round_trip::{lemma_bits_round_trip, lemma_filter_round_trip};
use crate::encoder::encodable::Encodable;
use crate::error::BloomFilterError;
use vstd::prelude::*;

verus! {

/// The eight bytes of `value`, most significant first.
#[verifier::opaque]
pub open spec fn u64_be_bytes(value: u64) -> Seq<u8> {
    seq![
        (value / 0x100_0000_0000_0000 % 0x100) as u8,
        (value / 0x1_0000_0000_0000 % 0x100) as u8,
        (value / 0x100_0000_0000 % 0x100) as u8,
        (value / 0x1_0000_0000 % 0x100) as u8,
        (value / 0x100_0000 % 0x100) as u8,
        (value / 0x1_0000 % 0x100) as u8,
        (value / 0x100 % 0x100) as u8,
        (value % 0x100) as u8,
    ]
}

/// The layout of a bit array: the number of its bytes, the bytes, and the
/// number of its bits.
pub open spec fn bits_encoding(bits: Bits) -> Seq<u8> {
    u64_be_bytes(bits.bytes.len() as u64) + bits.bytes + u64_be_bytes(bits.size as u64)
}

/// The tag of a compression mode.
pub open spec fn mode_tag(mode: CompressMode) -> u8 {
    match mode {
        CompressMode::Uncompressed => 0,
        CompressMode::Lzw => 1,
    }
}

/// The leading segment of a filter's layout: the bit array's layout, or
/// its compressed form where the mode asks for it.
pub open spec fn bits_segment(filter: Filter) -> Seq<u8> {
    match filter.compress_mode {
        CompressMode::Uncompressed => bits_encoding(filter.bits),
        CompressMode::Lzw => compressed(bits_encoding(filter.bits)),
    }
}

/// The layout of a filter: the bit array's segment, the hash count, and the
/// compression mode's tag.
pub open spec fn filter_encoding(filter: Filter) -> Seq<u8> {
    bits_segment(filter) + u64_be_bytes(filter.hash_count as u64) + seq![
        mode_tag(filter.compress_mode),
    ]
}

/// Appends the eight big-endian bytes of `value`.
fn push_u64_be(encoded: &mut Vec<u8>, value: u64)
    ensures
        final(encoded)@ == old(encoded)@ + u64_be_bytes(value),
{
    proof {
        reveal(u64_be_bytes);
    }
    encoded.push((value / 0x100_0000_0000_0000 % 0x100) as u8);
    encoded.push((value / 0x1_0000_0000_0000 % 0x100) as u8);
    encoded.push((value / 0x100_0000_0000 % 0x100) as u8);
    encoded.push((value / 0x1_0000_0000 % 0x100) as u8);
    encoded.push((value / 0x100_0000 % 0x100) as u8);
    encoded.push((value / 0x1_0000 % 0x100) as u8);
    encoded.push((value / 0x100 % 0x100) as u8);
    encoded.push((value % 0x100) as u8);
}

/// Appends `bytes`.
fn push_bytes(encoded: &mut Vec<u8>, bytes: &[u8])
    ensures
        final(encoded)@ == old(encoded)@ + bytes@,
{
    let mut i: usize = 0;
    while i < bytes.len()
        invariant
            i <= bytes.len(),
            encoded@ == old(encoded)@ + bytes@.take(i as int),
        decreases bytes.len() - i,
    {
        encoded.push(bytes[i]);
        i += 1;
    }
}

impl Encodable for BitArray {
    /// The bit array's layout.
    open spec fn encoding(&self) -> Seq<u8> {
        bits_encoding(self@)
    }

    /// Writes the bit array out, in the layout from which `decode` reads it
    /// back.
    fn encode(&self) -> (encoded: Vec<u8>)
        ensures
            decoded_bits(encoded@) == Ok::<Bits, BloomFilterError>(self@),
    {
        let bytes = self.byte_array();
        let mut encoded: Vec<u8> = Vec::new();
        push_u64_be(&mut encoded, bytes.len() as u64);
        push_bytes(&mut encoded, bytes.as_slice());
        push_u64_be(&mut encoded, self.size() as u64);
        proof {
            lemma_bits_round_trip(self@);
        }
        encoded
    }
}

impl Encodable for CompressMode {
    /// The one byte of the mode's tag.
    open spec fn encoding(&self) -> Seq<u8> {
        seq![mode_tag(*self)]
    }

    /// Writes the mode's tag.
    fn encode(&self) -> (encoded: Vec<u8>) {
        let encoded = match self {
            CompressMode::Lzw => vec![1u8],
            _ => vec![0u8],
        };
        encoded
    }
}

impl Encodable for BloomFilter {
    /// The filter's layout.
    open spec fn encoding(&self) -> Seq<u8> {
        filter_encoding(self@)
    }

    /// Writes the filter out, in the layout from which `decode` reads it
    /// back.
    fn encode(&self) -> (encoded: Vec<u8>)
        ensures
            decoded_filter(encoded@) == Ok::<Filter, BloomFilterError>(self@),
    {
        let encoded_bit_array = self.bit_array().encode();
        let compressed_bit_array = match self.compress_mode() {
            CompressMode::Lzw => compress(encoded_bit_array.as_slice()),
            _ => encoded_bit_array,
        };
        let mut encoded: Vec<u8> = Vec::new();
        push_bytes(&mut encoded, compressed_bit_array.as_slice());
        push_u64_be(&mut encoded, self.hash_count() as u64);
        let tag = self.compress_mode().encode();
        push_bytes(&mut encoded, tag.as_slice());
        proof {
            lemma_filter_round_trip(self@);
        }
        encoded
    }
}

} // verus!
