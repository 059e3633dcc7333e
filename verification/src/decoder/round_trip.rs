//! What is written can be read back.

use crate::bloom_filter::bit_array::Bits;
use crate::bloom_filter::{
    bit_count_for, lemma_inserted_keys_are_found, lemma_new_filter_is_empty, with_keys,
    CompressMode, Filter,
};
use crate::compressor::lzw::{compressed, compressed_codes};
use crate::compressor::round_trip::{
    lemma_compressed_length, lemma_decompress_compress, triangle,
};
use crate::decoder::impls::{decoded_bits, decoded_filter, decoded_mode, u64_from_be};
use crate::encoder::impls::{bits_encoding, bits_segment, filter_encoding, mode_tag, u64_be_bytes};
use crate::error::BloomFilterError;
use vstd::prelude::*;

verus! {

/// A number is the sum of its eight base-256 digits, each at its place.
proof fn lemma_u64_digits(value: u64)
    by (bit_vector)
    ensures
        (value / 0x100_0000_0000_0000 % 0x100) * 0x100_0000_0000_0000 + (value
            / 0x1_0000_0000_0000 % 0x100) * 0x1_0000_0000_0000 + (value / 0x100_0000_0000 % 0x100)
            * 0x100_0000_0000 + (value / 0x1_0000_0000 % 0x100) * 0x1_0000_0000 + (value
            / 0x100_0000 % 0x100) * 0x100_0000 + (value / 0x1_0000 % 0x100) * 0x1_0000 + (value
            / 0x100 % 0x100) * 0x100 + (value % 0x100) == value,
{
}

/// The eight bytes of a number are read back as that number.
pub proof fn lemma_u64_round_trip(value: u64)
    ensures
        u64_be_bytes(value).len() == 8,
        u64_from_be(u64_be_bytes(value)) == value,
{
    reveal(u64_be_bytes);
    reveal(u64_from_be);
    lemma_u64_digits(value);
}

/// A compression mode's tag is read back as that mode.
pub proof fn lemma_mode_round_trip(mode: CompressMode)
    ensures
        decoded_mode(mode_tag(mode)) == mode,
{
}

/// A bit array with any bits set is read back from its layout with the same
/// bytes, and so the same bits, and the same size.
pub proof fn lemma_bits_round_trip(bits: Bits)
    requires
        bits.well_formed(),
        bits.size <= usize::MAX,
    ensures
        decoded_bits(bits_encoding(bits)) == Ok::<Bits, BloomFilterError>(bits),
{
    let encoded = bits_encoding(bits);
    let count = bits.bytes.len() as u64;
    let size = bits.size as u64;
    lemma_u64_round_trip(count);
    lemma_u64_round_trip(size);
    assert(encoded.subrange(0, 8) =~= u64_be_bytes(count));
    assert(encoded.subrange(8, encoded.len() - 8) =~= bits.bytes);
    assert(encoded.subrange(encoded.len() - 8, encoded.len() as int) =~= u64_be_bytes(size));
}

/// A filter is read back from its layout, compressed or not, as the same
/// filter: the same bits, hash count and compression mode, and so the same
/// answer for every key.
pub proof fn lemma_filter_round_trip(filter: Filter)
    requires
        filter.valid(),
        filter.bits.size <= usize::MAX,
        filter.hash_count <= usize::MAX,
    ensures
        decoded_filter(filter_encoding(filter)) == Ok::<Filter, BloomFilterError>(filter),
        forall|key: Seq<u8>|
            decoded_filter(filter_encoding(filter))->Ok_0.contains(key) == filter.contains(key),
{
    let raw = bits_encoding(filter.bits);
    let segment = bits_segment(filter);
    let encoded = filter_encoding(filter);
    let hash_count = filter.hash_count as u64;
    lemma_u64_round_trip(filter.bits.bytes.len() as u64);
    lemma_u64_round_trip(filter.bits.size as u64);
    lemma_u64_round_trip(hash_count);
    lemma_mode_round_trip(filter.compress_mode);
    lemma_bits_round_trip(filter.bits);
    assert(segment.len() >= 8) by {
        if filter.compress_mode == CompressMode::Lzw {
            lemma_compressed_length(raw);
            let k = compressed_codes(raw).len();
            if k < 4 {
                reveal_with_fuel(triangle, 5);
            }
        }
    }
    lemma_decompress_compress(raw);
    let split = encoded.len() - 9;
    assert(encoded.subrange(split, split + 8) =~= u64_be_bytes(hash_count));
    assert(encoded.subrange(0, split) =~= segment);
}

/// A filter made for some capacity, compressed or not, into which any keys
/// have been inserted, is read back from its layout as it was, and so
/// reports every one of those keys.
pub proof fn lemma_persisted_keys_are_found(
    capacity: nat,
    compress_mode: CompressMode,
    keys: Seq<Seq<u8>>,
    i: int,
)
    requires
        capacity > 0,
        bit_count_for(capacity) <= usize::MAX,
        0 <= i < keys.len(),
    ensures
        ({
            let made = Filter { compress_mode, ..Filter::sized_for(capacity) };
            let filled = with_keys(made, keys);
            &&& decoded_filter(filter_encoding(filled)) == Ok::<Filter, BloomFilterError>(filled)
            &&& filled.contains(keys[i])
        }),
{
    let made = Filter { compress_mode, ..Filter::sized_for(capacity) };
    lemma_new_filter_is_empty(capacity, keys[i]);
    lemma_inserted_keys_are_found(made, keys, i);
    lemma_filter_round_trip(with_keys(made, keys));
}

} // verus!
