//! Reading the bit array, the compression mode and the filter back from
//! their byte layout.

use crate::bloom_filter::bit_array::Bits;
use crate::bloom_filter::{BitArray, BloomFilter, CompressMode, Filter};
use crate::compressor::lzw::{decompress, decompressed};
use crate::decoder::decodable::Decodable;
use crate::error::BloomFilterError;
use vstd::prelude::*;
use vstd::slice::slice_subrange;

verus! {

/// The least number of bytes that a filter's layout can have.
pub const MIN_FILTER_LEN: usize = 17;

/// The number whose eight bytes, most significant first, are `bytes`.
#[verifier::opaque]
pub open spec fn u64_from_be(bytes: Seq<u8>) -> u64 {
    (bytes[0] * 0x100_0000_0000_0000 + bytes[1] * 0x1_0000_0000_0000 + bytes[2] * 0x100_0000_0000
        + bytes[3] * 0x1_0000_0000 + bytes[4] * 0x100_0000 + bytes[5] * 0x1_0000 + bytes[6]
        * 0x100 + bytes[7]) as u64
}

/// The bit array that `bytes` hold. They hold one where they are made of a
/// byte count, as many bytes as it says, and a bit count that needs just
/// those bytes and can be addressed.
pub open spec fn decoded_bits(bytes: Seq<u8>) -> Result<Bits, BloomFilterError> {
    if bytes.len() < 16 {
        Err(BloomFilterError::InvalidFormat)
    } else if u64_from_be(bytes.subrange(0, 8)) != bytes.len() - 16 {
        Err(BloomFilterError::InvalidFormat)
    } else {
        let size = u64_from_be(bytes.subrange(bytes.len() - 8, bytes.len() as int));
        let bits = Bits { bytes: bytes.subrange(8, bytes.len() - 8), size: size as nat };
        if size > usize::MAX || !bits.well_formed() {
            Err(BloomFilterError::InvalidFormat)
        } else {
            Ok(bits)
        }
    }
}

/// The compression mode that a tag stands for.
pub open spec fn decoded_mode(tag: u8) -> CompressMode {
    if tag == 1 {
        CompressMode::Lzw
    } else {
        CompressMode::Uncompressed
    }
}

/// The filter that `bytes` hold. The last byte is the compression mode's
/// tag, the eight before it are the hash count, and what stands before
/// those is the bit array's layout, compressed where the tag says so.
pub open spec fn decoded_filter(bytes: Seq<u8>) -> Result<Filter, BloomFilterError> {
    if bytes.len() < MIN_FILTER_LEN {
        Err(BloomFilterError::InvalidFormat)
    } else {
        let split = bytes.len() - 9;
        let compress_mode = decoded_mode(bytes[bytes.len() - 1]);
        let hash_count = u64_from_be(bytes.subrange(split, split + 8));
        let segment = bytes.subrange(0, split);
        let raw = match compress_mode {
            CompressMode::Lzw => decompressed(segment),
            CompressMode::Uncompressed => Some(segment),
        };
        match raw {
            None => Err(BloomFilterError::CorruptCompressedData),
            Some(raw) => match decoded_bits(raw) {
                Err(e) => Err(e),
                Ok(bits) => if bits.size == 0 || hash_count == 0 || hash_count > usize::MAX {
                    Err(BloomFilterError::InvalidFormat)
                } else {
                    Ok(Filter { bits, hash_count: hash_count as nat, compress_mode })
                },
            },
        }
    }
}

/// Reads the eight big-endian bytes at `at`.
fn read_u64_be(bytes: &[u8], at: usize) -> (value: u64)
    requires
        at + 8 <= bytes.len(),
    ensures
        value == u64_from_be(bytes@.subrange(at as int, at + 8)),
{
    proof {
        reveal(u64_from_be);
    }
    (bytes[at] as u64) * 0x100_0000_0000_0000 + (bytes[at + 1] as u64) * 0x1_0000_0000_0000 + (
    bytes[at + 2] as u64) * 0x100_0000_0000 + (bytes[at + 3] as u64) * 0x1_0000_0000 + (bytes[at
        + 4] as u64) * 0x100_0000 + (bytes[at + 5] as u64) * 0x1_0000 + (bytes[at + 6] as u64)
        * 0x100 + (bytes[at + 7] as u64)
}

/// The bytes from `from` up to `to`, copied.
fn copy_range(bytes: &[u8], from: usize, to: usize) -> (copy: Vec<u8>)
    requires
        from <= to <= bytes.len(),
    ensures
        copy@ == bytes@.subrange(from as int, to as int),
{
    let mut copy: Vec<u8> = Vec::new();
    let mut i: usize = from;
    while i < to
        invariant
            from <= i <= to <= bytes.len(),
            copy@ == bytes@.subrange(from as int, i as int),
        decreases to - i,
    {
        copy.push(bytes[i]);
        i += 1;
    }
    copy
}

impl Decodable for BitArray {
    /// The bit array that `bytes` hold.
    open spec fn decoding(bytes: Seq<u8>) -> Result<Bits, BloomFilterError> {
        decoded_bits(bytes)
    }

    /// Reads a bit array from its layout. `InvalidFormat` where `bytes` are
    /// not made of a byte count, as many bytes, and a bit count that needs
    /// just those bytes.
    fn decode(bytes: &[u8]) -> (result: Result<Self, BloomFilterError>) {
        if bytes.len() < 16 {
            return Err(BloomFilterError::InvalidFormat);
        }
        let byte_size = read_u64_be(bytes, 0);
        if byte_size != (bytes.len() - 16) as u64 {
            return Err(BloomFilterError::InvalidFormat);
        }
        let size = read_u64_be(bytes, bytes.len() - 8);
        if size > usize::MAX as u64 {
            return Err(BloomFilterError::InvalidFormat);
        }
        let byte_data = copy_range(bytes, 8, bytes.len() - 8);
        BitArray::from_bytes(byte_data, size as usize)
    }
}

impl Decodable for CompressMode {
    /// The mode that the first of `bytes` stands for.
    open spec fn decoding(bytes: Seq<u8>) -> Result<CompressMode, BloomFilterError> {
        if bytes.len() == 0 {
            Err(BloomFilterError::InvalidFormat)
        } else {
            Ok(decoded_mode(bytes[0]))
        }
    }

    /// Reads a compression mode from the first of `bytes`: 1 is `Lzw`, any
    /// other value `Uncompressed`. `InvalidFormat` where there is no byte.
    fn decode(bytes: &[u8]) -> (result: Result<Self, BloomFilterError>) {
        if bytes.len() == 0 {
            return Err(BloomFilterError::InvalidFormat);
        }
        let mode = match bytes[0] {
            1 => CompressMode::Lzw,
            _ => CompressMode::Uncompressed,
        };
        Ok(mode)
    }
}

impl Decodable for BloomFilter {
    /// The filter that `bytes` hold.
    open spec fn decoding(bytes: Seq<u8>) -> Result<Filter, BloomFilterError> {
        decoded_filter(bytes)
    }

    /// Reads a filter from its layout. `InvalidFormat` where `bytes` are
    /// fewer than seventeen, the bit array's segment is not a bit array's
    /// layout, or the filter would have no bit or no hash;
    /// `CorruptCompressedData` where the segment does not decompress.
    fn decode(bytes: &[u8]) -> (result: Result<Self, BloomFilterError>) {
        if bytes.len() < MIN_FILTER_LEN {
            return Err(BloomFilterError::InvalidFormat);
        }
        let split_idx = bytes.len() - 9;
        let bit_array_buffer = slice_subrange(bytes, 0, split_idx);
        let hash_count = read_u64_be(bytes, split_idx);
        let last_byte = slice_subrange(bytes, bytes.len() - 1, bytes.len());
        let compress_mode = match CompressMode::decode(last_byte) {
            Ok(compress_mode) => compress_mode,
            Err(e) => {
                return Err(e);
            },
        };
        let decoded = match compress_mode {
            CompressMode::Lzw => match decompress(bit_array_buffer) {
                Ok(raw) => BitArray::decode(raw.as_slice()),
                Err(e) => {
                    return Err(e);
                },
            },
            _ => BitArray::decode(bit_array_buffer),
        };
        let bit_array = match decoded {
            Ok(bit_array) => bit_array,
            Err(e) => {
                return Err(e);
            },
        };
        if hash_count > usize::MAX as u64 {
            return Err(BloomFilterError::InvalidFormat);
        }
        BloomFilter::from_parts(bit_array, hash_count as usize, compress_mode)
    }
}

} // verus!
