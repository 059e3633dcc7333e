//! 32-bit MurmurHash3.

use vstd::prelude::*;

verus! {

/// The number of bytes that are hashed at a time.
pub const BYTE_CHUNK: usize = 4;

/// The first multiplier of the scramble.
pub const SCRAMBLE_C1: u32 = 0xcc9e2d51;

/// The second multiplier of the scramble.
pub const SCRAMBLE_C2: u32 = 0x1b873593;

/// What is added after every full chunk.
pub const MIX_ADD: u32 = 0xe6546b64;

/// The first multiplier of the finisher.
pub const FINAL_C1: u32 = 0x85ebca6b;

/// The second multiplier of the finisher.
pub const FINAL_C2: u32 = 0xc2b2ae35;

/// Multiplication modulo 2^32.
pub open spec fn mul32(x: u32, y: u32) -> u32 {
    ((x as nat * y as nat) % 0x1_0000_0000) as u32
}

/// Addition modulo 2^32.
pub open spec fn add32(x: u32, y: u32) -> u32 {
    if x + y > u32::MAX {
        (x + y - 0x1_0000_0000) as u32
    } else {
        (x + y) as u32
    }
}

/// Rotation of a 32-bit word to the left by 15 bits.
pub open spec fn rotl15(x: u32) -> u32 {
    (x << 15u32) | (x >> 17u32)
}

/// Rotation of a 32-bit word to the left by 13 bits.
pub open spec fn rotl13(x: u32) -> u32 {
    (x << 13u32) | (x >> 19u32)
}

/// The 32-bit word whose little-endian bytes are `b0 b1 b2 b3`.
pub open spec fn le_word(b0: u8, b1: u8, b2: u8, b3: u8) -> u32 {
    (b0 + 0x100 * b1 + 0x1_0000 * b2 + 0x100_0000 * b3) as u32
}

/// The scramble applied to every chunk before it is mixed in.
pub open spec fn scramble(k: u32) -> u32 {
    mul32(rotl15(mul32(k, SCRAMBLE_C1)), SCRAMBLE_C2)
}

/// The running hash after one more full chunk `k`.
pub open spec fn mix(hash: u32, k: u32) -> u32 {
    add32(mul32(rotl13(hash ^ scramble(k)), 5), MIX_ADD)
}

/// The byte of `data` at `i`, or zero past its end.
pub open spec fn byte_or_zero(data: Seq<u8>, i: int) -> u8 {
    if 0 <= i < data.len() {
        data[i]
    } else {
        0
    }
}

/// The `i`-th 4-byte chunk of `data` as a little-endian word, padded with
/// zeros where the data ends inside it.
pub open spec fn chunk_word(data: Seq<u8>, i: int) -> u32 {
    le_word(
        byte_or_zero(data, 4 * i),
        byte_or_zero(data, 4 * i + 1),
        byte_or_zero(data, 4 * i + 2),
        byte_or_zero(data, 4 * i + 3),
    )
}

/// The running hash after the first `n` full chunks of `data`.
pub open spec fn chunks_hash(data: Seq<u8>, seed: u32, n: nat) -> u32
    decreases n,
{
    if n == 0 {
        seed
    } else {
        mix(chunks_hash(data, seed, (n - 1) as nat), chunk_word(data, n - 1))
    }
}

/// The avalanche finisher, applied after the byte length has been folded in.
pub open spec fn finalize(hash: u32, len: nat) -> u32 {
    let h1 = hash ^ ((len % 0x1_0000_0000) as u32);
    let h2 = h1 ^ (h1 >> 16u32);
    let h3 = mul32(h2, FINAL_C1);
    let h4 = h3 ^ (h3 >> 13u32);
    let h5 = mul32(h4, FINAL_C2);
    h5 ^ (h5 >> 16u32)
}

/// MurmurHash3 (32 bit) of `data` under `seed`: every full 4-byte chunk is
/// mixed in, a last partial chunk is zero-padded, scrambled and folded in by
/// xor alone, and the total byte length goes through the finisher.
pub open spec fn murmur3_hash(data: Seq<u8>, seed: u32) -> u32 {
    let full = data.len() / 4;
    let body = chunks_hash(data, seed, full);
    let tail = if data.len() % 4 != 0 {
        body ^ scramble(chunk_word(data, full as int))
    } else {
        body
    };
    finalize(tail, data.len())
}

/// Assembles a 32-bit word from its little-endian bytes.
fn word_from_le_bytes(b0: u8, b1: u8, b2: u8, b3: u8) -> (word: u32)
    ensures
        word == le_word(b0, b1, b2, b3),
{
    let word = (b0 as u32) | ((b1 as u32) << 8u32) | ((b2 as u32) << 16u32) | ((b3 as u32)
        << 24u32);
    assert(((b0 as u32) | ((b1 as u32) << 8u32) | ((b2 as u32) << 16u32) | ((b3 as u32) << 24u32))
        == (b0 + 0x100 * b1 + 0x1_0000 * b2 + 0x100_0000 * b3) as u32) by (bit_vector);
    word
}

/// Scrambles one chunk before it is mixed into the hash.
pub fn murmur_32_scramble(k: u32) -> (scrambled: u32)
    ensures
        scrambled == scramble(k),
{
    let a = k.wrapping_mul(SCRAMBLE_C1);
    let b = (a << 15u32) | (a >> 17u32);
    b.wrapping_mul(SCRAMBLE_C2)
}

/// 32-bit MurmurHash3 of `data` under `seed`.
pub fn murmur3(data: &[u8], seed: u32) -> (hash: u32)
    ensures
        hash == murmur3_hash(data@, seed),
{
    let full: usize = data.len() / BYTE_CHUNK;
    let mut hash: u32 = seed;
    let mut i: usize = 0;
    while i < full
        invariant
            i <= full,
            full == data.len() / 4,
            hash == chunks_hash(data@, seed, i as nat),
        decreases full - i,
    {
        let k = word_from_le_bytes(data[4 * i], data[4 * i + 1], data[4 * i + 2], data[4 * i + 3]);
        hash = hash ^ murmur_32_scramble(k);
        hash = (hash << 13u32) | (hash >> 19u32);
        hash = hash.wrapping_mul(5).wrapping_add(MIX_ADD);
        i += 1;
    }
    let rest: usize = data.len() % BYTE_CHUNK;
    if rest != 0 {
        let start: usize = 4 * full;
        let b0: u8 = data[start];
        let b1: u8 = if rest > 1 {
            data[start + 1]
        } else {
            0
        };
        let b2: u8 = if rest > 2 {
            data[start + 2]
        } else {
            0
        };
        let k = word_from_le_bytes(b0, b1, b2, 0);
        hash = hash ^ murmur_32_scramble(k);
    }
    let len32: u32 = ((data.len() as u64) % 0x1_0000_0000u64) as u32;
    hash = hash ^ len32;
    hash = hash ^ (hash >> 16u32);
    hash = hash.wrapping_mul(FINAL_C1);
    hash = hash ^ (hash >> 13u32);
    hash = hash.wrapping_mul(FINAL_C2);
    hash = hash ^ (hash >> 16u32);
    hash
}

} // verus!
