//! The filter: sizing, double hashing, insert and lookup.

pub mod bit_array;
pub mod builder;
pub mod sizing;

use crate::error::BloomFilterError;
use crate::hash::fnv::{fnv, fnv_hash};
use crate::hash::murmur3::{murmur3, murmur3_hash};
pub use bit_array::BitArray;
pub use builder::BloomFilterBuilder;
pub use sizing::{bit_count, bit_count_for};
use sizing::lemma_bit_count_is_positive;
use bit_array::{lemma_with_bit, lemma_zeroed, Bits};
use vstd::arithmetic::div_mod::{
    lemma_fundamental_div_mod, lemma_fundamental_div_mod_converse, lemma_mod_bound,
    lemma_small_mod,
};
use vstd::prelude::*;
use vstd::string::StringSliceAdditionalSpecFns;

verus! {

/// The seed of the first hash.
pub const MURMUR3_SEED: u32 = 0xdead_cafe;

/// The number of hash indices per key at a false-positive rate of 0.01:
/// `-ln(0.01) / ln(2)`, which is 6.64..., rounded up.
pub const HASH_COUNT: usize = 7;

/// How the serialized bit array is stored.
#[derive(Debug, Clone, Copy, PartialEq, Eq, Structural)]
pub enum CompressMode {
    Uncompressed,
    Lzw,
}

impl View for CompressMode {
    type V = CompressMode;

    open spec fn view(&self) -> CompressMode {
        *self
    }
}

/// The `j`-th index of `key` in a bit array of `size` bits: the first hash
/// plus `j` times the second, each taken modulo `size`, modulo `size`.
#[verifier::opaque]
pub open spec fn hash_index(size: nat, key: Seq<u8>, j: nat) -> nat {
    let h1 = murmur3_hash(key, MURMUR3_SEED) as nat % size;
    let h2 = fnv_hash(key) as nat % size;
    (h1 + j * h2) % size
}

/// The indices of `key`, one for each of `hash_count` hashes.
pub open spec fn hash_indices(size: nat, hash_count: nat, key: Seq<u8>) -> Seq<nat> {
    Seq::new(hash_count, |j: int| hash_index(size, key, j as nat))
}

/// The bits with each bit at one of `indices` set.
pub open spec fn with_bits_set(bits: Bits, indices: Seq<nat>) -> Bits
    decreases indices.len(),
{
    if indices.len() == 0 {
        bits
    } else {
        with_bits_set(bits, indices.drop_last()).with_bit(indices.last() as int, true)
    }
}

/// What a filter is: its bits, the number of hashes per key, and how its
/// bits are stored when it is serialized.
pub struct Filter {
    pub bits: Bits,
    pub hash_count: nat,
    pub compress_mode: CompressMode,
}

impl Filter {
    /// A filter has at least one bit and at least one hash.
    pub open spec fn valid(self) -> bool {
        &&& self.bits.well_formed()
        &&& self.bits.size > 0
        &&& self.hash_count > 0
    }

    /// Whether the filter reports `key`: every one of the key's bits is set.
    pub open spec fn contains(self, key: Seq<u8>) -> bool {
        forall|j: int|
            0 <= j < self.hash_count ==> self.bits.bit(
                #[trigger] hash_index(self.bits.size, key, j as nat) as int,
            )
    }

    /// The filter after `key` is inserted: unchanged where it reports the key
    /// already, and with all of the key's bits set where it does not.
    pub open spec fn with_key(self, key: Seq<u8>) -> Filter {
        if self.contains(key) {
            self
        } else {
            Filter {
                bits: with_bits_set(
                    self.bits,
                    hash_indices(self.bits.size, self.hash_count, key),
                ),
                hash_count: self.hash_count,
                compress_mode: self.compress_mode,
            }
        }
    }

    /// The empty filter made for `capacity` items.
    pub open spec fn sized_for(capacity: nat) -> Filter {
        Filter {
            bits: Bits::zeroed(bit_count_for(capacity)),
            hash_count: HASH_COUNT as nat,
            compress_mode: CompressMode::Uncompressed,
        }
    }
}

/// Setting bits keeps the bit array's size and sets just the bits named:
/// a bit is set afterwards where it was set before or is one of `indices`.
pub proof fn lemma_with_bits_set(bits: Bits, indices: Seq<nat>, other: int)
    requires
        bits.well_formed(),
        forall|k: int| 0 <= k < indices.len() ==> indices[k] < bits.size,
        0 <= other < bits.size,
    ensures
        with_bits_set(bits, indices).well_formed(),
        with_bits_set(bits, indices).size == bits.size,
        with_bits_set(bits, indices).bit(other) == (bits.bit(other) || indices.contains(
            other as nat,
        )),
    decreases indices.len(),
{
    if indices.len() > 0 {
        let front = indices.drop_last();
        lemma_with_bits_set(bits, front, other);
        lemma_with_bit(with_bits_set(bits, front), indices.last() as int, true, other);
        if indices.contains(other as nat) {
            let k = choose|k: int| 0 <= k < indices.len() && indices[k] == other as nat;
            if k < front.len() {
                assert(front[k] == other as nat);
            }
        }
    }
}

/// The indices of a key are all within the bit array.
proof fn lemma_hash_indices_in_range(filter: Filter, key: Seq<u8>)
    requires
        filter.valid(),
    ensures
        forall|k: int|
            0 <= k < filter.hash_count ==> (#[trigger] hash_indices(
                filter.bits.size,
                filter.hash_count,
                key,
            )[k]) < filter.bits.size,
{
    let indices = hash_indices(filter.bits.size, filter.hash_count, key);
    assert forall|k: int| 0 <= k < filter.hash_count implies (#[trigger] indices[k])
        < filter.bits.size by {
        lemma_hash_index(filter.bits.size, key, k as nat);
    }
}

/// An insertion sets bits and clears none: a bit is set afterwards just
/// where it was set before, or the key was not reported and the bit is one
/// of its indices.
pub proof fn lemma_insert_bits(filter: Filter, key: Seq<u8>, index: int)
    requires
        filter.valid(),
        0 <= index < filter.bits.size,
    ensures
        filter.with_key(key).valid(),
        filter.with_key(key).bits.size == filter.bits.size,
        filter.with_key(key).hash_count == filter.hash_count,
        filter.with_key(key).compress_mode == filter.compress_mode,
        filter.with_key(key).bits.bit(index) == (filter.bits.bit(index) || (!filter.contains(key)
            && hash_indices(filter.bits.size, filter.hash_count, key).contains(index as nat))),
{
    if !filter.contains(key) {
        lemma_hash_indices_in_range(filter, key);
        lemma_with_bits_set(
            filter.bits,
            hash_indices(filter.bits.size, filter.hash_count, key),
            index,
        );
    }
}

/// No false negatives: a key that has just been inserted is reported.
pub proof fn lemma_inserted_key_is_found(filter: Filter, key: Seq<u8>)
    requires
        filter.valid(),
    ensures
        filter.with_key(key).contains(key),
{
    if !filter.contains(key) {
        let after = filter.with_key(key);
        let indices = hash_indices(filter.bits.size, filter.hash_count, key);
        lemma_insert_bits(filter, key, 0);
        assert forall|j: int| 0 <= j < after.hash_count implies after.bits.bit(
            #[trigger] hash_index(after.bits.size, key, j as nat) as int,
        ) by {
            let index = hash_index(filter.bits.size, key, j as nat);
            lemma_hash_index(filter.bits.size, key, j as nat);
            assert(indices[j] == index);
            lemma_insert_bits(filter, key, index as int);
        }
    }
}

/// No false negatives, ever: a key that is reported stays reported whatever
/// is inserted afterwards.
pub proof fn lemma_found_key_stays_found(filter: Filter, key: Seq<u8>, earlier: Seq<u8>)
    requires
        filter.valid(),
        filter.contains(earlier),
    ensures
        filter.with_key(key).contains(earlier),
{
    let after = filter.with_key(key);
    lemma_insert_bits(filter, key, 0);
    assert forall|j: int| 0 <= j < after.hash_count implies after.bits.bit(
        #[trigger] hash_index(after.bits.size, earlier, j as nat) as int,
    ) by {
        let index = hash_index(filter.bits.size, earlier, j as nat);
        lemma_hash_index(filter.bits.size, earlier, j as nat);
        lemma_insert_bits(filter, key, index as int);
    }
}

/// The filter after each of `keys` has been inserted, in their order.
pub open spec fn with_keys(filter: Filter, keys: Seq<Seq<u8>>) -> Filter
    decreases keys.len(),
{
    if keys.len() == 0 {
        filter
    } else {
        with_keys(filter, keys.drop_last()).with_key(keys.last())
    }
}

/// After any sequence of insertions the filter is still valid, has its
/// size, hash count and compression mode, and reports every key of the
/// sequence.
pub proof fn lemma_inserted_keys_are_found(filter: Filter, keys: Seq<Seq<u8>>, i: int)
    requires
        filter.valid(),
        0 <= i < keys.len(),
    ensures
        with_keys(filter, keys).valid(),
        with_keys(filter, keys).bits.size == filter.bits.size,
        with_keys(filter, keys).hash_count == filter.hash_count,
        with_keys(filter, keys).compress_mode == filter.compress_mode,
        with_keys(filter, keys).contains(keys[i]),
    decreases keys.len(),
{
    let front = keys.drop_last();
    let before = with_keys(filter, front);
    if front.len() > 0 {
        lemma_inserted_keys_are_found(filter, front, 0);
    }
    lemma_insert_bits(before, keys.last(), 0);
    if i < front.len() {
        lemma_inserted_keys_are_found(filter, front, i);
        lemma_found_key_stays_found(before, keys.last(), keys[i]);
    } else {
        lemma_inserted_key_is_found(before, keys.last());
    }
}

/// A filter that has just been made for one item or more is valid and
/// reports no key.
pub proof fn lemma_new_filter_is_empty(capacity: nat, key: Seq<u8>)
    requires
        capacity > 0,
    ensures
        Filter::sized_for(capacity).valid(),
        !Filter::sized_for(capacity).contains(key),
{
    let filter = Filter::sized_for(capacity);
    let size = bit_count_for(capacity);
    lemma_bit_count_is_positive(capacity);
    lemma_hash_index(size, key, 0);
    lemma_zeroed(size, hash_index(size, key, 0) as int);
    if filter.contains(key) {
        let j = 0int;
        assert(filter.bits.bit(hash_index(filter.bits.size, key, j as nat) as int));
    }
}

/// Inserting a key a second time changes nothing.
pub proof fn lemma_insert_is_idempotent(filter: Filter, key: Seq<u8>)
    requires
        filter.valid(),
    ensures
        filter.with_key(key).with_key(key) == filter.with_key(key),
{
    lemma_inserted_key_is_found(filter, key);
}

/// Adding a residue to a number, modulo the size.
proof fn lemma_add_residue(size: int, a: int, h2: int)
    requires
        size > 0,
        a >= 0,
        0 <= h2 < size,
    ensures
        0 <= a % size < size,
        (a + h2) % size == if a % size + h2 >= size {
            a % size + h2 - size
        } else {
            a % size + h2
        },
{
    lemma_mod_bound(a, size);
    lemma_fundamental_div_mod(a, size);
    let q = a / size;
    let r = a % size + h2;
    if r >= size {
        assert((q + 1) * size == size * q + size) by (nonlinear_arith);
        lemma_fundamental_div_mod_converse(a + h2, size, q + 1, r - size);
    } else {
        assert(q * size == size * q) by (nonlinear_arith);
        lemma_fundamental_div_mod_converse(a + h2, size, q, r);
    }
}

/// The residues of `h1 + j * h2`, step by step.
proof fn lemma_double_hashing(size: int, h1: int, h2: int, j: int)
    requires
        size > 0,
        0 <= h1 < size,
        0 <= h2 < size,
        j >= 0,
    ensures
        0 <= (h1 + j * h2) % size < size,
        (h1 + 0 * h2) % size == h1,
        (h1 + (j + 1) * h2) % size == if (h1 + j * h2) % size + h2 >= size {
            (h1 + j * h2) % size + h2 - size
        } else {
            (h1 + j * h2) % size + h2
        },
{
    assert((j + 1) * h2 == j * h2 + h2) by (nonlinear_arith);
    assert(j * h2 >= 0) by (nonlinear_arith)
        requires
            j >= 0,
            h2 >= 0,
    ;
    assert(0 * h2 == 0) by (nonlinear_arith);
    lemma_add_residue(size, h1 + j * h2, h2);
    lemma_small_mod(h1 as nat, size as nat);
}

/// The indices of a key lie within the bit array; the first is the first
/// hash's residue, and each further one is the one before it plus the second
/// hash's residue, modulo the size.
pub proof fn lemma_hash_index(size: nat, key: Seq<u8>, j: nat)
    requires
        size > 0,
    ensures
        hash_index(size, key, j) < size,
        fnv_hash(key) as nat % size < size,
        hash_index(size, key, 0) == murmur3_hash(key, MURMUR3_SEED) as nat % size,
        hash_index(size, key, j + 1) == ({
            let next = hash_index(size, key, j) + fnv_hash(key) as nat % size;
            if next >= size {
                (next - size) as nat
            } else {
                next
            }
        }),
{
    reveal(hash_index);
    let h1 = murmur3_hash(key, MURMUR3_SEED) as nat % size;
    let h2 = fnv_hash(key) as nat % size;
    lemma_mod_bound(murmur3_hash(key, MURMUR3_SEED) as int, size as int);
    lemma_mod_bound(fnv_hash(key) as int, size as int);
    lemma_double_hashing(size as int, h1 as int, h2 as int, j as int);
}

/// A Bloom filter: a set of keys that answers "have I seen this key?" with
/// no false negative. It always has at least one bit and one hash.
pub struct BloomFilter {
    bit_array: BitArray,
    hash_count: usize,
    compress_mode: CompressMode,
}

impl View for BloomFilter {
    type V = Filter;

    /// The filter as a mathematical value.
    closed spec fn view(&self) -> Filter {
        Filter {
            bits: self.bit_array@,
            hash_count: self.hash_count as nat,
            compress_mode: self.compress_mode,
        }
    }
}

impl BloomFilter {
    /// What holds of every filter at all times.
    #[verifier::type_invariant]
    spec fn consistent(self) -> bool {
        self@.valid()
    }

    /// An empty filter made for `max_items` items at a false-positive rate of
    /// 0.01: it has `-max_items * ln(0.01) / ln(2)^2` bits, rounded up (see
    /// `bit_count_for`), and seven hashes. `InvalidConfig` where `max_items`
    /// is zero or asks for more bits than can be addressed.
    pub fn new(max_items: usize) -> (result: Result<Self, BloomFilterError>)
        ensures
            match result {
                Ok(filter) => max_items > 0 && bit_count_for(max_items as nat) <= usize::MAX
                    && filter@ == Filter::sized_for(max_items as nat),
                Err(e) => e == BloomFilterError::InvalidConfig && (max_items == 0
                    || bit_count_for(max_items as nat) > usize::MAX),
            },
    {
        if max_items == 0 {
            return Err(BloomFilterError::InvalidConfig);
        }
        let size = match bit_count(max_items) {
            Some(size) => size,
            None => {
                return Err(BloomFilterError::InvalidConfig);
            },
        };
        let bit_array = BitArray::new(size);
        proof {
            lemma_bit_count_is_positive(max_items as nat);
            lemma_zeroed(size as nat, 0);
        }
        Ok(Self { bit_array, hash_count: HASH_COUNT, compress_mode: CompressMode::Uncompressed })
    }

    /// A filter over the parts given, or `InvalidFormat` where the bit array
    /// is empty or there is no hash.
    pub fn from_parts(bit_array: BitArray, hash_count: usize, compress_mode: CompressMode) -> (result:
        Result<Self, BloomFilterError>)
        ensures
            match result {
                Ok(filter) => filter@.valid() && filter@ == (Filter {
                    bits: bit_array@,
                    hash_count: hash_count as nat,
                    compress_mode,
                }),
                Err(e) => e == BloomFilterError::InvalidFormat && (bit_array@.size == 0
                    || hash_count == 0),
            },
    {
        if bit_array.size() == 0 || hash_count == 0 {
            return Err(BloomFilterError::InvalidFormat);
        }
        Ok(Self { bit_array, hash_count, compress_mode })
    }

    /// The filter's bit array.
    pub fn bit_array(&self) -> (bit_array: &BitArray)
        ensures
            bit_array@ == self@.bits,
            self@.valid(),
    {
        proof {
            use_type_invariant(self);
        }
        &self.bit_array
    }

    /// The number of hash indices per key.
    pub fn hash_count(&self) -> (hash_count: usize)
        ensures
            hash_count == self@.hash_count,
            self@.valid(),
    {
        proof {
            use_type_invariant(self);
        }
        self.hash_count
    }

    /// How the bit array is stored when the filter is serialized.
    pub fn compress_mode(&self) -> (compress_mode: CompressMode)
        ensures
            compress_mode == self@.compress_mode,
            self@.valid(),
    {
        proof {
            use_type_invariant(self);
        }
        self.compress_mode
    }

    /// Chooses how the bit array is stored when the filter is serialized.
    pub fn set_compress_mode(&mut self, compress_mode: CompressMode)
        ensures
            final(self)@ == (Filter { compress_mode, ..old(self)@ }),
    {
        proof {
            use_type_invariant(&*self);
        }
        self.compress_mode = compress_mode;
    }

    /// Whether `key` may have been inserted: `false` says that it never was.
    pub fn lookup(&self, key: &str) -> (found: bool)
        ensures
            found == self@.contains(key.spec_bytes()),
    {
        proof {
            use_type_invariant(self);
        }
        let indices = self.hashing(key);
        let ghost size = self@.bits.size;
        let mut j: usize = 0;
        while j < indices.len()
            invariant
                j <= indices.len(),
                indices.len() == self@.hash_count,
                size == self@.bits.size,
                forall|k: int|
                    0 <= k < indices.len() ==> indices[k] == hash_index(
                        size,
                        key.spec_bytes(),
                        k as nat,
                    ) && indices[k] < size,
                forall|k: int|
                    0 <= k < j ==> self@.bits.bit(
                        #[trigger] hash_index(size, key.spec_bytes(), k as nat) as int,
                    ),
            decreases indices.len() - j,
        {
            match self.bit_array.get_bit(indices[j]) {
                Ok(true) => {},
                _ => {
                    return false;
                },
            }
            j += 1;
        }
        true
    }

    /// Inserts `key` unless the filter reports it already. Returns whether
    /// the filter was changed.
    pub fn insert(&mut self, key: &str) -> (inserted: bool)
        ensures
            inserted == !old(self)@.contains(key.spec_bytes()),
            final(self)@ == old(self)@.with_key(key.spec_bytes()),
            final(self)@.contains(key.spec_bytes()),
    {
        proof {
            use_type_invariant(&*self);
            lemma_inserted_key_is_found(self@, key.spec_bytes());
        }
        if self.lookup(key) {
            false
        } else {
            let indices = self.hashing(key);
            let ghost before = self@;
            let ghost wanted = hash_indices(before.bits.size, before.hash_count, key.spec_bytes());
            let mut j: usize = 0;
            while j < indices.len()
                invariant
                    j <= indices.len(),
                    indices.len() == wanted.len(),
                    before.valid(),
                    wanted == hash_indices(before.bits.size, before.hash_count, key.spec_bytes()),
                    forall|k: int|
                        0 <= k < indices.len() ==> indices[k] == wanted[k] && indices[k]
                            < before.bits.size,
                    self@ == (Filter { bits: with_bits_set(before.bits, wanted.take(j as int)), ..before }),
                decreases indices.len() - j,
            {
                proof {
                    let done = wanted.take(j as int);
                    assert(wanted.take(j + 1).drop_last() =~= done);
                    assert(wanted.take(j + 1).last() == indices[j as int]);
                    lemma_with_bits_set(before.bits, done, 0);
                    lemma_with_bit(with_bits_set(before.bits, done), indices[j as int] as int, true, 0);
                }
                // every index of the key is within the array, so the bit is set
                let _ = self.bit_array.set(indices[j], true);
                j += 1;
            }
            proof {
                assert(wanted.take(j as int) =~= wanted);
            }
            true
        }
    }

    /// The `hash_count` indices of `key`, by double hashing.
    pub fn hashing(&self, key: &str) -> (indices: Vec<usize>)
        ensures
            indices.len() == self@.hash_count,
            forall|j: int|
                0 <= j < indices.len() ==> indices[j] == hash_index(
                    self@.bits.size,
                    key.spec_bytes(),
                    j as nat,
                ) && indices[j] < self@.bits.size,
    {
        proof {
            use_type_invariant(self);
        }
        let bitsize = self.bit_array.size();
        let bytes: &[u8] = key.as_bytes();
        let h1 = (murmur3(bytes, MURMUR3_SEED) as usize) % bitsize;
        let h2 = (fnv(bytes) as usize) % bitsize;
        let mut hash_table: Vec<usize> = Vec::new();
        let mut index = h1;
        let mut j: usize = 0;
        proof {
            lemma_hash_index(bitsize as nat, bytes@, 0);
        }
        while j < self.hash_count
            invariant
                j <= self.hash_count,
                bitsize == self@.bits.size,
                bitsize > 0,
                bytes@ == key.spec_bytes(),
                h2 == fnv_hash(bytes@) as nat % (bitsize as nat),
                h2 < bitsize,
                hash_table.len() == j,
                index == hash_index(bitsize as nat, bytes@, j as nat),
                index < bitsize,
                forall|k: int|
                    0 <= k < j ==> hash_table[k] == hash_index(bitsize as nat, bytes@, k as nat)
                        && hash_table[k] < bitsize,
            decreases self.hash_count - j,
        {
            hash_table.push(index);
            proof {
                lemma_hash_index(bitsize as nat, bytes@, j as nat);
                lemma_hash_index(bitsize as nat, bytes@, (j + 1) as nat);
            }
            index = if index >= bitsize - h2 {
                index - (bitsize - h2)
            } else {
                index + h2
            };
            j += 1;
        }
        hash_table
    }
}

} // verus!
