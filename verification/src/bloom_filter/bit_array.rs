//! A fixed-length bit array packed into bytes.

use crate::error::BloomFilterError;
use std::ops::Index;
use vstd::prelude::*;
use vstd::string::StringExecFns;

verus! {

/// The mask that selects, in a byte, the bit at `offset` counted from the
/// most significant bit.
pub open spec fn bit_mask(offset: int) -> u8 {
    if offset == 0 {
        0x80
    } else if offset == 1 {
        0x40
    } else if offset == 2 {
        0x20
    } else if offset == 3 {
        0x10
    } else if offset == 4 {
        0x08
    } else if offset == 5 {
        0x04
    } else if offset == 6 {
        0x02
    } else {
        0x01
    }
}

/// What a bit array is: `size` bits, bit `i` held in byte `i / 8` at offset
/// `i % 8` from that byte's most significant bit.
pub struct Bits {
    pub bytes: Seq<u8>,
    pub size: nat,
}

impl Bits {
    /// The bytes are just as many as the bits need.
    pub open spec fn well_formed(self) -> bool {
        self.bytes.len() == (self.size + 7) / 8
    }

    /// The bit at `index`.
    pub open spec fn bit(self, index: int) -> bool {
        self.bytes[index / 8] & bit_mask(index % 8) != 0
    }

    /// The same bits but for the one at `index`, which is `value`.
    pub open spec fn with_bit(self, index: int, value: bool) -> Bits {
        let byte = self.bytes[index / 8];
        let mask = bit_mask(index % 8);
        Bits {
            bytes: self.bytes.update(
                index / 8,
                if value {
                    byte | mask
                } else {
                    byte & !mask
                },
            ),
            size: self.size,
        }
    }

    /// `size` bits, all clear.
    pub open spec fn zeroed(size: nat) -> Bits {
        Bits { bytes: Seq::new((size + 7) / 8, |i: int| 0u8), size }
    }

    /// The bits written out as the digits `0` and `1`, bit 0 first.
    pub open spec fn digits(self) -> Seq<char> {
        Seq::new(
            self.size,
            |i: int|
                if self.bit(i) {
                    '1'
                } else {
                    '0'
                },
        )
    }
}

/// Whether `m` has exactly one bit set.
pub open spec fn single_bit(m: u8) -> bool {
    m == 0x80 || m == 0x40 || m == 0x20 || m == 0x10 || m == 0x08 || m == 0x04 || m == 0x02 || m
        == 0x01
}

/// How setting and clearing one bit of a byte shows under a one-bit mask.
proof fn lemma_mask_bits(byte: u8, m: u8, n: u8)
    by (bit_vector)
    requires
        single_bit(m),
        single_bit(n),
    ensures
        ((byte | m) & n != 0) == (m == n || byte & n != 0),
        ((byte & !m) & n != 0) == (m != n && byte & n != 0),
        0u8 & n == 0,
{
}

/// Setting or clearing one bit changes that bit and no other.
pub proof fn lemma_with_bit(bits: Bits, index: int, value: bool, other: int)
    requires
        bits.well_formed(),
        0 <= index < bits.size,
        0 <= other < bits.size,
    ensures
        bits.with_bit(index, value).well_formed(),
        bits.with_bit(index, value).bit(other) == if other == index {
            value
        } else {
            bits.bit(other)
        },
{
    if other / 8 == index / 8 {
        lemma_mask_bits(bits.bytes[index / 8], bit_mask(index % 8), bit_mask(other % 8));
    }
}

/// A new bit array has every bit clear.
pub proof fn lemma_zeroed(size: nat, index: int)
    requires
        0 <= index < size,
    ensures
        Bits::zeroed(size).well_formed(),
        !Bits::zeroed(size).bit(index),
{
    lemma_mask_bits(0, bit_mask(index % 8), bit_mask(index % 8));
}

/// The number of bytes that `size` bits take.
fn byte_count(size: usize) -> (count: usize)
    ensures
        count == (size + 7) / 8,
{
    if size % 8 == 0 {
        size / 8
    } else {
        size / 8 + 1
    }
}

/// A bit array of a fixed size, zero-filled when made. Its bytes are always
/// just as many as its bits need.
pub struct BitArray {
    byte_array: Vec<u8>,
    size: usize,
}

impl View for BitArray {
    type V = Bits;

    /// The bit array as a mathematical value.
    closed spec fn view(&self) -> Bits {
        Bits { bytes: self.byte_array@, size: self.size as nat }
    }
}

impl BitArray {
    /// What holds of every bit array at all times.
    #[verifier::type_invariant]
    spec fn consistent(self) -> bool {
        self@.well_formed()
    }

    /// A bit array of `size` bits, all clear.
    pub fn new(size: usize) -> (bits: Self)
        ensures
            bits@ == Bits::zeroed(size as nat),
    {
        let num_bytes = byte_count(size);
        let byte_array: Vec<u8> = vec![0u8; num_bytes];
        assert(byte_array@ =~= Seq::new(((size as nat) + 7) / 8, |i: int| 0u8));
        Self { byte_array, size }
    }

    /// A bit array of `size` bits over the bytes given, which must be just as
    /// many as the bits need.
    pub fn from_bytes(byte_array: Vec<u8>, size: usize) -> (result: Result<
        Self,
        BloomFilterError,
    >)
        ensures
            match result {
                Ok(bits) => bits@ == (Bits { bytes: byte_array@, size: size as nat })
                    && bits@.well_formed(),
                Err(e) => e == BloomFilterError::InvalidFormat && !(Bits {
                    bytes: byte_array@,
                    size: size as nat,
                }).well_formed(),
            },
    {
        if byte_array.len() != byte_count(size) {
            return Err(BloomFilterError::InvalidFormat);
        }
        Ok(Self { byte_array, size })
    }

    /// The number of bits.
    pub fn size(&self) -> (size: usize)
        ensures
            size == self@.size,
            self@.well_formed(),
    {
        proof {
            use_type_invariant(self);
        }
        self.size
    }

    /// The bytes that hold the bits.
    pub fn byte_array(&self) -> (bytes: &Vec<u8>)
        ensures
            bytes@ == self@.bytes,
            self@.well_formed(),
    {
        proof {
            use_type_invariant(self);
        }
        &self.byte_array
    }

    /// Sets the bit at `index` to `value` and leaves every other bit as it
    /// is (see `lemma_with_bit`). `IndexOutOfBounds` where `index` is not
    /// below the size; nothing is changed then.
    pub fn set(&mut self, index: usize, value: bool) -> (result: Result<(), BloomFilterError>)
        ensures
            match result {
                Ok(_) => index < old(self)@.size && final(self)@ == old(self)@.with_bit(
                    index as int,
                    value,
                ) && final(self)@.bit(index as int) == value,
                Err(e) => index >= old(self)@.size && e == (BloomFilterError::IndexOutOfBounds {
                    limit: old(self)@.size as usize,
                }) && final(self)@ == old(self)@,
            },
        no_unwind
    {
        proof {
            use_type_invariant(&*self);
        }
        let (byte_index, bit_offset) = match self.get_byte_position(index) {
            Ok(position) => position,
            Err(e) => {
                return Err(e);
            },
        };
        let mask: u8 = Self::mask(bit_offset);
        let byte: u8 = self.byte_array[byte_index];
        proof {
            lemma_with_bit(self@, index as int, value, index as int);
        }
        if value {
            self.byte_array[byte_index] = byte | mask;
        } else {
            self.byte_array[byte_index] = byte & !mask;
        }
        Ok(())
    }

    /// The bit at `index`. `IndexOutOfBounds` where `index` is not below
    /// the size.
    pub fn get_bit(&self, index: usize) -> (result: Result<bool, BloomFilterError>)
        ensures
            match result {
                Ok(bit) => index < self@.size && bit == self@.bit(index as int),
                Err(e) => index >= self@.size && e == (BloomFilterError::IndexOutOfBounds {
                    limit: self@.size as usize,
                }),
            },
    {
        proof {
            use_type_invariant(self);
        }
        let (byte_index, bit_offset) = match self.get_byte_position(index) {
            Ok(position) => position,
            Err(e) => {
                return Err(e);
            },
        };
        let mask: u8 = Self::mask(bit_offset);
        Ok((self.byte_array[byte_index] & mask) != 0)
    }

    /// The byte that holds the bit at `bit_index`, and the bit's offset in
    /// that byte from the most significant bit. `IndexOutOfBounds` where
    /// `bit_index` is not below the size.
    pub fn get_byte_position(&self, bit_index: usize) -> (result: Result<
        (usize, usize),
        BloomFilterError,
    >)
        ensures
            match result {
                Ok((index, offset)) => bit_index < self@.size && index == bit_index / 8 && offset
                    == bit_index % 8,
                Err(e) => bit_index >= self@.size && e == (BloomFilterError::IndexOutOfBounds {
                    limit: self@.size as usize,
                }),
            },
        no_unwind
    {
        if bit_index >= self.size {
            return Err(BloomFilterError::IndexOutOfBounds { limit: self.size });
        }
        let index = bit_index / 8;
        let offset = bit_index % 8;
        Ok((index, offset))
    }

    /// The bits as a string of the digits `0` and `1`, bit 0 first.
    pub fn to_bit_string(&self) -> (text: String)
        ensures
            text@ == self@.digits(),
    {
        proof {
            use_type_invariant(self);
            reveal_strlit("0");
            reveal_strlit("1");
        }
        let mut text = String::new();
        let mut index: usize = 0;
        while index < self.size
            invariant
                index <= self.size,
                self@.well_formed(),
                "0"@ == seq!['0'],
                "1"@ == seq!['1'],
                text@ == self@.digits().take(index as int),
            decreases self.size - index,
        {
            let byte_index = index / 8;
            let mask: u8 = Self::mask(index % 8);
            if (self.byte_array[byte_index] & mask) != 0 {
                text.append("1");
            } else {
                text.append("0");
            }
            index += 1;
        }
        text
    }

    /// The mask for the bit at `offset` from a byte's most significant bit.
    fn mask(offset: usize) -> (mask: u8)
        requires
            offset < 8,
        ensures
            mask == bit_mask(offset as int),
        no_unwind
    {
        let shift: u8 = (7 - offset) as u8;
        assert(1u8 << 7u8 == 0x80u8) by (bit_vector);
        assert(1u8 << 6u8 == 0x40u8) by (bit_vector);
        assert(1u8 << 5u8 == 0x20u8) by (bit_vector);
        assert(1u8 << 4u8 == 0x10u8) by (bit_vector);
        assert(1u8 << 3u8 == 0x08u8) by (bit_vector);
        assert(1u8 << 2u8 == 0x04u8) by (bit_vector);
        assert(1u8 << 1u8 == 0x02u8) by (bit_vector);
        assert(1u8 << 0u8 == 0x01u8) by (bit_vector);
        1u8 << shift
    }
}

impl vstd::std_specs::core::IndexSpecImpl<usize> for BitArray {
    /// Indexing asks for an index within the array.
    open spec fn index_req(&self, index: &usize) -> bool {
        *index < self@.size
    }
}

impl Index<usize> for BitArray {
    type Output = bool;

    /// The bit at `index`, which must be within the array.
    fn index(&self, index: usize) -> (bit: &bool)
        ensures
            *bit == self@.bit(index as int),
    {
        match self.get_bit(index) {
            Ok(true) => &true,
            Ok(false) => &false,
            Err(_) => unreached(),
        }
    }
}

} // verus!
