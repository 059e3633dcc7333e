//! A dictionary compressor with 16-bit codes.
//!
//! The dictionary is modelled as the sequence of its entries in code order:
//! entry `i` is the pair of a prior code and a byte whose code is `i`. The
//! first 256 entries pair the sentinel with each byte value. A dictionary
//! that has reached its ceiling is rebuilt from those 256 before the next
//! byte (when compressing) or the next code (when decompressing) is looked at.

use crate::compressor::round_trip::lemma_decompress_compress;
use crate::error::BloomFilterError;
use std::collections::HashMap;
use vstd::prelude::*;

verus! {

broadcast use vstd::std_specs::hash::group_hash_axioms;

/// The width of a code in bytes.
pub const CODE_SIZE: usize = 2;

/// The number of entries at which a dictionary is rebuilt.
pub const DMS: usize = 0xFFFF;

/// The code that stands for "no prior code".
pub const INITIAL_CODE: u16 = 0xFFFF;

/// The dictionary that both directions start from.
pub open spec fn initial_table() -> Seq<(u16, u8)> {
    Seq::new(256, |i: int| (INITIAL_CODE, i as u8))
}

/// The dictionary that the next step works on: `table`, or the initial one
/// where `table` is full.
pub open spec fn renewed(table: Seq<(u16, u8)>) -> Seq<(u16, u8)> {
    if table.len() == DMS {
        initial_table()
    } else {
        table
    }
}

/// Whether `table` holds the pair `(prior, byte)`.
pub open spec fn has_entry(table: Seq<(u16, u8)>, prior: u16, byte: u8) -> bool {
    exists|i: int| 0 <= i < table.len() && table[i] == (prior, byte)
}

/// A code of the pair `(prior, byte)` in `table`.
pub open spec fn code_of(table: Seq<(u16, u8)>, prior: u16, byte: u8) -> u16 {
    (choose|i: int| 0 <= i < table.len() && table[i] == (prior, byte)) as u16
}

/// The state of a compression: the dictionary, the code of the longest match
/// so far, and the codes put out.
pub struct Encoder {
    pub table: Seq<(u16, u8)>,
    pub prior: u16,
    pub codes: Seq<u16>,
}

/// The state in which a compression starts.
pub open spec fn initial_encoder() -> Encoder {
    Encoder { table: initial_table(), prior: INITIAL_CODE, codes: Seq::empty() }
}

/// The compression of one more byte. Where the pair of the prior code and
/// the byte is in the dictionary, its code becomes the prior code. Where it
/// is not, the prior code is put out, the pair gets the next free code, and
/// the byte's own code becomes the prior code.
pub open spec fn encoder_step(e: Encoder, byte: u8) -> Encoder {
    let table = renewed(e.table);
    if has_entry(table, e.prior, byte) {
        Encoder { table, prior: code_of(table, e.prior, byte), codes: e.codes }
    } else {
        let grown = table.push((e.prior, byte));
        Encoder {
            table: grown,
            prior: code_of(grown, INITIAL_CODE, byte),
            codes: e.codes.push(e.prior),
        }
    }
}

/// The state after all of `input` has been compressed, byte by byte.
pub open spec fn encoder_run(input: Seq<u8>) -> Encoder
    decreases input.len(),
{
    if input.len() == 0 {
        initial_encoder()
    } else {
        encoder_step(encoder_run(input.drop_last()), input.last())
    }
}

/// The codes that `input` compresses to: those put out along the way, and
/// the last prior code unless there is none.
pub open spec fn compressed_codes(input: Seq<u8>) -> Seq<u16> {
    let e = encoder_run(input);
    if e.prior != INITIAL_CODE {
        e.codes.push(e.prior)
    } else {
        e.codes
    }
}

/// The codes as bytes, each code big-endian.
pub open spec fn codes_to_bytes(codes: Seq<u16>) -> Seq<u8> {
    Seq::new(
        2 * codes.len(),
        |i: int|
            if i % 2 == 0 {
                (codes[i / 2] / 256) as u8
            } else {
                (codes[i / 2] % 256) as u8
            },
    )
}

/// The big-endian codes that `bytes` holds; an odd byte at the end is left out.
pub open spec fn bytes_to_codes(bytes: Seq<u8>) -> Seq<u16> {
    Seq::new(bytes.len() / 2, |i: int| (bytes[2 * i] * 256 + bytes[2 * i + 1]) as u16)
}

/// What `input` compresses to.
pub open spec fn compressed(input: Seq<u8>) -> Seq<u8> {
    codes_to_bytes(compressed_codes(input))
}

/// The bytes that `code` stands for in `table`: those of its prior code,
/// then its own byte; nothing for the sentinel. `None` where the walk leaves
/// the table or takes more than `fuel` steps.
pub open spec fn expansion(table: Seq<(u16, u8)>, code: u16, fuel: nat) -> Option<Seq<u8>>
    decreases fuel,
{
    if code == INITIAL_CODE {
        Some(Seq::empty())
    } else if fuel == 0 || code >= table.len() {
        None
    } else {
        match expansion(table, table[code as int].0, (fuel - 1) as nat) {
            Some(s) => Some(s.push(table[code as int].1)),
            None => None,
        }
    }
}

/// The bytes that `code` stands for in `table`, if its walk back to the
/// sentinel stays in the table and ends.
pub open spec fn translated(table: Seq<(u16, u8)>, code: u16) -> Option<Seq<u8>> {
    expansion(table, code, table.len())
}

/// The state of a decompression: the dictionary, the code read last, and the
/// bytes put out.
pub struct Decoder {
    pub table: Seq<(u16, u8)>,
    pub prev: u16,
    pub output: Seq<u8>,
}

/// The state in which a decompression starts.
pub open spec fn initial_decoder() -> Decoder {
    Decoder { table: initial_table(), prev: INITIAL_CODE, output: Seq::empty() }
}

/// The decompression of one more code, or `None` where the code is corrupt.
/// A code beyond the dictionary's length is corrupt. A code equal to that
/// length stands for the bytes of the code before it followed by the first of
/// them, and gets its entry before it is translated. Any other code is
/// translated, and the code before it, if there is one, gets an entry with
/// the first of the bytes that came out.
pub open spec fn decoder_step(d: Decoder, code: u16) -> Option<Decoder> {
    let table = renewed(d.table);
    if code > table.len() {
        None
    } else if code == table.len() {
        match translated(table, d.prev) {
            Some(before) => if before.len() == 0 {
                None
            } else {
                let grown = table.push((d.prev, before[0]));
                match translated(grown, code) {
                    Some(entry) => Some(
                        Decoder { table: grown, prev: code, output: d.output + entry },
                    ),
                    None => None,
                }
            },
            None => None,
        }
    } else {
        match translated(table, code) {
            Some(entry) => {
                let grown = if d.prev != INITIAL_CODE {
                    table.push((d.prev, entry[0]))
                } else {
                    table
                };
                Some(Decoder { table: grown, prev: code, output: d.output + entry })
            },
            None => None,
        }
    }
}

/// The state after all of `codes` have been decompressed, one by one.
pub open spec fn decoder_run(codes: Seq<u16>) -> Option<Decoder>
    decreases codes.len(),
{
    if codes.len() == 0 {
        Some(initial_decoder())
    } else {
        match decoder_run(codes.drop_last()) {
            Some(d) => decoder_step(d, codes.last()),
            None => None,
        }
    }
}

/// What `bytes` decompress to, or `None` where one of their codes is corrupt.
pub open spec fn decompressed(bytes: Seq<u8>) -> Option<Seq<u8>> {
    match decoder_run(bytes_to_codes(bytes)) {
        Some(d) => Some(d.output),
        None => None,
    }
}

/// The key under which the compression dictionary holds the pair
/// `(prior, byte)`: the two packed into one integer.
pub open spec fn entry_key(prior: u16, byte: u8) -> u32 {
    (prior * 256 + byte) as u32
}

/// Whether `table` starts with the 256 initial entries and is within the
/// ceiling.
pub open spec fn seeded(table: Seq<(u16, u8)>) -> bool {
    &&& 256 <= table.len() <= DMS
    &&& forall|i: int| 0 <= i < 256 ==> #[trigger] table[i] == (INITIAL_CODE, i as u8)
}

/// Whether the map from packed pairs to codes holds exactly the entries of
/// `table`, each under its code.
pub open spec fn dictionary_of(map: Map<u32, u16>, table: Seq<(u16, u8)>) -> bool {
    &&& map.dom().finite()
    &&& map.len() == table.len()
    &&& forall|i: int|
        0 <= i < table.len() ==> {
            let k = entry_key((#[trigger] table[i]).0, table[i].1);
            map.contains_key(k) && map[k] == i
        }
    &&& forall|k: u32| #[trigger]
        map.contains_key(k) ==> {
            let c = map[k] as int;
            c < table.len() && entry_key(table[c].0, table[c].1) == k
        }
}

/// With a map that holds the table's entries, a pair is in the table where
/// its key is in the map, and its code is what the map gives.
proof fn lemma_dictionary_lookup(map: Map<u32, u16>, table: Seq<(u16, u8)>, prior: u16, byte: u8)
    requires
        dictionary_of(map, table),
    ensures
        has_entry(table, prior, byte) == map.contains_key(entry_key(prior, byte)),
        has_entry(table, prior, byte) ==> code_of(table, prior, byte) == map[entry_key(
            prior,
            byte,
        )],
{
}

/// A pair that is not in the table yet can be added to both.
proof fn lemma_dictionary_insert(map: Map<u32, u16>, table: Seq<(u16, u8)>, prior: u16, byte: u8)
    requires
        dictionary_of(map, table),
        table.len() < DMS,
        !has_entry(table, prior, byte),
    ensures
        dictionary_of(
            map.insert(entry_key(prior, byte), table.len() as u16),
            table.push((prior, byte)),
        ),
{
    lemma_dictionary_lookup(map, table, prior, byte);
}

/// Putting out one more code appends its two bytes.
proof fn lemma_codes_to_bytes_push(codes: Seq<u16>, code: u16)
    ensures
        codes_to_bytes(codes.push(code)) == codes_to_bytes(codes) + seq![
            (code / 256) as u8,
            (code % 256) as u8,
        ],
{
}

/// The dictionary that compression starts from: each byte's pair with the
/// sentinel, under the byte's value as its code.
pub fn compress_dictionary() -> (dictionary: HashMap<u32, u16>)
    ensures
        dictionary_of(dictionary@, initial_table()),
{
    let mut dictionary: HashMap<u32, u16> = HashMap::with_capacity(DMS);
    let mut c: u16 = 0;
    while c < 256
        invariant
            c <= 256,
            dictionary_of(dictionary@, Seq::new(c as nat, |i: int| (INITIAL_CODE, i as u8))),
        decreases 256 - c,
    {
        let ghost table = Seq::new(c as nat, |i: int| (INITIAL_CODE, i as u8));
        proof {
            lemma_dictionary_insert(dictionary@, table, INITIAL_CODE, c as u8);
            assert(table.push((INITIAL_CODE, c as u8)) =~= Seq::new(
                (c + 1) as nat,
                |i: int| (INITIAL_CODE, i as u8),
            ));
        }
        dictionary.insert((INITIAL_CODE as u32) * 256 + (c as u32), c);
        c += 1;
    }
    dictionary
}

/// Compresses `bytes` into big-endian 16-bit codes, from which
/// `decompress` gives `bytes` back.
pub fn compress(bytes: &[u8]) -> (output: Vec<u8>)
    ensures
        output@ == compressed(bytes@),
        decompressed(output@) == Some(bytes@),
{
    let mut dictionary = compress_dictionary();
    let mut output: Vec<u8> = Vec::new();
    let mut curr_code: u16 = INITIAL_CODE;
    let mut i: usize = 0;
    while i < bytes.len()
        invariant
            i <= bytes.len(),
            curr_code == encoder_run(bytes@.take(i as int)).prior,
            output@ == codes_to_bytes(encoder_run(bytes@.take(i as int)).codes),
            dictionary_of(dictionary@, encoder_run(bytes@.take(i as int)).table),
            seeded(encoder_run(bytes@.take(i as int)).table),
        decreases bytes.len() - i,
    {
        let byte = bytes[i];
        let ghost e = encoder_run(bytes@.take(i as int));
        proof {
            assert(bytes@.take(i + 1).drop_last() =~= bytes@.take(i as int));
        }
        if dictionary.len() == DMS {
            dictionary = compress_dictionary();
        }
        let ghost table = renewed(e.table);
        let key: u32 = (curr_code as u32) * 256 + (byte as u32);
        proof {
            lemma_dictionary_lookup(dictionary@, table, curr_code, byte);
        }
        match dictionary.get(&key) {
            Some(code) => {
                curr_code = *code;
            },
            None => {
                output.push((curr_code / 256) as u8);
                output.push((curr_code % 256) as u8);
                let next_code: u16 = dictionary.len() as u16;
                proof {
                    lemma_codes_to_bytes_push(e.codes, curr_code);
                    lemma_dictionary_insert(dictionary@, table, curr_code, byte);
                }
                dictionary.insert(key, next_code);
                let ghost grown = table.push((curr_code, byte));
                proof {
                    assert(grown[byte as int] == table[byte as int]);
                    lemma_dictionary_lookup(dictionary@, grown, INITIAL_CODE, byte);
                }
                let single: u32 = (INITIAL_CODE as u32) * 256 + (byte as u32);
                curr_code = *dictionary.get(&single).unwrap();
            },
        }
        i += 1;
    }
    proof {
        assert(bytes@.take(i as int) =~= bytes@);
        lemma_decompress_compress(bytes@);
    }
    if curr_code != INITIAL_CODE {
        proof {
            lemma_codes_to_bytes_push(encoder_run(bytes@).codes, curr_code);
        }
        output.push((curr_code / 256) as u8);
        output.push((curr_code % 256) as u8);
    }
    output
}

/// An expansion that succeeds for a code other than the sentinel is not empty.
proof fn lemma_expansion_not_empty(table: Seq<(u16, u8)>, code: u16, fuel: nat)
    requires
        code != INITIAL_CODE,
        expansion(table, code, fuel) is Some,
    ensures
        expansion(table, code, fuel)->0.len() > 0,
{
}

/// Once a code is corrupt, no further code mends the stream.
proof fn lemma_decoder_run_fails_on(codes: Seq<u16>, n: int)
    requires
        0 <= n <= codes.len(),
        decoder_run(codes.take(n)) is None,
    ensures
        decoder_run(codes) is None,
    decreases codes.len() - n,
{
    if n < codes.len() {
        assert(codes.take(n + 1).drop_last() =~= codes.take(n));
        lemma_decoder_run_fails_on(codes, n + 1);
    } else {
        assert(codes.take(n) =~= codes);
    }
}

/// The inverse table that decompression starts from: entry `i` pairs the
/// sentinel with the byte `i`.
pub fn decompress_dictionary() -> (dictionary: Vec<(u16, u8)>)
    ensures
        dictionary@ == initial_table(),
{
    let mut dictionary: Vec<(u16, u8)> = Vec::with_capacity(DMS);
    let mut c: u16 = 0;
    while c < 256
        invariant
            c <= 256,
            dictionary@ == Seq::new(c as nat, |i: int| (INITIAL_CODE, i as u8)),
        decreases 256 - c,
    {
        dictionary.push((INITIAL_CODE, c as u8));
        c += 1;
    }
    dictionary
}

/// Translates `code` by walking the inverse table back to the sentinel.
/// `None` where the walk leaves the table or does not end.
pub fn translate(dictionary: &[(u16, u8)], code: &u16) -> (entry: Option<Vec<u8>>)
    ensures
        match entry {
            Some(bytes) => translated(dictionary@, *code) == Some(bytes@),
            None => translated(dictionary@, *code) is None,
        },
{
    let mut reversed: Vec<u8> = Vec::new();
    let mut curr_code: u16 = *code;
    let mut steps: usize = 0;
    let ghost mut tail: Seq<u8> = Seq::empty();
    while curr_code != INITIAL_CODE
        invariant
            steps <= dictionary.len(),
            reversed.len() == tail.len(),
            forall|k: int| 0 <= k < tail.len() ==> reversed[k] == tail[tail.len() - 1 - k],
            translated(dictionary@, *code) == match expansion(
                dictionary@,
                curr_code,
                (dictionary.len() - steps) as nat,
            ) {
                Some(head) => Some(head + tail),
                None => None,
            },
        decreases dictionary.len() - steps,
    {
        if steps >= dictionary.len() || curr_code as usize >= dictionary.len() {
            return None;
        }
        let decoded_val = dictionary[curr_code as usize];
        proof {
            tail = seq![decoded_val.1] + tail;
        }
        reversed.push(decoded_val.1);
        curr_code = decoded_val.0;
        steps += 1;
    }
    let mut output: Vec<u8> = Vec::new();
    let mut i: usize = reversed.len();
    while i > 0
        invariant
            i <= reversed.len(),
            reversed.len() == tail.len(),
            output.len() == reversed.len() - i,
            forall|k: int| 0 <= k < tail.len() ==> reversed[k] == tail[tail.len() - 1 - k],
            forall|k: int| 0 <= k < output.len() ==> output[k] == tail[k],
        decreases i,
    {
        i -= 1;
        output.push(reversed[i]);
    }
    Some(output)
}

/// Decompresses `bytes`, a sequence of big-endian 16-bit codes. An odd byte
/// at the end is not read.
pub fn decompress(bytes: &[u8]) -> (result: Result<Vec<u8>, BloomFilterError>)
    ensures
        match result {
            Ok(output) => decompressed(bytes@) == Some(output@),
            Err(e) => decompressed(bytes@) is None && e == BloomFilterError::CorruptCompressedData,
        },
{
    let mut output: Vec<u8> = Vec::new();
    let mut dictionary = decompress_dictionary();
    let mut prev_code: u16 = INITIAL_CODE;
    let count: usize = bytes.len() / CODE_SIZE;
    let ghost codes = bytes_to_codes(bytes@);
    let mut i: usize = 0;
    while i < count
        invariant
            i <= count,
            count == bytes.len() / 2,
            codes == bytes_to_codes(bytes@),
            256 <= dictionary.len() <= DMS,
            decoder_run(codes.take(i as int)) == Some(
                Decoder { table: dictionary@, prev: prev_code, output: output@ },
            ),
        decreases count - i,
    {
        let curr_code: u16 = (bytes[2 * i] as u16) * 256 + (bytes[2 * i + 1] as u16);
        proof {
            assert(codes.take(i + 1).drop_last() =~= codes.take(i as int));
        }
        let ghost before = Decoder { table: dictionary@, prev: prev_code, output: output@ };
        if dictionary.len() == DMS {
            dictionary = decompress_dictionary();
        }
        let dict_len = dictionary.len();
        let code_usize = curr_code as usize;
        if code_usize > dict_len {
            proof {
                lemma_decoder_run_fails_on(codes, i + 1);
            }
            return Err(BloomFilterError::CorruptCompressedData);
        }
        let mut entry: Vec<u8>;
        if code_usize == dict_len {
            let tmp = match translate(dictionary.as_slice(), &prev_code) {
                Some(tmp) => tmp,
                None => {
                    proof {
                        lemma_decoder_run_fails_on(codes, i + 1);
                    }
                    return Err(BloomFilterError::CorruptCompressedData);
                },
            };
            if tmp.len() == 0 {
                proof {
                    lemma_decoder_run_fails_on(codes, i + 1);
                }
                return Err(BloomFilterError::CorruptCompressedData);
            }
            dictionary.push((prev_code, tmp[0]));
            entry = match translate(dictionary.as_slice(), &curr_code) {
                Some(entry) => entry,
                None => {
                    proof {
                        lemma_decoder_run_fails_on(codes, i + 1);
                    }
                    return Err(BloomFilterError::CorruptCompressedData);
                },
            };
        } else {
            entry = match translate(dictionary.as_slice(), &curr_code) {
                Some(entry) => entry,
                None => {
                    proof {
                        lemma_decoder_run_fails_on(codes, i + 1);
                    }
                    return Err(BloomFilterError::CorruptCompressedData);
                },
            };
            if prev_code != INITIAL_CODE {
                proof {
                    lemma_expansion_not_empty(dictionary@, curr_code, dictionary@.len());
                }
                dictionary.push((prev_code, entry[0]));
            }
        }
        prev_code = curr_code;
        output.append(&mut entry);
        i += 1;
    }
    proof {
        assert(codes.take(i as int) =~= codes);
    }
    Ok(output)
}

} // verus!
