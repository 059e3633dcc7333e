//! Decompression undoes compression.
//!
//! The proof follows a compression byte by byte and keeps, beside it, the
//! decompression of the codes put out so far. The decompressor's dictionary
//! is the compressor's without its newest entry, and what has been
//! decompressed, followed by the bytes of the compressor's prior code, is the
//! input read so far.

use crate::compressor::lzw::{
    bytes_to_codes, code_of, codes_to_bytes, compressed, compressed_codes, decoder_run,
    decoder_step, decompressed, encoder_run, encoder_step, expansion, has_entry, initial_table,
    renewed, seeded, translated, Decoder, Encoder, DMS, INITIAL_CODE,
};
use vstd::prelude::*;

verus! {

/// A dictionary whose entries beyond the initial ones each point back to an
/// earlier entry.
pub open spec fn well_formed(table: Seq<(u16, u8)>) -> bool {
    &&& seeded(table)
    &&& forall|i: int| 256 <= i < table.len() ==> (#[trigger] table[i]).0 < i
}

/// The bytes that `code` stands for in a well-formed dictionary.
pub open spec fn text(table: Seq<(u16, u8)>, code: int) -> Seq<u8>
    decreases code,
{
    if 0 <= code < table.len() {
        if table[code].0 < code {
            text(table, table[code].0 as int).push(table[code].1)
        } else {
            seq![table[code].1]
        }
    } else {
        Seq::empty()
    }
}

/// The initial dictionary is well formed.
proof fn lemma_initial_table_well_formed()
    ensures
        well_formed(initial_table()),
{
}

/// Every code of a dictionary stands for one byte at least.
proof fn lemma_text_not_empty(table: Seq<(u16, u8)>, code: int)
    requires
        0 <= code < table.len(),
    ensures
        text(table, code).len() > 0,
{
}

/// In a well-formed dictionary the walk back from a code ends within as
/// many steps as the code is large, and gives the code's bytes.
proof fn lemma_expansion_is_text(table: Seq<(u16, u8)>, code: int, fuel: nat)
    requires
        well_formed(table),
        0 <= code < table.len(),
        fuel > code,
    ensures
        expansion(table, code as u16, fuel) == Some(text(table, code)),
    decreases code,
{
    if code < 256 {
        assert(table[code] == (INITIAL_CODE, code as u8));
    } else {
        lemma_expansion_is_text(table, table[code].0 as int, (fuel - 1) as nat);
    }
}

/// In a well-formed dictionary every code can be translated.
proof fn lemma_translated_is_text(table: Seq<(u16, u8)>, code: int)
    requires
        well_formed(table),
        0 <= code < table.len(),
    ensures
        translated(table, code as u16) == Some(text(table, code)),
{
    lemma_expansion_is_text(table, code, table.len());
}

/// A new entry leaves the bytes of the codes before it as they were.
proof fn lemma_text_stable(table: Seq<(u16, u8)>, entry: (u16, u8), code: int)
    requires
        0 <= code < table.len(),
    ensures
        text(table.push(entry), code) == text(table, code),
    decreases code,
{
    if table[code].0 < code {
        lemma_text_stable(table, entry, table[code].0 as int);
    }
}

/// The sum of the numbers from 1 to `k`.
pub open spec fn triangle(k: nat) -> nat
    decreases k,
{
    if k == 0 {
        0
    } else {
        k + triangle((k - 1) as nat)
    }
}

/// A code stands for one byte more, at most, than the code before it.
proof fn lemma_text_length(table: Seq<(u16, u8)>, code: int)
    requires
        well_formed(table),
        0 <= code < table.len(),
    ensures
        text(table, code).len() <= if code < 256 {
            1
        } else {
            code - 254
        },
    decreases code,
{
    if code >= 256 {
        lemma_text_length(table, table[code].0 as int);
    }
}

/// The only code of a byte's pair with the sentinel is the byte's value.
proof fn lemma_single_byte_code(table: Seq<(u16, u8)>, byte: u8)
    requires
        well_formed(table),
    ensures
        has_entry(table, INITIAL_CODE, byte),
        code_of(table, INITIAL_CODE, byte) == byte,
{
    assert(table[byte as int] == (INITIAL_CODE, byte));
}

/// How a compression of `input` and the decompression of its codes so far
/// stand to each other.
pub open spec fn mirrors(input: Seq<u8>, e: Encoder, d: Decoder) -> bool {
    if input.len() == 0 {
        &&& e.table == initial_table()
        &&& e.prior == INITIAL_CODE
        &&& e.codes.len() == 0
        &&& d.table == initial_table()
        &&& d.prev == INITIAL_CODE
        &&& d.output.len() == 0
    } else {
        &&& well_formed(e.table)
        &&& e.prior < e.table.len()
        &&& e.table.len() == DMS ==> e.prior < 256
        &&& d.output + text(e.table, e.prior as int) == input
        &&& 256 <= d.table.len() <= DMS
        &&& e.table.len() <= 256 + e.codes.len()
        &&& d.output.len() <= triangle(e.codes.len())
        &&& if e.codes.len() == 0 {
            &&& e.table == initial_table()
            &&& d.table == initial_table()
            &&& d.prev == INITIAL_CODE
        } else {
            &&& d.prev == e.codes.last()
            &&& e.table == renewed(d.table).push((d.prev, text(e.table, e.prior as int)[0]))
        }
    }
}

/// The decompressor accepts the compressor's prior code, and with it has
/// put out all of the input.
proof fn lemma_decoder_takes_prior(input: Seq<u8>, e: Encoder, d: Decoder)
    requires
        input.len() > 0,
        mirrors(input, e, d),
    ensures
        decoder_step(d, e.prior) == Some(
            Decoder {
                table: if e.codes.len() == 0 {
                    initial_table()
                } else {
                    e.table
                },
                prev: e.prior,
                output: input,
            },
        ),
{
    let c = e.prior as int;
    if e.codes.len() == 0 {
        lemma_translated_is_text(e.table, c);
    } else {
        // the decompressor's dictionary is the compressor's without its
        // newest entry, which pairs the code read last with `first`
        let table = renewed(d.table);
        let n = table.len() as int;
        let first = text(e.table, c)[0];
        assert(e.table[n].0 < n);
        assert(well_formed(table)) by {
            assert forall|i: int| 0 <= i < table.len() implies #[trigger] table[i]
                == e.table[i] by {}
        }
        lemma_text_not_empty(e.table, c);
        if c == n {
            // the code is the newest entry: the bytes of the code read last,
            // and the first of them once more
            lemma_translated_is_text(table, d.prev as int);
            lemma_text_stable(table, (d.prev, first), d.prev as int);
            lemma_text_not_empty(table, d.prev as int);
            lemma_translated_is_text(e.table, c);
        } else {
            lemma_translated_is_text(table, c);
            lemma_text_stable(table, (d.prev, first), c);
        }
    }
}

/// One more byte keeps the compression and the decompression of its codes
/// in step.
proof fn lemma_mirror_step(input: Seq<u8>, e: Encoder, d: Decoder, byte: u8) -> (d2: Decoder)
    requires
        mirrors(input, e, d),
        decoder_run(e.codes) == Some(d),
    ensures
        decoder_run(encoder_step(e, byte).codes) == Some(d2),
        mirrors(input.push(byte), encoder_step(e, byte), d2),
{
    let e2 = encoder_step(e, byte);
    let table = renewed(e.table);
    lemma_initial_table_well_formed();
    if input.len() == 0 {
        lemma_single_byte_code(table, byte);
        assert(d.output + text(e2.table, e2.prior as int) =~= input.push(byte));
        d
    } else if has_entry(table, e.prior, byte) {
        // the pair's code is beyond the initial entries, and stands for
        // the bytes of the prior code and `byte`
        let i = choose|i: int| 0 <= i < table.len() && table[i] == (e.prior, byte);
        assert(i >= 256);
        lemma_text_not_empty(table, e.prior as int);
        d
    } else {
        let grown = table.push((e.prior, byte));
        lemma_decoder_takes_prior(input, e, d);
        lemma_text_length(e.table, e.prior as int);
        let d2 = decoder_step(d, e.prior)->0;
        assert(e2.codes.drop_last() =~= e.codes);
        assert(well_formed(grown)) by {
            assert forall|i: int| 0 <= i < table.len() implies #[trigger] grown[i]
                == table[i] by {}
        }
        lemma_single_byte_code(grown, byte);
        assert(d2.output + text(grown, byte as int) =~= input.push(byte));
        d2
    }
}

/// The codes put out while `input` is compressed decompress without a fault,
/// and the two states mirror each other.
proof fn lemma_mirror(input: Seq<u8>) -> (d: Decoder)
    ensures
        decoder_run(encoder_run(input).codes) == Some(d),
        mirrors(input, encoder_run(input), d),
    decreases input.len(),
{
    if input.len() == 0 {
        decoder_run(encoder_run(input).codes)->0
    } else {
        let d = lemma_mirror(input.drop_last());
        let d2 = lemma_mirror_step(input.drop_last(), encoder_run(input.drop_last()), d, input.last());
        assert(input.drop_last().push(input.last()) =~= input);
        d2
    }
}

/// No pair is entered twice.
pub open spec fn distinct(table: Seq<(u16, u8)>) -> bool {
    forall|i: int, j: int| 0 <= i < j < table.len() ==> table[i] != table[j]
}

/// While compressing, a pair is in the dictionary once at most, so a pair
/// that is in it has one code.
pub proof fn lemma_entries_are_distinct(input: Seq<u8>)
    ensures
        distinct(encoder_run(input).table),
    decreases input.len(),
{
    if input.len() > 0 {
        lemma_entries_are_distinct(input.drop_last());
        let e = encoder_run(input.drop_last());
        let table = renewed(e.table);
        if !has_entry(table, e.prior, input.last()) {
            let grown = table.push((e.prior, input.last()));
            assert forall|i: int, j: int| 0 <= i < j < grown.len() implies grown[i]
                != grown[j] by {}
        }
    }
}

/// Codes written as bytes are read back as the same codes.
pub proof fn lemma_codes_round_trip(codes: Seq<u16>)
    ensures
        bytes_to_codes(codes_to_bytes(codes)) == codes,
{
    let back = bytes_to_codes(codes_to_bytes(codes));
    assert forall|i: int| 0 <= i < codes.len() implies back[i] == codes[i] by {}
}

/// Compression puts out two bytes for each code, and `k` codes stand for
/// `1 + 2 + ... + k` bytes at most.
pub proof fn lemma_compressed_length(input: Seq<u8>)
    ensures
        compressed(input).len() == 2 * compressed_codes(input).len(),
        input.len() <= triangle(compressed_codes(input).len()),
{
    let e = encoder_run(input);
    let d = lemma_mirror(input);
    if input.len() > 0 {
        lemma_text_length(e.table, e.prior as int);
    }
}

/// Every byte sequence, the empty one too, comes back from its compressed
/// form unchanged.
pub proof fn lemma_decompress_compress(input: Seq<u8>)
    ensures
        decompressed(compressed(input)) == Some(input),
{
    let e = encoder_run(input);
    let d = lemma_mirror(input);
    lemma_codes_round_trip(compressed_codes(input));
    if input.len() > 0 {
        lemma_decoder_takes_prior(input, e, d);
        assert(e.codes.push(e.prior).drop_last() =~= e.codes);
    }
}

} // verus!
