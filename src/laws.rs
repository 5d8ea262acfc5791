//! Properties of the decoder, proved over its model.
use vstd::prelude::*;

use crate::decode::{spec_read_field, take};
use crate::store::Entries;
use crate::table::{chunk_table, kind_of, prefix_of, riff_tag, wave_tag, ChunkKind};
use crate::value::{le_u32, FieldType, ParseError};
use crate::walker::{
    lemma_chunk_budget, lemma_field_cost, lemma_fields_budget, next_text_len, next_unknown,
    parsed_length, spec_chunk, spec_container, spec_fields, spec_parse, spec_walk,
};

verus! {

/// A walk that succeeds ends exactly where its budget runs out.
pub proof fn lemma_walk_uses_budget(input: Seq<u8>, pos: int, global: u32, n_unknown: nat)
    ensures
        spec_walk(input, pos, global, n_unknown) matches Ok((es, end)) ==> end == pos + global,
    decreases global,
{
    if global > 0 && pos + 8 <= input.len() && 0 <= pos && global >= 8 {
        let h = input.subrange(pos, pos + 8);
        let id = h.subrange(0, 4);
        let size = le_u32(h, 4) as u32;
        let kind = kind_of(id);
        let prefix = prefix_of(kind, n_unknown);
        assert(take(input, pos, 8) == Some(h));
        lemma_chunk_budget(kind, input, pos + 8, (global - 8) as u32, id, size, prefix);
        match spec_chunk(kind, input, pos + 8, (global - 8) as u32, id, size, prefix) {
            Ok((es, p, g)) => lemma_walk_uses_budget(input, p, g, next_unknown(kind, n_unknown)),
            Err(e) => {},
        }
    }
}

/// A successful parse consumes the 8-byte container header and exactly the
/// container size that the header declares: chunk headers, fields and pad
/// bytes together use up the container budget.
pub proof fn lemma_parse_consumes_declared_size(input: Seq<u8>)
    requires
        spec_parse(input) is Ok,
    ensures
        input.len() >= 12,
        parsed_length(input) == 8 + le_u32(input, 4),
        parsed_length(input) <= input.len(),
{
    let h = input.subrange(0, 12);
    assert(le_u32(h, 4) == le_u32(input, 4));
    let size = le_u32(h, 4);
    lemma_walk_uses_budget(input, 12, (size - 4) as u32, 0);
    lemma_walk_in_bounds(input, 12, (size - 4) as u32, 0);
}

/// A walk that starts inside the input and succeeds ends inside it.
pub proof fn lemma_walk_in_bounds(input: Seq<u8>, pos: int, global: u32, n_unknown: nat)
    ensures
        0 <= pos <= input.len() ==> (spec_walk(input, pos, global, n_unknown) matches Ok((es, end))
            ==> end <= input.len()),
    decreases global,
{
    if global > 0 && pos + 8 <= input.len() && 0 <= pos && global >= 8 {
        let h = input.subrange(pos, pos + 8);
        let id = h.subrange(0, 4);
        let size = le_u32(h, 4) as u32;
        let kind = kind_of(id);
        let prefix = prefix_of(kind, n_unknown);
        assert(take(input, pos, 8) == Some(h));
        lemma_chunk_budget(kind, input, pos + 8, (global - 8) as u32, id, size, prefix);
        match spec_chunk(kind, input, pos + 8, (global - 8) as u32, id, size, prefix) {
            Ok((es, p, g)) => lemma_walk_in_bounds(input, p, g, next_unknown(kind, n_unknown)),
            Err(e) => {},
        }
    }
}

/// The fields of a chunk other than the container use exactly the chunk's
/// declared size; where its field table ends before that, the chunk fails
/// with `UnconsumedChunkBytes`.
pub proof fn lemma_chunk_fields_use_declared_size(
    kind: ChunkKind,
    input: Seq<u8>,
    pos: int,
    global: u32,
    id: Seq<u8>,
    size: u32,
    prefix: Seq<char>,
)
    ensures
        spec_fields(chunk_table(kind), input, 0, pos, size, global, id, size, prefix, 0) matches Ok(
            (es, p, rem, g),
        ) ==> (rem == 0 ==> p - pos == size) && (rem != 0 ==> spec_chunk(
            kind,
            input,
            pos,
            global,
            id,
            size,
            prefix,
        ) == Err::<(Entries, int, u32), ParseError>(ParseError::UnconsumedChunkBytes)),
        spec_chunk(kind, input, pos, global, id, size, prefix) is Ok ==> (spec_fields(
            chunk_table(kind),
            input,
            0,
            pos,
            size,
            global,
            id,
            size,
            prefix,
            0,
        ) matches Ok((es, p, rem, g)) && rem == 0 && p - pos == size),
{
    lemma_fields_budget(chunk_table(kind), input, 0, pos, size, global, id, size, prefix, 0);
}

/// After its fields, a chunk of odd size skips exactly one pad byte, charged
/// to the container budget; a chunk of even size skips none.
pub proof fn lemma_chunk_padding(
    kind: ChunkKind,
    input: Seq<u8>,
    pos: int,
    global: u32,
    id: Seq<u8>,
    size: u32,
    prefix: Seq<char>,
)
    ensures
        spec_chunk(kind, input, pos, global, id, size, prefix) matches Ok((es, p, g))
            ==> (spec_fields(chunk_table(kind), input, 0, pos, size, global, id, size, prefix, 0) matches Ok(
            (fes, fp, rem, fg)) && es == fes && p == fp + size % 2 && g == fg - size % 2 && global
            - g == size + size % 2),
{
    lemma_fields_budget(chunk_table(kind), input, 0, pos, size, global, id, size, prefix, 0);
}

/// A container not tagged `RIFF` / `WAVE` never parses; where its chunks all
/// decode, the parse fails with `NotRiffWave`.
pub proof fn lemma_not_riff_wave(input: Seq<u8>)
    requires
        input.len() >= 12,
        input.subrange(0, 4) != riff_tag() || input.subrange(8, 12) != wave_tag(),
    ensures
        !(spec_parse(input) is Ok),
        le_u32(input, 4) >= 4 && spec_walk(input, 12, (le_u32(input, 4) - 4) as u32, 0) is Ok
            ==> spec_parse(input) == Err::<Entries, ParseError>(ParseError::NotRiffWave),
{
    let h = input.subrange(0, 12);
    assert(take(input, 0, 12) == Some(h));
    assert(le_u32(h, 4) == le_u32(input, 4));
    assert(h.subrange(0, 4) =~= input.subrange(0, 4));
    assert(h.subrange(8, 12) =~= input.subrange(8, 12));
}

/// A format chunk that declares fewer than the 16 bytes of its fixed fields
/// fails with `TruncatedInput` or `BudgetExceeded`.
pub proof fn lemma_short_format_chunk(
    input: Seq<u8>,
    pos: int,
    global: u32,
    id: Seq<u8>,
    size: u32,
    prefix: Seq<char>,
)
    requires
        size < 16,
    ensures
        spec_chunk(ChunkKind::Format, input, pos, global, id, size, prefix) == Err::<
            (Entries, int, u32),
            ParseError,
        >(ParseError::TruncatedInput) || spec_chunk(
            ChunkKind::Format,
            input,
            pos,
            global,
            id,
            size,
            prefix,
        ) == Err::<(Entries, int, u32), ParseError>(ParseError::BudgetExceeded),
{
    reveal_with_fuel(spec_fields, 9);
}

/// A data chunk of odd declared size fails with `MalformedPayload`.
pub proof fn lemma_odd_data_chunk(
    input: Seq<u8>,
    pos: int,
    global: u32,
    id: Seq<u8>,
    size: u32,
    prefix: Seq<char>,
)
    requires
        size % 2 == 1,
    ensures
        spec_chunk(ChunkKind::Data, input, pos, global, id, size, prefix) == Err::<
            (Entries, int, u32),
            ParseError,
        >(ParseError::MalformedPayload),
{
    reveal_with_fuel(spec_fields, 4);
}

} // verus!

verus! {

proof fn lemma_take_prefix(s: Seq<u8>, len: int, p: int, n: int)
    requires
        0 <= len <= s.len(),
        0 <= p,
        0 <= n,
    ensures
        p + n <= len ==> take(s.subrange(0, len), p, n) == take(s, p, n),
        p + n > len ==> take(s.subrange(0, len), p, n) == None::<Seq<u8>>,
{
    if p + n <= len {
        assert(s.subrange(0, len).subrange(p, p + n) =~= s.subrange(p, p + n));
    }
}

proof fn lemma_field_prefix(
    ftype: FieldType,
    s: Seq<u8>,
    len: int,
    pos: int,
    budget: u32,
    id: Seq<u8>,
    size: u32,
    idx: int,
    text_len: u32,
)
    requires
        0 <= pos <= len <= s.len(),
        spec_read_field(ftype, s, pos, budget, id, size, idx, text_len) is Ok,
    ensures
        ({
            let r = spec_read_field(ftype, s, pos, budget, id, size, idx, text_len);
            let r2 = spec_read_field(ftype, s.subrange(0, len), pos, budget, id, size, idx, text_len);
            (r->Ok_0.2 <= len ==> r2 == r) && (r->Ok_0.2 > len ==> r2 == Err::<
                (crate::value::FieldValue, u32, int),
                ParseError,
            >(ParseError::TruncatedInput))
        }),
{
    lemma_take_prefix(s, len, pos, 2);
    lemma_take_prefix(s, len, pos, 4);
    lemma_take_prefix(s, len, pos, budget as int);
    lemma_take_prefix(s, len, pos, text_len + text_len % 2);
}

proof fn lemma_fields_prefix(
    table: Seq<(Seq<char>, FieldType)>,
    s: Seq<u8>,
    len: int,
    i: int,
    pos: int,
    rem: u32,
    global: u32,
    id: Seq<u8>,
    size: u32,
    prefix: Seq<char>,
    text_len: u32,
)
    requires
        0 <= pos <= len <= s.len(),
        spec_fields(table, s, i, pos, rem, global, id, size, prefix, text_len) is Ok,
    ensures
        ({
            let r = spec_fields(table, s, i, pos, rem, global, id, size, prefix, text_len);
            let r2 = spec_fields(
                table,
                s.subrange(0, len),
                i,
                pos,
                rem,
                global,
                id,
                size,
                prefix,
                text_len,
            );
            (r->Ok_0.1 <= len ==> r2 == r) && (r->Ok_0.1 > len ==> r2 == Err::<
                (Entries, int, u32, u32),
                ParseError,
            >(ParseError::TruncatedInput))
        }),
    decreases table.len() - i,
{
    if 0 <= i < table.len() {
        let f = spec_read_field(table[i].1, s, pos, rem, id, size, i, text_len);
        lemma_field_prefix(table[i].1, s, len, pos, rem, id, size, i, text_len);
        lemma_field_cost(table[i].1, s, pos, rem, id, size, i, text_len);
        let (v, rem2, pos2) = f->Ok_0;
        let used = rem - rem2;
        let next = next_text_len(v, text_len);
        if pos2 <= len {
            lemma_fields_prefix(
                table,
                s,
                len,
                i + 1,
                pos2,
                rem2,
                (global - used) as u32,
                id,
                size,
                prefix,
                next,
            );
            lemma_fields_budget(
                table,
                s,
                i + 1,
                pos2,
                rem2,
                (global - used) as u32,
                id,
                size,
                prefix,
                next,
            );
        } else {
            lemma_fields_budget(
                table,
                s,
                i + 1,
                pos2,
                rem2,
                (global - used) as u32,
                id,
                size,
                prefix,
                next,
            );
        }
    }
}

proof fn lemma_chunk_prefix(
    kind: ChunkKind,
    s: Seq<u8>,
    len: int,
    pos: int,
    global: u32,
    id: Seq<u8>,
    size: u32,
    prefix: Seq<char>,
)
    requires
        0 <= pos <= len <= s.len(),
        spec_chunk(kind, s, pos, global, id, size, prefix) is Ok,
    ensures
        ({
            let r = spec_chunk(kind, s, pos, global, id, size, prefix);
            let r2 = spec_chunk(kind, s.subrange(0, len), pos, global, id, size, prefix);
            (r->Ok_0.1 <= len ==> r2 == r) && (r->Ok_0.1 > len ==> r2 == Err::<
                (Entries, int, u32),
                ParseError,
            >(ParseError::TruncatedInput))
        }),
{
    lemma_fields_prefix(chunk_table(kind), s, len, 0, pos, size, global, id, size, prefix, 0);
}

proof fn lemma_walk_prefix(s: Seq<u8>, len: int, pos: int, global: u32, n_unknown: nat)
    requires
        0 <= pos <= len <= s.len(),
        spec_walk(s, pos, global, n_unknown) is Ok,
    ensures
        ({
            let r = spec_walk(s, pos, global, n_unknown);
            let r2 = spec_walk(s.subrange(0, len), pos, global, n_unknown);
            (r->Ok_0.1 <= len ==> r2 == r) && (r->Ok_0.1 > len ==> r2 == Err::<
                (Entries, int),
                ParseError,
            >(ParseError::TruncatedInput))
        }),
    decreases global,
{
    let s2 = s.subrange(0, len);
    lemma_take_prefix(s, len, pos, 8);
    if global > 0 {
        let h = s.subrange(pos, pos + 8);
        let id = h.subrange(0, 4);
        let size = le_u32(h, 4) as u32;
        let kind = kind_of(id);
        let prefix = prefix_of(kind, n_unknown);
        assert(take(s, pos, 8) == Some(h));
        lemma_chunk_budget(kind, s, pos + 8, (global - 8) as u32, id, size, prefix);
        lemma_walk_uses_budget(s, pos, global, n_unknown);
        if pos + 8 <= len {
            lemma_chunk_prefix(kind, s, len, pos + 8, (global - 8) as u32, id, size, prefix);
            let (es, p, g) = spec_chunk(kind, s, pos + 8, (global - 8) as u32, id, size, prefix)->Ok_0;
            lemma_walk_uses_budget(s, p, g, next_unknown(kind, n_unknown));
            if p <= len {
                lemma_walk_prefix(s, len, p, g, next_unknown(kind, n_unknown));
            }
        }
    }
}

/// Parsing reads nothing past the end of the container: an input cut
/// anywhere after that end parses as the whole input does, and one cut
/// before it fails with `TruncatedInput`.
pub proof fn lemma_parse_prefix(s: Seq<u8>, len: int)
    requires
        spec_parse(s) is Ok,
        0 <= len <= s.len(),
    ensures
        parsed_length(s) <= len ==> spec_parse(s.subrange(0, len)) == spec_parse(s),
        parsed_length(s) > len ==> spec_parse(s.subrange(0, len)) == Err::<Entries, ParseError>(
            ParseError::TruncatedInput,
        ),
{
    let s2 = s.subrange(0, len);
    lemma_take_prefix(s, len, 0, 12);
    let h = s.subrange(0, 12);
    assert(take(s, 0, 12) == Some(h));
    let size = le_u32(h, 4);
    lemma_walk_uses_budget(s, 12, (size - 4) as u32, 0);
    if len >= 12 {
        lemma_walk_prefix(s, len, 12, (size - 4) as u32, 0);
    }
}

/// Removing the last byte of an input that holds exactly one container
/// makes the parse fail with `TruncatedInput`.
pub proof fn lemma_drop_last_byte(s: Seq<u8>)
    requires
        spec_parse(s) is Ok,
        parsed_length(s) == s.len(),
    ensures
        spec_parse(s.drop_last()) == Err::<Entries, ParseError>(ParseError::TruncatedInput),
{
    lemma_parse_consumes_declared_size(s);
    lemma_parse_prefix(s, s.len() - 1);
    assert(s.drop_last() =~= s.subrange(0, s.len() - 1));
}

} // verus!
