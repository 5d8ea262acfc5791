use vstd::prelude::*;

use crate::decode::{read_simple_field, spec_read_field, take};
use crate::store::{Entries, FieldStore};
use crate::table::{
    chunk_kind, chunk_prefix, chunk_table, field_key, field_table, header_prefix, kind_of,
    make_key, prefix_of, riff_tag, wave_tag, ChunkKind,
};
use crate::value::{le_u32, read_u32_le, FieldType, FieldValue, ParseError, ParsedValue};

verus! {

/// The length that a following `VariableLengthText` field reads: the value
/// of the latest `u32` field of the chunk.
pub open spec fn next_text_len(v: FieldValue, prev: u32) -> u32 {
    match v {
        FieldValue::U32(x) => x,
        _ => prev,
    }
}

/// Decoding fields `i..` of `table` from `pos`, with `rem` bytes left in the
/// chunk and `global` in the container: the entries, the position after them
/// and the two budgets left.
pub open spec fn spec_fields(
    table: Seq<(Seq<char>, FieldType)>,
    input: Seq<u8>,
    i: int,
    pos: int,
    rem: u32,
    global: u32,
    id: Seq<u8>,
    size: u32,
    prefix: Seq<char>,
    text_len: u32,
) -> Result<(Entries, int, u32, u32), ParseError>
    decreases table.len() - i,
{
    if i < 0 || i >= table.len() {
        Ok((Seq::empty(), pos, rem, global))
    } else {
        match spec_read_field(table[i].1, input, pos, rem, id, size, i, text_len) {
            Err(e) => Err(e),
            Ok((v, rem2, pos2)) => {
                let used = rem - rem2;
                if used > global {
                    Err(ParseError::BudgetExceeded)
                } else {
                    match spec_fields(
                        table,
                        input,
                        i + 1,
                        pos2,
                        rem2,
                        (global - used) as u32,
                        id,
                        size,
                        prefix,
                        next_text_len(v, text_len),
                    ) {
                        Err(e) => Err(e),
                        Ok((es, p, r, g)) => Ok(
                            (seq![(field_key(prefix, table[i].0), v)] + es, p, r, g),
                        ),
                    }
                }
            },
        }
    }
}

/// Decoding the body of a chunk at `pos` (its header already read), then its
/// pad byte if its size is odd: the entries, the position after it and the
/// container budget left.
pub open spec fn spec_chunk(
    kind: ChunkKind,
    input: Seq<u8>,
    pos: int,
    global: u32,
    id: Seq<u8>,
    size: u32,
    prefix: Seq<char>,
) -> Result<(Entries, int, u32), ParseError> {
    match spec_fields(chunk_table(kind), input, 0, pos, size, global, id, size, prefix, 0) {
        Err(e) => Err(e),
        Ok((es, p, rem, g)) => if rem != 0 {
            Err(ParseError::UnconsumedChunkBytes)
        } else if size % 2 == 1 {
            if p + 1 > input.len() {
                Err(ParseError::TruncatedInput)
            } else if g == 0 {
                Err(ParseError::BudgetExceeded)
            } else {
                Ok((es, p + 1, (g - 1) as u32))
            }
        } else {
            Ok((es, p, g))
        },
    }
}

/// The number of unknown chunks seen after one more chunk of `kind`.
pub open spec fn next_unknown(kind: ChunkKind, n_unknown: nat) -> nat {
    if kind == ChunkKind::Unknown {
        n_unknown + 1
    } else {
        n_unknown
    }
}

/// A chunk never gives back container budget.
pub proof fn lemma_chunk_budget(
    kind: ChunkKind,
    input: Seq<u8>,
    pos: int,
    global: u32,
    id: Seq<u8>,
    size: u32,
    prefix: Seq<char>,
)
    ensures
        spec_chunk(kind, input, pos, global, id, size, prefix) matches Ok((es, p, g)) ==> (g
            <= global && p - pos == global - g && (pos <= input.len() ==> p <= input.len())),
{
    lemma_fields_budget(chunk_table(kind), input, 0, pos, size, global, id, size, prefix, 0);
}

/// A field's decoding advances the position by exactly the chunk budget it
/// uses.
pub proof fn lemma_field_cost(
    ftype: FieldType,
    input: Seq<u8>,
    pos: int,
    budget: u32,
    id: Seq<u8>,
    size: u32,
    idx: int,
    text_len: u32,
)
    ensures
        spec_read_field(ftype, input, pos, budget, id, size, idx, text_len) matches Ok((v, b, p))
            ==> (b <= budget && p - pos == budget - b && (pos <= input.len() ==> p
            <= input.len())),
{
}

/// Fields advance the position by exactly the chunk budget they use, and use
/// as much container budget.
pub proof fn lemma_fields_budget(
    table: Seq<(Seq<char>, FieldType)>,
    input: Seq<u8>,
    i: int,
    pos: int,
    rem: u32,
    global: u32,
    id: Seq<u8>,
    size: u32,
    prefix: Seq<char>,
    text_len: u32,
)
    ensures
        spec_fields(table, input, i, pos, rem, global, id, size, prefix, text_len) matches Ok(
            (es, p, r, g),
        ) ==> (r <= rem && g <= global && p - pos == rem - r && global - g == rem - r && (pos
            <= input.len() ==> p <= input.len())),
    decreases table.len() - i,
{
    if 0 <= i < table.len() {
        lemma_field_cost(table[i].1, input, pos, rem, id, size, i, text_len);
        match spec_read_field(table[i].1, input, pos, rem, id, size, i, text_len) {
            Err(e) => {},
            Ok((v, rem2, pos2)) => {
                let used = rem - rem2;
                if used <= global {
                    lemma_fields_budget(
                        table,
                        input,
                        i + 1,
                        pos2,
                        rem2,
                        (global - used) as u32,
                        id,
                        size,
                        prefix,
                        next_text_len(v, text_len),
                    );
                }
            },
        }
    }
}

/// Walking the chunks from `pos` while `global` bytes of the container are
/// left; `n_unknown` unknown chunks came before. Gives the entries and the
/// position where the container ends.
pub open spec fn spec_walk(input: Seq<u8>, pos: int, global: u32, n_unknown: nat) -> Result<
    (Entries, int),
    ParseError,
>
    decreases global,
{
    if global == 0 {
        Ok((Seq::empty(), pos))
    } else {
        match take(input, pos, 8) {
            None => Err(ParseError::TruncatedInput),
            Some(h) => if global < 8 {
                Err(ParseError::BudgetExceeded)
            } else {
                let id = h.subrange(0, 4);
                let size = le_u32(h, 4) as u32;
                let kind = kind_of(id);
                let prefix = prefix_of(kind, n_unknown);
                match spec_chunk(kind, input, pos + 8, (global - 8) as u32, id, size, prefix) {
                    Err(e) => Err(e),
                    Ok((es, p, g)) => {
                        proof {
                            lemma_chunk_budget(
                                kind,
                                input,
                                pos + 8,
                                (global - 8) as u32,
                                id,
                                size,
                                prefix,
                            );
                        }
                        match spec_walk(input, p, g, next_unknown(kind, n_unknown)) {
                            Err(e) => Err(e),
                            Ok((es2, end)) => Ok((es + es2, end)),
                        }
                    },
                }
            },
        }
    }
}

/// The container header's three fields.
pub open spec fn header_entries(h: Seq<u8>) -> Entries {
    seq![
        (field_key(header_prefix(), "riff_id"@), FieldValue::Bytes4(h.subrange(0, 4))),
        (field_key(header_prefix(), "riff_size"@), FieldValue::U32(le_u32(h, 4) as u32)),
        (field_key(header_prefix(), "wave_id"@), FieldValue::Bytes4(h.subrange(8, 12))),
    ]
}

/// Walking a whole container: the 12-byte header (tag, size, sub-format
/// tag; the sub-format tag is charged to the container budget), then the
/// chunks, then the check of the `RIFF` / `WAVE` tags.
pub open spec fn spec_container(input: Seq<u8>) -> Result<(Entries, int), ParseError> {
    match take(input, 0, 12) {
        None => Err(ParseError::TruncatedInput),
        Some(h) => {
            let size = le_u32(h, 4);
            if size < 4 {
                Err(ParseError::BudgetExceeded)
            } else {
                match spec_walk(input, 12, (size - 4) as u32, 0) {
                    Err(e) => Err(e),
                    Ok((es, end)) => if h.subrange(0, 4) == riff_tag() && h.subrange(8, 12)
                        == wave_tag() {
                        Ok((header_entries(h) + es, end))
                    } else {
                        Err(ParseError::NotRiffWave)
                    },
                }
            }
        },
    }
}

/// The outcome of a container with header `h` whose chunks walked to `walk`.
pub open spec fn finish(h: Seq<u8>, walk: Result<(Entries, int), ParseError>) -> Result<
    (Entries, int),
    ParseError,
> {
    match walk {
        Err(e) => Err(e),
        Ok((es, end)) => if h.subrange(0, 4) == riff_tag() && h.subrange(8, 12) == wave_tag() {
            Ok((header_entries(h) + es, end))
        } else {
            Err(ParseError::NotRiffWave)
        },
    }
}

/// The store that parsing `input` gives, or the error that ends it.
pub open spec fn spec_parse(input: Seq<u8>) -> Result<Entries, ParseError> {
    match spec_container(input) {
        Ok((es, end)) => Ok(es),
        Err(e) => Err(e),
    }
}

/// Where the container of a successful parse ends in `input`.
pub open spec fn parsed_length(input: Seq<u8>) -> int {
    match spec_container(input) {
        Ok((es, end)) => end,
        Err(e) => 0,
    }
}

} // verus!

verus! {

/// `r` with `acc` written before its entries.
pub open spec fn after_fields(acc: Entries, r: Result<(Entries, int, u32, u32), ParseError>) -> Result<
    (Entries, int, u32, u32),
    ParseError,
> {
    match r {
        Ok((es, p, rem, g)) => Ok((acc + es, p, rem, g)),
        Err(e) => Err(e),
    }
}

/// `r` with `acc` written before its entries.
pub open spec fn after_walk(acc: Entries, r: Result<(Entries, int), ParseError>) -> Result<
    (Entries, int),
    ParseError,
> {
    match r {
        Ok((es, end)) => Ok((acc + es, end)),
        Err(e) => Err(e),
    }
}

/// One step of the walk: the chunk at `pos`, then the walk after it.
proof fn lemma_walk_step(input: Seq<u8>, pos: int, global: u32, n_unknown: nat) -> (added: Entries)
    requires
        global >= 8,
        0 <= pos,
        pos + 8 <= input.len(),
    ensures
        ({
            let hd = input.subrange(pos, pos + 8);
            let id = hd.subrange(0, 4);
            let kind = kind_of(id);
            let size = le_u32(hd, 4) as u32;
            let chunk = spec_chunk(kind, input, pos + 8, (global - 8) as u32, id, size, prefix_of(kind, n_unknown));
            match chunk {
                Err(e) => spec_walk(input, pos, global, n_unknown) == Err::<(Entries, int), ParseError>(e),
                Ok((es, p, g)) => added == es && pos + 8 <= p <= input.len() && g < global
                    && spec_walk(input, pos, global, n_unknown) == after_walk(
                    es,
                    spec_walk(input, p, g, next_unknown(kind, n_unknown)),
                ),
            }
        }),
{
    let hd = input.subrange(pos, pos + 8);
    let id = hd.subrange(0, 4);
    let kind = kind_of(id);
    let size = le_u32(hd, 4) as u32;
    assert(take(input, pos, 8) == Some(hd));
    lemma_chunk_budget(kind, input, pos + 8, (global - 8) as u32, id, size, prefix_of(kind, n_unknown));
    match spec_chunk(kind, input, pos + 8, (global - 8) as u32, id, size, prefix_of(kind, n_unknown)) {
        Err(e) => Seq::empty(),
        Ok((es, p, g)) => es,
    }
}

proof fn lemma_after_walk_assoc(a: Entries, b: Entries, r: Result<(Entries, int), ParseError>)
    ensures
        after_walk(a, after_walk(b, r)) == after_walk(a + b, r),
{
    match r {
        Ok((es, end)) => assert(a + (b + es) =~= (a + b) + es),
        Err(e) => {},
    }
}

/// Decodes the fields of a chunk of `kind` whose header (`id`, `size`) was
/// read, writing each into `store`. Returns the position after them and the
/// chunk and container budgets left.
fn read_chunk_fields(
    kind: ChunkKind,
    input: &[u8],
    pos0: usize,
    global0: u32,
    id: [u8; 4],
    size: u32,
    prefix: &String,
    store: &mut FieldStore,
) -> (r: Result<(usize, u32, u32), ParseError>)
    requires
        pos0 <= input@.len(),
    ensures
        match (r, spec_fields(chunk_table(kind), input@, 0, pos0 as int, size, global0, id@, size, prefix@, 0)) {
            (Ok((p, rem, g)), Ok((es, sp, srem, sg))) => p == sp && rem == srem && g == sg
                && final(store)@ == old(store)@ + es,
            (Err(e), Err(se)) => e == se,
            _ => false,
        },
{
    let table = field_table(kind);
    let ghost t = chunk_table(kind);
    let ghost whole = spec_fields(t, input@, 0, pos0 as int, size, global0, id@, size, prefix@, 0);
    let ghost acc: Entries = Seq::empty();
    let mut i: usize = 0;
    let mut pos = pos0;
    let mut rem = size;
    let mut global = global0;
    let mut text_len: u32 = 0;
    assert(old(store)@ + acc =~= old(store)@);
    assert(whole == after_fields(acc, whole)) by {
        match whole {
            Ok((es, p, r, g)) => assert(acc + es =~= es),
            Err(e) => {},
        }
    }
    while i < table.len()
        invariant
            table@.map_values(|e: (&'static str, FieldType)| (e.0@, e.1)) == t,
            t == chunk_table(kind),
            i <= table@.len(),
            pos <= input@.len(),
            store@ == old(store)@ + acc,
            whole == spec_fields(t, input@, 0, pos0 as int, size, global0, id@, size, prefix@, 0),
            whole == after_fields(
                acc,
                spec_fields(t, input@, i as int, pos as int, rem, global, id@, size, prefix@, text_len),
            ),
        decreases table@.len() - i,
    {
        let (name, ftype) = table[i];
        assert(t[i as int] == (name@, ftype));
        let step = read_simple_field(ftype, input, pos, rem, id, size, i, text_len);
        match step {
            Err(e) => {
                return Err(e);
            },
            Ok((v, rem2, pos2)) => {
                proof {
                    lemma_field_cost(ftype, input@, pos as int, rem, id@, size, i as int, text_len);
                }
                let used = rem - rem2;
                if used > global {
                    return Err(ParseError::BudgetExceeded);
                }
                let key = make_key(prefix, name);
                let next_len = match &v {
                    ParsedValue::U32(x) => *x,
                    _ => text_len,
                };
                assert(next_len == next_text_len(v@, text_len));
                let ghost entry = (key@, v@);
                store.insert(key, v);
                proof {
                    let rest = spec_fields(
                        t,
                        input@,
                        i + 1,
                        pos2 as int,
                        rem2,
                        (global - used) as u32,
                        id@,
                        size,
                        prefix@,
                        next_len,
                    );
                    match rest {
                        Ok((es, p, r, g)) => {
                            assert(acc + (seq![entry] + es) =~= acc.push(entry) + es);
                        },
                        Err(e) => {},
                    }
                    acc = acc.push(entry);
                    assert(store@ =~= old(store)@ + acc);
                }
                i = i + 1;
                pos = pos2;
                rem = rem2;
                global = global - used;
                text_len = next_len;
            },
        }
    }
    assert(acc + Seq::<(Seq<char>, FieldValue)>::empty() =~= acc);
    Ok((pos, rem, global))
}

/// Decodes the body of a chunk of `kind` whose header (`id`, `size`) was read,
/// and its pad byte where `size` is odd. Returns the position after it and
/// the container budget left.
fn read_chunk(
    kind: ChunkKind,
    input: &[u8],
    pos: usize,
    global: u32,
    id: [u8; 4],
    size: u32,
    prefix: &String,
    store: &mut FieldStore,
) -> (r: Result<(usize, u32), ParseError>)
    requires
        pos <= input@.len(),
    ensures
        match (r, spec_chunk(kind, input@, pos as int, global, id@, size, prefix@)) {
            (Ok((p, g)), Ok((es, sp, sg))) => p == sp && g == sg && final(store)@ == old(store)@
                + es,
            (Err(e), Err(se)) => e == se,
            _ => false,
        },
{
    let (p, rem, g) = read_chunk_fields(kind, input, pos, global, id, size, prefix, store)?;
    if rem != 0 {
        return Err(ParseError::UnconsumedChunkBytes);
    }
    if size % 2 == 1 {
        if p >= input.len() {
            return Err(ParseError::TruncatedInput);
        }
        if g == 0 {
            return Err(ParseError::BudgetExceeded);
        }
        return Ok((p + 1, g - 1));
    }
    Ok((p, g))
}

/// Whether `tag` holds the bytes `a b c d`.
fn tag_is(tag: [u8; 4], a: u8, b: u8, c: u8, d: u8) -> (r: bool)
    ensures
        r == (tag@ == seq![a, b, c, d]),
{
    let r = tag[0] == a && tag[1] == b && tag[2] == c && tag[3] == d;
    if r {
        assert(tag@ =~= seq![a, b, c, d]);
    } else {
        assert(tag@ != seq![a, b, c, d]) by {
            if tag@ == seq![a, b, c, d] {
                assert(tag@[0] == tag[0] && tag@[1] == tag[1] && tag@[2] == tag[2] && tag@[3] == tag[3]);
            }
        }
    }
    r
}

/// The four bytes of `input` at `p`.
fn read_tag(input: &[u8], p: usize) -> (r: [u8; 4])
    requires
        p + 4 <= input@.len(),
    ensures
        r@ == input@.subrange(p as int, p + 4),
{
    let r = [input[p], input[p + 1], input[p + 2], input[p + 3]];
    assert(r@ =~= input@.subrange(p as int, p + 4));
    r
}

/// Parses a RIFF/WAVE container held in `input` into a store of its fields.
///
/// The container header (tag, size, sub-format tag) comes first; its size
/// is the budget of everything after the size field, the sub-format tag
/// included. Then chunk after chunk is decoded by its field table until the
/// budget is used up. The parse succeeds only where the tags are `RIFF` and
/// `WAVE`; bytes after the container are not read.
pub fn parse_wav(input: &[u8]) -> (r: Result<FieldStore, ParseError>)
    ensures
        match r {
            Ok(store) => spec_parse(input@) == Ok::<Entries, ParseError>(store@),
            Err(e) => spec_parse(input@) == Err::<Entries, ParseError>(e),
        },
{
    if input.len() < 12 {
        return Err(ParseError::TruncatedInput);
    }
    let ghost h = input@.subrange(0, 12);
    let riff_id = read_tag(input, 0);
    let riff_size = read_u32_le(input, 4);
    let wave_id = read_tag(input, 8);
    assert(riff_id@ =~= h.subrange(0, 4));
    assert(wave_id@ =~= h.subrange(8, 12));
    assert(le_u32(h, 4) == le_u32(input@, 4));
    if riff_size < 4 {
        return Err(ParseError::BudgetExceeded);
    }
    let header = String::from_str("header");
    let mut store = FieldStore::new();
    store.insert(make_key(&header, "riff_id"), ParsedValue::Bytes4(riff_id));
    store.insert(make_key(&header, "riff_size"), ParsedValue::U32(riff_size));
    store.insert(make_key(&header, "wave_id"), ParsedValue::Bytes4(wave_id));
    assert(store@ =~= header_entries(h) + Seq::<(Seq<char>, FieldValue)>::empty());

    let g0: u32 = riff_size - 4;
    let ghost whole = spec_walk(input@, 12, g0, 0);
    let ghost acc: Entries = Seq::empty();
    assert(take(input@, 0, 12) == Some(h));
    assert(spec_container(input@) == finish(h, whole));
    let mut global: u32 = g0;
    let mut pos: usize = 12;
    let mut n_unknown: usize = 0;
    assert(whole == after_walk(acc, whole)) by {
        match whole {
            Ok((es, end)) => assert(acc + es =~= es),
            Err(e) => {},
        }
    }
    while global > 0
        invariant
            pos <= input@.len(),
            n_unknown * 8 <= pos,
            store@ == header_entries(h) + acc,
            whole == spec_walk(input@, 12, g0, 0),
            take(input@, 0, 12) == Some(h),
            spec_container(input@) == finish(h, whole),
            whole == after_walk(acc, spec_walk(input@, pos as int, global, n_unknown as nat)),
        decreases global,
    {
        if input.len() - pos < 8 {
            return Err(ParseError::TruncatedInput);
        }
        if global < 8 {
            return Err(ParseError::BudgetExceeded);
        }
        let ghost hd = input@.subrange(pos as int, pos + 8);
        assert(take(input@, pos as int, 8) == Some(hd));
        let id = read_tag(input, pos);
        let size = read_u32_le(input, pos + 4);
        assert(id@ =~= hd.subrange(0, 4));
        assert(le_u32(hd, 4) == le_u32(input@, pos + 4));
        let kind = chunk_kind(id);
        let prefix = chunk_prefix(kind, n_unknown);
        let step = read_chunk(kind, input, pos + 8, global - 8, id, size, &prefix, &mut store);
        proof {
            lemma_walk_step(input@, pos as int, global, n_unknown as nat);
        }
        let (p, g) = match step {
            Err(e) => {
                return Err(e);
            },
            Ok(pg) => pg,
        };
        proof {
            let added = lemma_walk_step(input@, pos as int, global, n_unknown as nat);
            lemma_after_walk_assoc(acc, added, spec_walk(input@, p as int, g, next_unknown(kind, n_unknown as nat)));
            acc = acc + added;
            assert(store@ =~= header_entries(h) + acc);
        }
        pos = p;
        global = g;
        if kind == ChunkKind::Unknown {
            n_unknown = n_unknown + 1;
        }
    }
    assert(acc + Seq::<(Seq<char>, FieldValue)>::empty() =~= acc);
    if !(tag_is(riff_id, 82, 73, 70, 70) && tag_is(wave_id, 87, 65, 86, 69)) {
        return Err(ParseError::NotRiffWave);
    }
    Ok(store)
}

} // verus!
