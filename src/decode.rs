use vstd::prelude::*;

use crate::value::{
    le_i16, le_u16, le_u32, read_i16_le, read_u16_le, read_u32_le, samples_of, FieldType,
    FieldValue, ParseError, ParsedValue,
};

verus! {

/// The `n` bytes of `s` from `p` on, or `None` where `s` ends before.
pub open spec fn take(s: Seq<u8>, p: int, n: int) -> Option<Seq<u8>> {
    if 0 <= p && 0 <= n && p + n <= s.len() {
        Some(s.subrange(p, p + n))
    } else {
        None
    }
}

/// What decoding one field yields: its value, the chunk budget left after
/// it and the position after it.
///
/// The first two fields of every table (a four-byte tag at index 0, a `u32`
/// at index 1) are the chunk's tag and size, already read with the chunk
/// header: they cost nothing.
pub open spec fn spec_read_field(
    ftype: FieldType,
    input: Seq<u8>,
    pos: int,
    budget: u32,
    chunk_id: Seq<u8>,
    chunk_size: u32,
    field_idx: int,
    text_len: u32,
) -> Result<(FieldValue, u32, int), ParseError> {
    if field_idx == 0 && ftype == FieldType::FourCC {
        Ok((FieldValue::Bytes4(chunk_id), budget, pos))
    } else if field_idx == 1 && ftype == FieldType::U32 {
        Ok((FieldValue::U32(chunk_size), budget, pos))
    } else {
        match ftype {
            FieldType::FourCC => if budget < 4 {
                Err(ParseError::TruncatedInput)
            } else {
                match take(input, pos, 4) {
                    None => Err(ParseError::TruncatedInput),
                    Some(b) => Ok((FieldValue::Bytes4(b), (budget - 4) as u32, pos + 4)),
                }
            },
            FieldType::U16 => if budget < 2 {
                Err(ParseError::TruncatedInput)
            } else {
                match take(input, pos, 2) {
                    None => Err(ParseError::TruncatedInput),
                    Some(b) => Ok(
                        (FieldValue::U16(le_u16(b[0], b[1]) as u16), (budget - 2) as u32, pos + 2),
                    ),
                }
            },
            FieldType::U32 => if budget < 4 {
                Err(ParseError::TruncatedInput)
            } else {
                match take(input, pos, 4) {
                    None => Err(ParseError::TruncatedInput),
                    Some(b) => Ok(
                        (FieldValue::U32(le_u32(b, 0) as u32), (budget - 4) as u32, pos + 4),
                    ),
                }
            },
            FieldType::ByteBlob => match take(input, pos, budget as int) {
                None => Err(ParseError::TruncatedInput),
                Some(b) => Ok((FieldValue::Bytes(b), 0u32, pos + budget)),
            },
            FieldType::SampleBlock => if budget % 2 == 1 {
                Err(ParseError::MalformedPayload)
            } else {
                match take(input, pos, budget as int) {
                    None => Err(ParseError::TruncatedInput),
                    Some(b) => Ok((FieldValue::I16Vec(samples_of(b)), 0u32, pos + budget)),
                }
            },
            FieldType::VariableLengthText => {
                let cost = text_len + text_len % 2;
                if budget < cost {
                    Err(ParseError::TruncatedInput)
                } else {
                    match take(input, pos, cost) {
                        None => Err(ParseError::TruncatedInput),
                        Some(b) => Ok(
                            (
                                FieldValue::Bytes(b.subrange(0, text_len as int)),
                                (budget - cost) as u32,
                                pos + cost,
                            ),
                        ),
                    }
                }
            },
        }
    }
}

/// An executable result agrees with its model.
pub open spec fn field_result_is(
    r: Result<(ParsedValue, u32, usize), ParseError>,
    s: Result<(FieldValue, u32, int), ParseError>,
) -> bool {
    match (r, s) {
        (Ok((v, b, p)), Ok((sv, sb, sp))) => v@ == sv && b == sb && p as int == sp,
        (Err(e), Err(se)) => e == se,
        _ => false,
    }
}

/// Copies the `n` bytes of `input` from `start` on.
fn copy_bytes(input: &[u8], start: usize, n: usize) -> (r: Vec<u8>)
    requires
        start + n <= input@.len(),
    ensures
        r@ == input@.subrange(start as int, start + n),
{
    let len = input.len();
    let mut out: Vec<u8> = Vec::new();
    let mut i: usize = 0;
    while i < n
        invariant
            i <= n,
            len == input@.len(),
            start + n <= input@.len(),
            out@ == input@.subrange(start as int, start + i),
        decreases n - i,
    {
        out.push(input[start + i]);
        i = i + 1;
        assert(out@ =~= input@.subrange(start as int, start + i));
    }
    out
}

/// Decodes the `n / 2` little-endian samples of `input` from `start` on.
fn decode_samples(input: &[u8], start: usize, n: usize) -> (r: Vec<i16>)
    requires
        start + n <= input@.len(),
        n % 2 == 0,
    ensures
        r@ == samples_of(input@.subrange(start as int, start + n)),
{
    let ghost bytes = input@.subrange(start as int, start + n);
    let len = input.len();
    let mut out: Vec<i16> = Vec::new();
    let mut i: usize = 0;
    while i < n / 2
        invariant
            i <= n / 2,
            len == input@.len(),
            start + n <= input@.len(),
            n % 2 == 0,
            bytes == input@.subrange(start as int, start + n),
            out@ =~= samples_of(bytes).subrange(0, i as int),
        decreases n / 2 - i,
    {
        let s = read_i16_le(input, start + 2 * i);
        proof {
            assert(input@[start + 2 * i] == bytes[2 * i]);
            assert(input@[start + 2 * i + 1] == bytes[2 * i + 1]);
        }
        out.push(s);
        i = i + 1;
        assert(out@ =~= samples_of(bytes).subrange(0, i as int));
    }
    out
}

/// Decodes one field of type `ftype` at `pos`, with `remaining_in_chunk`
/// bytes left in the current chunk body.
///
/// Returns the value, the chunk budget left after it and the position after
/// it. `text_len` is the length that an earlier size field declared; only a
/// `VariableLengthText` field reads it.
pub fn read_simple_field(
    ftype: FieldType,
    input: &[u8],
    pos: usize,
    remaining_in_chunk: u32,
    chunk_id_already: [u8; 4],
    chunk_size_already: u32,
    field_idx: usize,
    text_len: u32,
) -> (r: Result<(ParsedValue, u32, usize), ParseError>)
    requires
        pos <= input@.len(),
    ensures
        field_result_is(
            r,
            spec_read_field(
                ftype,
                input@,
                pos as int,
                remaining_in_chunk,
                chunk_id_already@,
                chunk_size_already,
                field_idx as int,
                text_len,
            ),
        ),
{
    if field_idx == 0 && ftype == FieldType::FourCC {
        return Ok((ParsedValue::Bytes4(chunk_id_already), remaining_in_chunk, pos));
    }
    if field_idx == 1 && ftype == FieldType::U32 {
        return Ok((ParsedValue::U32(chunk_size_already), remaining_in_chunk, pos));
    }
    let avail = input.len() - pos;
    match ftype {
        FieldType::FourCC => {
            if remaining_in_chunk < 4 || avail < 4 {
                return Err(ParseError::TruncatedInput);
            }
            let b = [input[pos], input[pos + 1], input[pos + 2], input[pos + 3]];
            assert(b@ =~= input@.subrange(pos as int, pos + 4));
            Ok((ParsedValue::Bytes4(b), remaining_in_chunk - 4, pos + 4))
        },
        FieldType::U16 => {
            if remaining_in_chunk < 2 || avail < 2 {
                return Err(ParseError::TruncatedInput);
            }
            let v = read_u16_le(input, pos);
            Ok((ParsedValue::U16(v), remaining_in_chunk - 2, pos + 2))
        },
        FieldType::U32 => {
            if remaining_in_chunk < 4 || avail < 4 {
                return Err(ParseError::TruncatedInput);
            }
            let v = read_u32_le(input, pos);
            Ok((ParsedValue::U32(v), remaining_in_chunk - 4, pos + 4))
        },
        FieldType::ByteBlob => {
            let n = remaining_in_chunk as usize;
            if avail < n {
                return Err(ParseError::TruncatedInput);
            }
            Ok((ParsedValue::Bytes(copy_bytes(input, pos, n)), 0, pos + n))
        },
        FieldType::SampleBlock => {
            if remaining_in_chunk % 2 == 1 {
                return Err(ParseError::MalformedPayload);
            }
            let n = remaining_in_chunk as usize;
            if avail < n {
                return Err(ParseError::TruncatedInput);
            }
            Ok((ParsedValue::I16Vec(decode_samples(input, pos, n)), 0, pos + n))
        },
        FieldType::VariableLengthText => {
            let cost: u64 = text_len as u64 + (text_len % 2) as u64;
            if (remaining_in_chunk as u64) < cost || (avail as u64) < cost {
                return Err(ParseError::TruncatedInput);
            }
            let bytes = copy_bytes(input, pos, text_len as usize);
            assert(bytes@ =~= input@.subrange(pos as int, pos + cost).subrange(
                0,
                text_len as int,
            ));
            Ok((ParsedValue::Bytes(bytes), remaining_in_chunk - cost as u32, pos + cost as usize))
        },
    }
}

} // verus!
