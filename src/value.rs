use vstd::prelude::*;

verus! {

/// The primitive type of one field in a chunk's field table.
#[derive(Clone, Copy, Debug, PartialEq, Eq, Structural)]
pub enum FieldType {
    /// Four raw bytes.
    FourCC,
    /// A little-endian unsigned 16-bit integer.
    U16,
    /// A little-endian unsigned 32-bit integer.
    U32,
    /// Every byte left in the chunk body.
    ByteBlob,
    /// A run of bytes whose length was given by an earlier size field,
    /// followed by one pad byte when that length is odd.
    VariableLengthText,
    /// Every byte left in the chunk body, read as little-endian `i16` values.
    SampleBlock,
}

/// Why a parse was abandoned.
#[derive(Clone, Copy, Debug, PartialEq, Eq, Structural)]
pub enum ParseError {
    /// The input ended, or the chunk budget ran out, before a field's bytes.
    TruncatedInput,
    /// A field, a pad byte or a chunk header would overrun the container.
    BudgetExceeded,
    /// A chunk's field table ended before its declared size was used up.
    UnconsumedChunkBytes,
    /// A sample block of odd length.
    MalformedPayload,
    /// The container is not tagged `RIFF` / `WAVE`.
    NotRiffWave,
}

/// A decoded field value.
#[derive(Clone, Debug, PartialEq, Eq)]
pub enum ParsedValue {
    /// Four raw bytes (a tag).
    Bytes4([u8; 4]),
    U16(u16),
    U32(u32),
    /// A raw byte block.
    Bytes(Vec<u8>),
    /// Signed 16-bit samples.
    I16Vec(Vec<i16>),
}

/// The mathematical model of a [`ParsedValue`].
pub enum FieldValue {
    Bytes4(Seq<u8>),
    U16(u16),
    U32(u32),
    Bytes(Seq<u8>),
    I16Vec(Seq<i16>),
}

impl View for ParsedValue {
    type V = FieldValue;

    open spec fn view(&self) -> FieldValue {
        match self {
            ParsedValue::Bytes4(b) => FieldValue::Bytes4(b@),
            ParsedValue::U16(v) => FieldValue::U16(*v),
            ParsedValue::U32(v) => FieldValue::U32(*v),
            ParsedValue::Bytes(b) => FieldValue::Bytes(b@),
            ParsedValue::I16Vec(s) => FieldValue::I16Vec(s@),
        }
    }
}

/// The unsigned value of two little-endian bytes.
pub open spec fn le_u16(b0: u8, b1: u8) -> int {
    b0 as int + 256 * (b1 as int)
}

/// The unsigned value of the four little-endian bytes at `p`.
pub open spec fn le_u32(s: Seq<u8>, p: int) -> int {
    s[p] as int + 256 * (s[p + 1] as int) + 65536 * (s[p + 2] as int) + 16777216 * (s[p + 3] as int)
}

/// The two's-complement value of two little-endian bytes.
pub open spec fn le_i16(b0: u8, b1: u8) -> int {
    let v = le_u16(b0, b1);
    if v < 32768 {
        v
    } else {
        v - 65536
    }
}

/// The samples that a byte run of even length encodes, two bytes each.
pub open spec fn samples_of(bytes: Seq<u8>) -> Seq<i16> {
    Seq::new(bytes.len() / 2, |i: int| le_i16(bytes[2 * i], bytes[2 * i + 1]) as i16)
}

/// Decodes the little-endian `u16` at `p`.
pub fn read_u16_le(input: &[u8], p: usize) -> (r: u16)
    requires
        p + 2 <= input@.len(),
    ensures
        r as int == le_u16(input@[p as int], input@[p + 1]),
{
    let b0 = input[p] as u16;
    let b1 = input[p + 1] as u16;
    b0 + b1 * 256
}

/// Decodes the little-endian `u32` at `p`.
pub fn read_u32_le(input: &[u8], p: usize) -> (r: u32)
    requires
        p + 4 <= input@.len(),
    ensures
        r as int == le_u32(input@, p as int),
{
    let b0 = input[p] as u32;
    let b1 = input[p + 1] as u32;
    let b2 = input[p + 2] as u32;
    let b3 = input[p + 3] as u32;
    b0 + b1 * 256 + b2 * 65536 + b3 * 16777216
}

/// Decodes the little-endian `i16` at `p`.
pub fn read_i16_le(input: &[u8], p: usize) -> (r: i16)
    requires
        p + 2 <= input@.len(),
    ensures
        r as int == le_i16(input@[p as int], input@[p + 1]),
{
    let v = read_u16_le(input, p);
    if v < 32768 {
        v as i16
    } else {
        (v as i32 - 65536) as i16
    }
}

} // verus!
