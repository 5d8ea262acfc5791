use vstd::prelude::*;
use vstd::string::*;

use crate::value::FieldType;

verus! {

/// The kinds of chunk that follow the container header.
///
/// `LIST` chunks have no kind of their own: like every tag other than
/// `fmt ` and `data` they are kept as raw payload under an `unknown<n>` prefix.
#[derive(Clone, Copy, Debug, PartialEq, Eq, Structural)]
pub enum ChunkKind {
    Format,
    Data,
    Unknown,
}

/// The tag bytes `RIFF`.
pub open spec fn riff_tag() -> Seq<u8> {
    seq![82u8, 73u8, 70u8, 70u8]
}

/// The tag bytes `WAVE`.
pub open spec fn wave_tag() -> Seq<u8> {
    seq![87u8, 65u8, 86u8, 69u8]
}

/// The tag bytes `fmt `.
pub open spec fn fmt_tag() -> Seq<u8> {
    seq![102u8, 109u8, 116u8, 32u8]
}

/// The tag bytes `data`.
pub open spec fn data_tag() -> Seq<u8> {
    seq![100u8, 97u8, 116u8, 97u8]
}

/// The kind of a chunk, by exact comparison of its tag bytes.
pub open spec fn kind_of(tag: Seq<u8>) -> ChunkKind {
    if tag == fmt_tag() {
        ChunkKind::Format
    } else if tag == data_tag() {
        ChunkKind::Data
    } else {
        ChunkKind::Unknown
    }
}

/// The field table of each chunk kind, in decoding order. The first two
/// entries are the chunk's own tag and size.
pub open spec fn chunk_table(kind: ChunkKind) -> Seq<(Seq<char>, FieldType)> {
    match kind {
        ChunkKind::Format => seq![
            ("chunk_id"@, FieldType::FourCC),
            ("chunk_size"@, FieldType::U32),
            ("audio_format"@, FieldType::U16),
            ("num_channels"@, FieldType::U16),
            ("sample_rate"@, FieldType::U32),
            ("byte_rate"@, FieldType::U32),
            ("block_align"@, FieldType::U16),
            ("bits_per_sample"@, FieldType::U16),
            ("extra_bytes"@, FieldType::ByteBlob),
        ],
        ChunkKind::Data => seq![
            ("chunk_id"@, FieldType::FourCC),
            ("chunk_size"@, FieldType::U32),
            ("samples"@, FieldType::SampleBlock),
        ],
        ChunkKind::Unknown => seq![
            ("chunk_id"@, FieldType::FourCC),
            ("chunk_size"@, FieldType::U32),
            ("raw_payload"@, FieldType::ByteBlob),
        ],
    }
}

/// The text of one decimal digit.
pub open spec fn digit_text(d: nat) -> Seq<char> {
    if d == 0 {
        "0"@
    } else if d == 1 {
        "1"@
    } else if d == 2 {
        "2"@
    } else if d == 3 {
        "3"@
    } else if d == 4 {
        "4"@
    } else if d == 5 {
        "5"@
    } else if d == 6 {
        "6"@
    } else if d == 7 {
        "7"@
    } else if d == 8 {
        "8"@
    } else {
        "9"@
    }
}

/// The decimal text of `n`, without leading zeros.
pub open spec fn decimal(n: nat) -> Seq<char>
    decreases n,
{
    if n < 10 {
        digit_text(n)
    } else {
        decimal(n / 10) + digit_text(n % 10)
    }
}

/// The key prefix of the container header's fields.
pub open spec fn header_prefix() -> Seq<char> {
    "header"@
}

/// The key prefix of a chunk; `n_unknown` unknown chunks came before it.
pub open spec fn prefix_of(kind: ChunkKind, n_unknown: nat) -> Seq<char> {
    match kind {
        ChunkKind::Format => "fmt"@,
        ChunkKind::Data => "data"@,
        ChunkKind::Unknown => "unknown"@ + decimal(n_unknown),
    }
}

/// The store key of field `name` of the chunk with prefix `prefix`.
pub open spec fn field_key(prefix: Seq<char>, name: Seq<char>) -> Seq<char> {
    prefix + "."@ + name
}

/// The kind of the chunk tagged `tag`.
pub fn chunk_kind(tag: [u8; 4]) -> (r: ChunkKind)
    ensures
        r == kind_of(tag@),
{
    if tag[0] == 102 && tag[1] == 109 && tag[2] == 116 && tag[3] == 32 {
        assert(tag@ =~= fmt_tag());
        ChunkKind::Format
    } else if tag[0] == 100 && tag[1] == 97 && tag[2] == 116 && tag[3] == 97 {
        assert(tag@ =~= data_tag());
        ChunkKind::Data
    } else {
        assert(tag@ != fmt_tag() && tag@ != data_tag()) by {
            if tag@ == fmt_tag() || tag@ == data_tag() {
                assert(tag@[0] == tag[0] && tag@[1] == tag[1] && tag@[2] == tag[2] && tag@[3] == tag[3]);
            }
        }
        ChunkKind::Unknown
    }
}

/// The field table of `kind`.
pub fn field_table(kind: ChunkKind) -> (r: Vec<(&'static str, FieldType)>)
    ensures
        r@.map_values(|e: (&'static str, FieldType)| (e.0@, e.1)) == chunk_table(kind),
{
    let r = match kind {
        ChunkKind::Format => vec![
            ("chunk_id", FieldType::FourCC),
            ("chunk_size", FieldType::U32),
            ("audio_format", FieldType::U16),
            ("num_channels", FieldType::U16),
            ("sample_rate", FieldType::U32),
            ("byte_rate", FieldType::U32),
            ("block_align", FieldType::U16),
            ("bits_per_sample", FieldType::U16),
            ("extra_bytes", FieldType::ByteBlob),
        ],
        ChunkKind::Data => vec![
            ("chunk_id", FieldType::FourCC),
            ("chunk_size", FieldType::U32),
            ("samples", FieldType::SampleBlock),
        ],
        ChunkKind::Unknown => vec![
            ("chunk_id", FieldType::FourCC),
            ("chunk_size", FieldType::U32),
            ("raw_payload", FieldType::ByteBlob),
        ],
    };
    assert(r@.map_values(|e: (&'static str, FieldType)| (e.0@, e.1)) =~= chunk_table(kind));
    r
}

/// The text of the digit `d`.
fn digit_str(d: usize) -> (r: &'static str)
    requires
        d < 10,
    ensures
        r@ == digit_text(d as nat),
{
    if d == 0 {
        "0"
    } else if d == 1 {
        "1"
    } else if d == 2 {
        "2"
    } else if d == 3 {
        "3"
    } else if d == 4 {
        "4"
    } else if d == 5 {
        "5"
    } else if d == 6 {
        "6"
    } else if d == 7 {
        "7"
    } else if d == 8 {
        "8"
    } else {
        "9"
    }
}

/// Appends the decimal text of `n` to `s`.
fn push_decimal(s: &mut String, n: usize)
    ensures
        final(s)@ == old(s)@ + decimal(n as nat),
    decreases n,
{
    if n >= 10 {
        push_decimal(s, n / 10);
    }
    s.append(digit_str(n % 10));
    proof {
        if n >= 10 {
            assert(old(s)@ + decimal(n as nat) =~= old(s)@ + decimal((n / 10) as nat) + digit_text(
                (n % 10) as nat,
            ));
        }
    }
}

/// The key prefix of a chunk of `kind` after `n_unknown` unknown chunks.
pub fn chunk_prefix(kind: ChunkKind, n_unknown: usize) -> (r: String)
    ensures
        r@ == prefix_of(kind, n_unknown as nat),
{
    match kind {
        ChunkKind::Format => String::from_str("fmt"),
        ChunkKind::Data => String::from_str("data"),
        ChunkKind::Unknown => {
            let mut s = String::from_str("unknown");
            push_decimal(&mut s, n_unknown);
            s
        },
    }
}

/// The store key of field `name` under `prefix`.
pub fn make_key(prefix: &String, name: &str) -> (r: String)
    ensures
        r@ == field_key(prefix@, name@),
{
    let mut k = prefix.clone();
    k.append(".");
    k.append(name);
    k
}

} // verus!
