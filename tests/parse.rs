use riffwave::{parse_wav, read_simple_field, FieldStore, FieldType, ParseError, ParsedValue};

fn le32(v: u32) -> [u8; 4] {
    v.to_le_bytes()
}

/// A container of the given chunks (each already framed with its header).
fn container(tag: &[u8; 4], sub: &[u8; 4], chunks: &[Vec<u8>]) -> Vec<u8> {
    let body: usize = chunks.iter().map(|c| c.len()).sum();
    let mut out = Vec::new();
    out.extend_from_slice(tag);
    out.extend_from_slice(&le32((body + 4) as u32));
    out.extend_from_slice(sub);
    for c in chunks {
        out.extend_from_slice(c);
    }
    out
}

fn chunk(tag: &[u8; 4], body: &[u8]) -> Vec<u8> {
    let mut out = Vec::new();
    out.extend_from_slice(tag);
    out.extend_from_slice(&le32(body.len() as u32));
    out.extend_from_slice(body);
    if body.len() % 2 == 1 {
        out.push(0);
    }
    out
}

fn fmt_body(channels: u16, rate: u32, bits: u16) -> Vec<u8> {
    let align = channels * bits / 8;
    let mut b = Vec::new();
    b.extend_from_slice(&1u16.to_le_bytes());
    b.extend_from_slice(&channels.to_le_bytes());
    b.extend_from_slice(&rate.to_le_bytes());
    b.extend_from_slice(&(rate * align as u32).to_le_bytes());
    b.extend_from_slice(&align.to_le_bytes());
    b.extend_from_slice(&bits.to_le_bytes());
    b
}

fn minimal_wav() -> Vec<u8> {
    container(b"RIFF", b"WAVE", &[chunk(b"fmt ", &fmt_body(1, 44100, 16)), chunk(b"data", &[])])
}

fn get<'a>(s: &'a FieldStore, k: &str) -> &'a ParsedValue {
    s.get(k).unwrap_or_else(|| panic!("missing {}", k))
}

#[test]
fn minimal_wav_parses() {
    let bytes = minimal_wav();
    assert_eq!(bytes.len(), 44);
    let s = parse_wav(&bytes).unwrap();
    assert_eq!(get(&s, "header.riff_id"), &ParsedValue::Bytes4(*b"RIFF"));
    assert_eq!(get(&s, "header.riff_size"), &ParsedValue::U32(36));
    assert_eq!(get(&s, "header.wave_id"), &ParsedValue::Bytes4(*b"WAVE"));
    assert_eq!(get(&s, "fmt.chunk_id"), &ParsedValue::Bytes4(*b"fmt "));
    assert_eq!(get(&s, "fmt.chunk_size"), &ParsedValue::U32(16));
    assert_eq!(get(&s, "fmt.audio_format"), &ParsedValue::U16(1));
    assert_eq!(get(&s, "fmt.sample_rate"), &ParsedValue::U32(44100));
    assert_eq!(get(&s, "fmt.byte_rate"), &ParsedValue::U32(88200));
    assert_eq!(get(&s, "fmt.num_channels"), &ParsedValue::U16(1));
    assert_eq!(get(&s, "fmt.block_align"), &ParsedValue::U16(2));
    assert_eq!(get(&s, "fmt.bits_per_sample"), &ParsedValue::U16(16));
    assert_eq!(get(&s, "fmt.extra_bytes"), &ParsedValue::Bytes(vec![]));
    assert_eq!(get(&s, "data.samples"), &ParsedValue::I16Vec(vec![]));
    assert_eq!(s.len(), 3 + 9 + 3);
}

#[test]
fn data_chunk_samples_decode() {
    let bytes = container(
        b"RIFF",
        b"WAVE",
        &[chunk(b"fmt ", &fmt_body(1, 8000, 16)), chunk(b"data", &[0x01, 0x00, 0x02, 0x00])],
    );
    let s = parse_wav(&bytes).unwrap();
    assert_eq!(get(&s, "data.chunk_size"), &ParsedValue::U32(4));
    assert_eq!(get(&s, "data.samples"), &ParsedValue::I16Vec(vec![1, 2]));
}

#[test]
fn negative_samples_decode() {
    let bytes = container(b"RIFF", b"WAVE", &[chunk(b"data", &[0xff, 0xff, 0x00, 0x80, 0xff, 0x7f])]);
    let s = parse_wav(&bytes).unwrap();
    assert_eq!(get(&s, "data.samples"), &ParsedValue::I16Vec(vec![-1, -32768, 32767]));
}

#[test]
fn removing_last_byte_truncates() {
    let bytes = minimal_wav();
    assert_eq!(parse_wav(&bytes[..bytes.len() - 1]).err(), Some(ParseError::TruncatedInput));
    let with_data = container(b"RIFF", b"WAVE", &[chunk(b"data", &[1, 0, 2, 0])]);
    assert_eq!(parse_wav(&with_data[..with_data.len() - 1]).err(), Some(ParseError::TruncatedInput));
    let padded = container(b"RIFF", b"WAVE", &[chunk(b"abcd", &[7, 8, 9])]);
    assert!(parse_wav(&padded).is_ok());
    assert_eq!(parse_wav(&padded[..padded.len() - 1]).err(), Some(ParseError::TruncatedInput));
}

#[test]
fn every_shorter_prefix_truncates() {
    let bytes = minimal_wav();
    for n in 0..bytes.len() {
        assert_eq!(parse_wav(&bytes[..n]).err(), Some(ParseError::TruncatedInput), "prefix {}", n);
    }
}

#[test]
fn bytes_after_container_are_ignored() {
    let mut bytes = minimal_wav();
    bytes.extend_from_slice(&[1, 2, 3]);
    let s = parse_wav(&bytes).unwrap();
    assert_eq!(get(&s, "fmt.sample_rate"), &ParsedValue::U32(44100));
}

#[test]
fn wrong_container_tag_is_not_riff_wave() {
    let bytes = container(b"RIFX", b"WAVE", &[chunk(b"fmt ", &fmt_body(1, 44100, 16))]);
    assert_eq!(parse_wav(&bytes).err(), Some(ParseError::NotRiffWave));
}

#[test]
fn wrong_sub_format_is_not_riff_wave() {
    let bytes = container(b"RIFF", b"AVI ", &[chunk(b"data", &[1, 0])]);
    assert_eq!(parse_wav(&bytes).err(), Some(ParseError::NotRiffWave));
}

#[test]
fn short_format_chunk_fails() {
    let bytes = container(b"RIFF", b"WAVE", &[chunk(b"fmt ", &fmt_body(1, 44100, 16)[..14])]);
    assert_eq!(parse_wav(&bytes).err(), Some(ParseError::TruncatedInput));
}

#[test]
fn odd_data_chunk_is_malformed() {
    let bytes = container(b"RIFF", b"WAVE", &[chunk(b"data", &[1, 0, 2])]);
    assert_eq!(parse_wav(&bytes).err(), Some(ParseError::MalformedPayload));
}

#[test]
fn format_extension_bytes_are_kept() {
    let mut body = fmt_body(2, 48000, 16);
    body.extend_from_slice(&[0, 0]);
    let bytes = container(b"RIFF", b"WAVE", &[chunk(b"fmt ", &body)]);
    let s = parse_wav(&bytes).unwrap();
    assert_eq!(get(&s, "fmt.chunk_size"), &ParsedValue::U32(18));
    assert_eq!(get(&s, "fmt.byte_rate"), &ParsedValue::U32(192000));
    assert_eq!(get(&s, "fmt.extra_bytes"), &ParsedValue::Bytes(vec![0, 0]));
}

#[test]
fn unknown_chunks_are_numbered() {
    let bytes = container(
        b"RIFF",
        b"WAVE",
        &[chunk(b"LIST", &[b'I', b'N', b'F', b'O']), chunk(b"junk", &[9, 8, 7]), chunk(b"data", &[])],
    );
    let s = parse_wav(&bytes).unwrap();
    assert_eq!(get(&s, "unknown0.chunk_id"), &ParsedValue::Bytes4(*b"LIST"));
    assert_eq!(get(&s, "unknown0.raw_payload"), &ParsedValue::Bytes(b"INFO".to_vec()));
    assert_eq!(get(&s, "unknown1.chunk_id"), &ParsedValue::Bytes4(*b"junk"));
    assert_eq!(get(&s, "unknown1.chunk_size"), &ParsedValue::U32(3));
    assert_eq!(get(&s, "unknown1.raw_payload"), &ParsedValue::Bytes(vec![9, 8, 7]));
    assert!(s.get("unknown2.chunk_id").is_none());
}

#[test]
fn many_unknown_chunks_get_decimal_ordinals() {
    let chunks: Vec<Vec<u8>> = (0..12).map(|i| chunk(b"zzzz", &[i as u8, 0])).collect();
    let bytes = container(b"RIFF", b"WAVE", &chunks);
    let s = parse_wav(&bytes).unwrap();
    assert_eq!(get(&s, "unknown11.raw_payload"), &ParsedValue::Bytes(vec![11, 0]));
    assert_eq!(get(&s, "unknown10.raw_payload"), &ParsedValue::Bytes(vec![10, 0]));
}

#[test]
fn odd_chunk_pad_byte_is_charged() {
    // A pad byte is charged: a container size one short of it leaves no budget.
    let mut bytes = container(b"RIFF", b"WAVE", &[chunk(b"abcd", &[5])]);
    assert!(parse_wav(&bytes).is_ok());
    let short = (bytes.len() - 9) as u32;
    bytes[4..8].copy_from_slice(&le32(short));
    assert_eq!(parse_wav(&bytes).err(), Some(ParseError::BudgetExceeded));
}

#[test]
fn chunk_header_beyond_budget_fails() {
    let mut bytes = container(b"RIFF", b"WAVE", &[chunk(b"data", &[])]);
    bytes[4..8].copy_from_slice(&le32(4 + 4));
    assert_eq!(parse_wav(&bytes).err(), Some(ParseError::BudgetExceeded));
}

#[test]
fn field_beyond_budget_fails() {
    let mut bytes = container(b"RIFF", b"WAVE", &[chunk(b"abcd", &[1, 2, 3, 4, 5, 6, 7, 8])]);
    bytes[4..8].copy_from_slice(&le32(4 + 8 + 4));
    assert_eq!(parse_wav(&bytes).err(), Some(ParseError::BudgetExceeded));
}

#[test]
fn container_size_below_sub_format_fails() {
    let mut bytes = minimal_wav();
    bytes[4..8].copy_from_slice(&le32(3));
    assert_eq!(parse_wav(&bytes).err(), Some(ParseError::BudgetExceeded));
}

#[test]
fn empty_container_has_only_header() {
    let bytes = container(b"RIFF", b"WAVE", &[]);
    let s = parse_wav(&bytes).unwrap();
    assert_eq!(s.len(), 3);
    assert_eq!(get(&s, "header.riff_size"), &ParsedValue::U32(4));
}

#[test]
fn header_fields_are_virtual() {
    let input = [9u8, 9, 9, 9];
    let r = read_simple_field(FieldType::FourCC, &input, 0, 10, *b"data", 10, 0, 0).unwrap();
    assert_eq!(r, (ParsedValue::Bytes4(*b"data"), 10, 0));
    let r = read_simple_field(FieldType::U32, &input, 0, 10, *b"data", 10, 1, 0).unwrap();
    assert_eq!(r, (ParsedValue::U32(10), 10, 0));
}

#[test]
fn primitive_fields_decode_little_endian() {
    let input = [0x34u8, 0x12, 0x78, 0x56, 0x34, 0x12];
    let r = read_simple_field(FieldType::U16, &input, 0, 6, *b"abcd", 6, 2, 0).unwrap();
    assert_eq!(r, (ParsedValue::U16(0x1234), 4, 2));
    let r = read_simple_field(FieldType::U32, &input, 2, 4, *b"abcd", 6, 3, 0).unwrap();
    assert_eq!(r, (ParsedValue::U32(0x12345678), 0, 6));
    let r = read_simple_field(FieldType::FourCC, &input, 1, 5, *b"abcd", 6, 2, 0).unwrap();
    assert_eq!(r, (ParsedValue::Bytes4([0x12, 0x78, 0x56, 0x34]), 1, 5));
}

#[test]
fn primitive_fields_respect_chunk_budget() {
    let input = [0u8; 8];
    let r = read_simple_field(FieldType::U32, &input, 0, 3, *b"abcd", 8, 2, 0);
    assert_eq!(r, Err(ParseError::TruncatedInput));
    let r = read_simple_field(FieldType::U16, &input, 7, 8, *b"abcd", 8, 2, 0);
    assert_eq!(r, Err(ParseError::TruncatedInput));
}

#[test]
fn blobs_take_the_whole_budget() {
    let input = [1u8, 2, 3, 4, 5];
    let r = read_simple_field(FieldType::ByteBlob, &input, 1, 3, *b"abcd", 3, 2, 0).unwrap();
    assert_eq!(r, (ParsedValue::Bytes(vec![2, 3, 4]), 0, 4));
    let r = read_simple_field(FieldType::SampleBlock, &input, 1, 4, *b"abcd", 4, 2, 0).unwrap();
    assert_eq!(r, (ParsedValue::I16Vec(vec![0x0302, 0x0504]), 0, 5));
    let r = read_simple_field(FieldType::SampleBlock, &input, 0, 3, *b"abcd", 3, 2, 0);
    assert_eq!(r, Err(ParseError::MalformedPayload));
    let r = read_simple_field(FieldType::ByteBlob, &input, 2, 4, *b"abcd", 4, 2, 0);
    assert_eq!(r, Err(ParseError::TruncatedInput));
}

#[test]
fn text_skips_its_pad_byte() {
    let input = *b"abc\0rest";
    let r = read_simple_field(FieldType::VariableLengthText, &input, 0, 8, *b"INAM", 8, 2, 3).unwrap();
    assert_eq!(r, (ParsedValue::Bytes(b"abc".to_vec()), 4, 4));
    let r = read_simple_field(FieldType::VariableLengthText, &input, 0, 8, *b"INAM", 8, 2, 4).unwrap();
    assert_eq!(r, (ParsedValue::Bytes(b"abc\0".to_vec()), 4, 4));
    let r = read_simple_field(FieldType::VariableLengthText, &input, 0, 3, *b"INAM", 8, 2, 3);
    assert_eq!(r, Err(ParseError::TruncatedInput));
}

#[test]
fn store_lookup_takes_last_write() {
    let mut s = FieldStore::new();
    assert!(s.get("a.b").is_none());
    s.insert("a.b".to_string(), ParsedValue::U16(1));
    s.insert("a.c".to_string(), ParsedValue::U16(2));
    s.insert("a.b".to_string(), ParsedValue::U16(3));
    assert_eq!(s.get("a.b"), Some(&ParsedValue::U16(3)));
    assert_eq!(s.get("a.c"), Some(&ParsedValue::U16(2)));
    assert_eq!(s.len(), 3);
}
