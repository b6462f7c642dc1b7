use linc::native::certify::{bitfield_offset, decimal, push_literal_bytes, push_u64, push_u64_expression, BlobReader};
use linc::native::NativeError;

#[test]
fn decimal_spellings() {
    assert_eq!(decimal(0), "0");
    assert_eq!(decimal(7), "7");
    assert_eq!(decimal(10), "10");
    assert_eq!(decimal(255), "255");
    assert_eq!(decimal(u64::MAX), "18446744073709551615");
}

#[test]
fn literal_bytes_and_u64_expressions() {
    let mut out = vec!["x".to_string()];
    push_literal_bytes(&mut out, &[0, 10, 255]);
    assert_eq!(out, vec!["x", "0", "10", "255"]);
    let mut out = Vec::new();
    push_u64(&mut out, 0x0102);
    assert_eq!(out, vec!["2", "1", "0", "0", "0", "0", "0", "0"]);
    let mut out = Vec::new();
    push_u64_expression(&mut out, "sizeof(T)".to_string());
    assert_eq!(out.len(), 8);
    assert_eq!(out[0], "(unsigned char)(((unsigned long long)(sizeof(T)) >> 0) & 255ULL)");
    assert_eq!(out[7], "(unsigned char)(((unsigned long long)(sizeof(T)) >> 56) & 255ULL)");
}

#[test]
fn bitfield_witness_bits_form_one_run() {
    assert_eq!(bitfield_offset(&[0b0001_1000, 0], 2, 16).unwrap(), 3);
    assert_eq!(bitfield_offset(&[0b1000_0000, 0b0000_0001], 2, 16).unwrap(), 7);
    assert!(matches!(bitfield_offset(&[0b0101_0000, 0], 2, 16), Err(NativeError::ProbeParserGap { .. })));
    assert!(matches!(bitfield_offset(&[0b0001_1000, 0], 3, 16), Err(NativeError::ProbeParserGap { .. })));
    assert!(matches!(bitfield_offset(&[0b0001_1000], 2, 16), Err(NativeError::ProbeParserGap { .. })));
    assert!(matches!(bitfield_offset(&[0, 0], 0, 16), Err(NativeError::ProbeParserGap { .. })));
}

#[test]
fn blob_reader_consumes_exactly() {
    let blob = [b'L', b'C', 5, 0, 0, 0, 0, 0, 0, 0, 1, 0, 0, 0, 1, 0, 0, 0];
    let mut reader = BlobReader::new(&blob);
    reader.expect_bytes(b"LC", "magic").unwrap();
    assert_eq!(reader.u64("size").unwrap(), 5);
    assert!(matches!(reader.u32_from_u64("align"), Err(NativeError::ProbeParserGap { .. })));
    let mut short = BlobReader::new(&blob[..4]);
    assert!(matches!(short.u64("size"), Err(NativeError::ProbeParserGap { detail }) if detail == "measurement blob is truncated at size"));
    let mut done = BlobReader::new(&blob[..2]);
    assert_eq!(done.take(2, "magic").unwrap(), b"LC");
    assert!(done.finish().is_ok());
    let mut wrong = BlobReader::new(&blob[..2]);
    assert!(wrong.expect_bytes(b"XX", "magic").is_err());
    assert!(BlobReader::new(&blob).finish().is_err());
}
