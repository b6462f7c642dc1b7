use linc::contract::layout::Signedness;
use linc::contract::source::{ChildId, DeclarationId, SourceFingerprint, TargetFingerprint};
use linc::native::error::NativeError;
use linc::native::measure::{
    decode_blob, decode_measurements, extract_unique_symbol, EnumPlan, FieldPlan, MeasurementPlan, RawFieldMeasurement,
    RecordPlan,
};

fn plan() -> MeasurementPlan {
    MeasurementPlan {
        source_fingerprint: SourceFingerprint::from_bytes([1; 32]),
        target_fingerprint: TargetFingerprint::from_bytes([2; 32]),
        records: vec![RecordPlan {
            declaration: DeclarationId::from_bytes([3; 32]),
            fields: vec![FieldPlan { child: ChildId::from_bytes([4; 32]), bitfield_symbol: None }],
        }],
        enums: vec![EnumPlan { declaration: DeclarationId::from_bytes([5; 32]), variant_count: 2 }],
    }
}

fn blob() -> Vec<u8> {
    let mut b = b"LINCERT1".to_vec();
    b.extend_from_slice(&1u64.to_le_bytes());
    b.extend_from_slice(&[1; 32]);
    b.extend_from_slice(&[2; 32]);
    b.extend_from_slice(&2u64.to_le_bytes());
    b.extend_from_slice(&1u64.to_le_bytes());
    b.extend_from_slice(&[3; 32]);
    b.extend_from_slice(&64u64.to_le_bytes());
    b.extend_from_slice(&32u64.to_le_bytes());
    b.extend_from_slice(&1u64.to_le_bytes());
    b.extend_from_slice(&[4; 32]);
    b.extend_from_slice(&32u64.to_le_bytes());
    b.extend_from_slice(&32u64.to_le_bytes());
    b.extend_from_slice(&32u64.to_le_bytes());
    b.extend_from_slice(&2u64.to_le_bytes());
    b.extend_from_slice(&[5; 32]);
    b.extend_from_slice(&32u64.to_le_bytes());
    b.extend_from_slice(&32u64.to_le_bytes());
    b.extend_from_slice(&1u64.to_le_bytes());
    b.extend_from_slice(&2u64.to_le_bytes());
    b
}

#[test]
fn a_blob_decodes_against_its_plan() {
    let measured = decode_blob(&plan(), &blob(), &[]).expect("well-formed blob");
    assert_eq!(measured.records.len(), 1);
    assert_eq!(measured.records[0].size_bits, 64);
    assert_eq!(measured.records[0].alignment_bits, 32);
    assert_eq!(
        measured.records[0].fields,
        vec![RawFieldMeasurement { child: ChildId::from_bytes([4; 32]), offset_bits: 32, size_bits: 32, alignment_bits: 32 }]
    );
    assert_eq!(measured.enums.len(), 1);
    assert_eq!(measured.enums[0].storage_bits, 32);
    assert_eq!(measured.enums[0].signedness, Signedness::Signed);
}

#[test]
fn malformed_blobs_are_parser_gaps() {
    let mut magic = blob();
    magic[0] = b'X';
    assert!(matches!(decode_blob(&plan(), &magic, &[]), Err(NativeError::ProbeParserGap { .. })));
    let mut trailing = blob();
    trailing.push(0);
    assert!(matches!(decode_blob(&plan(), &trailing, &[]), Err(NativeError::ProbeParserGap { .. })));
    let mut outside = blob();
    let field_size_at = 8 + 8 + 32 + 32 + 8 + 8 + 32 + 8 + 8 + 8 + 32 + 8;
    outside[field_size_at..field_size_at + 8].copy_from_slice(&64u64.to_le_bytes());
    assert!(matches!(decode_blob(&plan(), &outside, &[]), Err(NativeError::ProbeParserGap { .. })));
    let mut sentinel = blob();
    let field_offset_at = field_size_at - 8;
    sentinel[field_offset_at..field_offset_at + 8].copy_from_slice(&u64::MAX.to_le_bytes());
    assert!(matches!(decode_blob(&plan(), &sentinel, &[]), Err(NativeError::ProbeParserGap { .. })));
    let truncated = &blob()[..100];
    assert!(matches!(decode_blob(&plan(), truncated, &[]), Err(NativeError::ProbeParserGap { .. })));
}

#[test]
fn measurement_objects_must_be_parseable_elf() {
    assert!(matches!(decode_measurements(&plan(), b"not an object"), Err(NativeError::ProbeParserGap { .. })));
    assert!(matches!(extract_unique_symbol(b"not an object", "linc_certification_blob_v1"), Err(NativeError::ProbeParserGap { .. })));
}
