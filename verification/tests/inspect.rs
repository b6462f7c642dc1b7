use linc::contract::{Architecture, Endian};
use linc::native::inspect::{admit_member_facts, TargetFacts};
use linc::native::inspect::{
    admit_archive_member, admit_read, admit_stated_size, c_string, read_u16, read_u32, read_u64, slice_at, InspectionLimits,
    NativeInspector,
};
use linc::native::error::NativeError;
use linc::contract::model::ArtifactKind;
use linc::symbols::ObjectKindTag;

#[test]
fn bounded_string_parser_rejects_missing_nul_empty_and_oversized_values() {
    assert_eq!(c_string(b"abc\0tail", 0, 3), Some(&b"abc"[..]));
    assert_eq!(c_string(b"abc", 0, 3), None);
    assert_eq!(c_string(b"\0", 0, 3), None);
    assert_eq!(c_string(b"abcd\0", 0, 3), None);
    assert_eq!(c_string(b"abc\0", usize::MAX, 3), None);
}

#[test]
fn bounded_integer_parser_rejects_every_truncation_boundary() {
    for length in 0..8 {
        let bytes = vec![0_u8; length];
        assert!(read_u64(&bytes, 0, Endian::Little).is_err());
    }
    assert_eq!(read_u64(&[1, 0, 0, 0, 0, 0, 0, 0], 0, Endian::Little).unwrap(), 1);
}

#[test]
fn integers_read_in_both_byte_orders() {
    let bytes = [0x01, 0x02, 0x03, 0x04, 0x05, 0x06, 0x07, 0x08];
    assert_eq!(read_u16(&bytes, 0, Endian::Little).unwrap(), 0x0201);
    assert_eq!(read_u16(&bytes, 0, Endian::Big).unwrap(), 0x0102);
    assert_eq!(read_u32(&bytes, 4, Endian::Little).unwrap(), 0x0807_0605);
    assert_eq!(read_u32(&bytes, 4, Endian::Big).unwrap(), 0x0506_0708);
    assert_eq!(read_u64(&bytes, 0, Endian::Big).unwrap(), 0x0102_0304_0506_0708);
    assert!(read_u32(&bytes, 5, Endian::Little).is_err());
    assert!(read_u16(&bytes, usize::MAX, Endian::Little).is_err());
}

#[test]
fn slices_stay_inside_the_data() {
    let data = b"abcdef";
    assert_eq!(slice_at(data, 2, 3), Some(&b"cde"[..]));
    assert_eq!(slice_at(data, 4, 3), None);
    assert_eq!(slice_at(data, usize::MAX, 2), None);
    assert_eq!(slice_at(data, 6, 0), Some(&b""[..]));
}

#[test]
fn c_strings_at_an_offset_and_at_the_limit() {
    assert_eq!(c_string(b"\0abc\0", 1, 3), Some(&b"abc"[..]));
    assert_eq!(c_string(b"\0abc\0", 1, 2), None);
    assert_eq!(c_string(b"abc\0", 4, 3), None);
}

#[test]
fn inspection_limits_must_be_nonzero() {
    let limits = InspectionLimits::default();
    assert_eq!(limits.max_artifact_bytes, 536_870_912);
    assert_eq!(limits.max_symbols, 1_000_000);
    let inspector = NativeInspector::new(limits).unwrap();
    assert_eq!(inspector.limits(), limits);
    let zero = InspectionLimits { max_dependencies: 0, ..limits };
    assert!(NativeInspector::new(zero).is_err());
    assert_eq!(NativeInspector::with_default_limits().limits(), InspectionLimits::default_limits());
}

#[test]
fn refused_reads_name_the_in_memory_path_and_their_width() {
    let bytes = [0_u8; 3];
    for (result, expected) in [
        (read_u16(&bytes, 2, Endian::Little).map(u64::from), "bounded ELF u16 read failed"),
        (read_u32(&bytes, 0, Endian::Big).map(u64::from), "bounded ELF u32 read failed"),
        (read_u64(&bytes, 0, Endian::Little), "bounded ELF u64 read failed"),
    ] {
        match result {
            Err(NativeError::CorruptArtifact { path, detail }) => {
                assert_eq!(path, b"<memory>".to_vec());
                assert_eq!(detail, expected);
            }
            other => panic!("unexpected {:?}", other),
        }
    }
}

#[test]
fn artifact_sizes_are_admitted_within_the_limit() {
    let mut limits = InspectionLimits::default_limits();
    limits.max_artifact_bytes = 10;
    assert!(admit_stated_size(b"/a", 10, limits).is_ok());
    assert_eq!(admit_stated_size(b"/a", 11, limits), Err(NativeError::ArtifactTooLarge { path: b"/a".to_vec(), limit: 10 }));
    assert_eq!(admit_read(b"/a", 11, 11, limits), Err(NativeError::ArtifactTooLarge { path: b"/a".to_vec(), limit: 10 }));
    assert_eq!(admit_read(b"/a", 0, 0, limits), Err(NativeError::EmptyArtifact { path: b"/a".to_vec() }));
    assert_eq!(
        admit_read(b"/a", 5, 4, limits),
        Err(NativeError::CorruptArtifact { path: b"/a".to_vec(), detail: "artifact size changed during inspection".to_owned() })
    );
    assert!(admit_read(b"/a", 4, 4, limits).is_ok());
}

#[test]
fn archive_members_are_counted_named_and_numbered() {
    let mut limits = InspectionLimits::default_limits();
    limits.max_archive_members = 2;
    limits.max_name_bytes = 4;
    assert_eq!(admit_archive_member(b"/l.a", 0, b"a.o", limits), Ok((1, 0)));
    assert_eq!(admit_archive_member(b"/l.a", 1, b"b.o", limits), Ok((2, 2)));
    assert_eq!(
        admit_archive_member(b"/l.a", 2, b"c.o", limits),
        Err(NativeError::CorruptArtifact { path: b"/l.a".to_vec(), detail: "archive exceeds 2 members".to_owned() })
    );
    let refused = Err(NativeError::CorruptArtifact {
        path: b"/l.a".to_vec(),
        detail: "archive member name is invalid or oversized".to_owned(),
    });
    assert_eq!(admit_archive_member(b"/l.a", 0, b"long.o", limits), refused);
    assert_eq!(admit_archive_member(b"/l.a", 0, b"a\0o", limits), refused);
}

fn record(index: u64, name: &str, size: u64) -> linc::contract::model::SymbolRecord {
    linc::contract::model::SymbolRecord::try_new(linc::contract::model::SymbolRecordInput {
        id: linc::contract::model::ArtifactSymbolId::new(0, index),
        name: name.to_owned(),
        raw_name: name.as_bytes().to_vec(),
        version: None,
        direction: linc::contract::model::SymbolDirection::Exported,
        kind: linc::contract::model::SymbolKind::Function,
        binding: linc::contract::model::SymbolBinding::Global,
        visibility: linc::contract::model::SymbolVisibility::Default,
        decoration: linc::contract::model::SymbolDecoration::Undecorated,
        size,
        address: Some(0x1000),
        section: None,
        archive_member: None,
    })
    .unwrap()
}

#[test]
fn regular_symbols_that_repeat_a_dynamic_symbol_are_dropped() {
    let dynamic = vec![record(1, "f", 8)];
    assert!(!linc::native::inspect::admit_static_symbol(&dynamic, &record(7, "f", 8)));
    assert!(linc::native::inspect::admit_static_symbol(&dynamic, &record(7, "f", 16)));
    assert!(linc::native::inspect::admit_static_symbol(&dynamic, &record(7, "g", 8)));
    assert!(linc::native::inspect::admit_static_symbol(&[], &record(7, "f", 8)));
}

#[test]
fn providers_are_archives_objects_or_dynamic_libraries() {
    let kind = linc::native::inspect::provider_kind;
    assert_eq!(kind(b"/a", true, ObjectKindTag::Unknown, ArtifactKind::StaticLibrary), Ok(ArtifactKind::StaticLibrary));
    assert_eq!(kind(b"/a", false, ObjectKindTag::Relocatable, ArtifactKind::Object), Ok(ArtifactKind::Object));
    assert_eq!(kind(b"/a", false, ObjectKindTag::Dynamic, ArtifactKind::DynamicLibrary), Ok(ArtifactKind::DynamicLibrary));
    assert_eq!(
        kind(b"/a", false, ObjectKindTag::Executable, ArtifactKind::DynamicLibrary),
        Err(NativeError::UnsupportedArtifact {
            path: b"/a".to_vec(),
            detail: "ELF object kind Executable is not a link provider".to_owned()
        })
    );
    assert_eq!(
        kind(b"/a", false, ObjectKindTag::Dynamic, ArtifactKind::Object),
        Err(NativeError::ArtifactKindMismatch { path: b"/a".to_vec(), expected: "object", observed: "dynamic_library" })
    );
}

#[test]
fn archive_members_must_be_relocatable_and_agree_on_the_target() {
    let x86 = TargetFacts { architecture: Architecture::X86_64, endian: Endian::Little, pointer_width: 64 };
    let arm = TargetFacts { architecture: Architecture::Aarch64, endian: Endian::Little, pointer_width: 64 };
    assert_eq!(admit_member_facts(b"/l.a", None, x86, ObjectKindTag::Relocatable), Ok(x86));
    assert_eq!(admit_member_facts(b"/l.a", Some(x86), x86, ObjectKindTag::Relocatable), Ok(x86));
    assert_eq!(
        admit_member_facts(b"/l.a", Some(x86), arm, ObjectKindTag::Relocatable),
        Err(NativeError::TargetMismatch {
            path: b"/l.a".to_vec(),
            requested: "ELF/X86_64/64-bit/Little".to_owned(),
            observed: "ELF/Aarch64/64-bit/Little".to_owned()
        })
    );
    assert_eq!(
        admit_member_facts(b"/l.a", None, x86, ObjectKindTag::Dynamic),
        Err(NativeError::UnsupportedArtifact {
            path: b"/l.a".to_vec(),
            detail: "static archives may contain only relocatable ELF members".to_owned()
        })
    );
}
