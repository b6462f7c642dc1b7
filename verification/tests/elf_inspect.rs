use linc::contract::model::{ArtifactKind, ProviderProvenance, ProviderResolution, TargetSpec};
use linc::contract::{Architecture, Endian, Environment, ObjectFormat, OperatingSystem, TargetFingerprint};
use linc::native::elf_inspect::{architecture_named, parse_archive, parse_elf};
use linc::native::error::NativeError;
use linc::native::inspect::{InspectionLimits, NativeInspector};
use linc::symbols::ObjectKindTag;

fn elf64_relocatable_header() -> Vec<u8> {
    let mut header = vec![0x7f, b'E', b'L', b'F', 2, 1, 1, 0];
    header.extend_from_slice(&[0; 8]);
    header.extend_from_slice(&1u16.to_le_bytes());
    header.extend_from_slice(&62u16.to_le_bytes());
    header.extend_from_slice(&1u32.to_le_bytes());
    header.extend_from_slice(&0u64.to_le_bytes());
    header.extend_from_slice(&0u64.to_le_bytes());
    header.extend_from_slice(&0u64.to_le_bytes());
    header.extend_from_slice(&0u32.to_le_bytes());
    header.extend_from_slice(&64u16.to_le_bytes());
    header.extend_from_slice(&0u16.to_le_bytes());
    header.extend_from_slice(&0u16.to_le_bytes());
    header.extend_from_slice(&64u16.to_le_bytes());
    header.extend_from_slice(&0u16.to_le_bytes());
    header.extend_from_slice(&0u16.to_le_bytes());
    header
}

fn archive_with(name: &str, data: &[u8]) -> Vec<u8> {
    let mut archive = b"!<arch>\n".to_vec();
    let mut header = format!("{:<16}{:<12}{:<6}{:<6}{:<8}{:<10}`\n", name, 0, 0, 0, 644, data.len()).into_bytes();
    archive.append(&mut header);
    archive.extend_from_slice(data);
    if data.len() % 2 == 1 {
        archive.push(b'\n');
    }
    archive
}

fn linux_spec() -> TargetSpec {
    TargetSpec {
        fingerprint: TargetFingerprint::from_bytes([3; 32]),
        triple: "x86_64-unknown-linux-gnu".to_owned(),
        architecture: Architecture::X86_64,
        operating_system: OperatingSystem::Linux,
        environment: Environment::Gnu,
        object_format: ObjectFormat::Elf,
        endian: Endian::Little,
        pointer_width: 64,
    }
}

fn inspector() -> NativeInspector {
    NativeInspector::new(InspectionLimits::default_limits()).unwrap()
}

#[test]
fn object_architecture_names_map_to_the_contract() {
    assert_eq!(architecture_named("X86_64"), Some(Architecture::X86_64));
    assert_eq!(architecture_named("I386"), Some(Architecture::X86));
    assert_eq!(architecture_named("Riscv64"), Some(Architecture::RiscV64));
    assert_eq!(architecture_named("Avr"), None);
}

#[test]
fn a_bare_elf_object_parses_to_its_header_facts() {
    let parsed = parse_elf(b"/lib/empty.o", &elf64_relocatable_header(), 0, None, InspectionLimits::default_limits())
        .expect("ELF header");
    assert_eq!(parsed.facts.architecture, Architecture::X86_64);
    assert_eq!(parsed.facts.endian, Endian::Little);
    assert_eq!(parsed.facts.pointer_width, 64);
    assert!(matches!(parsed.object_kind, ObjectKindTag::Relocatable));
    assert!(parsed.symbols.is_empty());
    assert!(parsed.dependencies.is_empty());
    assert!(parsed.soname.is_none());
    assert!(matches!(
        parse_elf(b"/lib/junk.o", b"not an object", 0, None, InspectionLimits::default_limits()),
        Err(NativeError::CorruptArtifact { .. })
    ));
}

#[test]
fn archives_need_an_elf_member() {
    let one = parse_archive(b"/lib/libone.a", &archive_with("empty.o/", &elf64_relocatable_header()), InspectionLimits::default_limits())
        .expect("archive with one object");
    assert!(matches!(one.object_kind, ObjectKindTag::Relocatable));
    assert!(one.symbols.is_empty());
    match parse_archive(b"/lib/libempty.a", b"!<arch>\n", InspectionLimits::default_limits()) {
        Err(NativeError::CorruptArtifact { path, detail }) => {
            assert_eq!(path, b"/lib/libempty.a".to_vec());
            assert_eq!(detail, "archive has no inspectable ELF members");
        }
        other => panic!("unexpected {other:?}"),
    }
    assert!(matches!(
        parse_archive(b"/lib/libjunk.a", &archive_with("junk.txt/", b"hello"), InspectionLimits::default_limits()),
        Err(NativeError::CorruptArtifact { .. })
    ));
}

#[test]
fn inspected_bytes_become_an_identified_provider() {
    let bytes = elf64_relocatable_header();
    let inspection = inspector()
        .inspect_bytes(
            b"/lib/empty.o".to_vec(),
            &bytes,
            Some(b"empty.o".to_vec()),
            ArtifactKind::Object,
            ProviderResolution::Explicit,
            ProviderProvenance::User,
            &linux_spec(),
        )
        .expect("a relocatable object is an object provider");
    assert_eq!(inspection.artifact().kind(), ArtifactKind::Object);
    assert_eq!(inspection.artifact().canonical_path(), b"/lib/empty.o");
    assert_eq!(inspection.artifact().artifact_fingerprint(), linc::contract::ArtifactFingerprint::from_content(&bytes));
    assert!(inspection.symbols().is_empty());

    assert!(matches!(
        inspector().inspect_bytes(
            b"/lib/empty.o".to_vec(),
            &bytes,
            None,
            ArtifactKind::DynamicLibrary,
            ProviderResolution::Explicit,
            ProviderProvenance::User,
            &linux_spec(),
        ),
        Err(NativeError::ArtifactKindMismatch { .. })
    ));

    let mut windows = linux_spec();
    windows.operating_system = OperatingSystem::Windows;
    match inspector().inspect_bytes(
        b"/lib/empty.o".to_vec(),
        &bytes,
        None,
        ArtifactKind::Object,
        ProviderResolution::Explicit,
        ProviderProvenance::User,
        &windows,
    ) {
        Err(NativeError::UnsupportedArtifact { path, detail }) => {
            assert_eq!(path, b"/lib/empty.o".to_vec());
            assert_eq!(detail, "the certified native-inspection tier requires Linux ELF");
        }
        other => panic!("unexpected {other:?}"),
    }
}
