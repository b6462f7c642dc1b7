use linc::contract::inventory::InspectionProvenance;
use linc::contract::model::{
    ArtifactKind, DependencyProvenance, SymbolBinding, SymbolDecoration, SymbolDirection, SymbolKind, SymbolVisibility,
    TargetSpec, InspectionParserIdentity, InspectionParserKind, InspectionToolIdentity,
    InspectionToolKind, ProviderProvenance, ProviderResolution, ResolvedArtifact, ResolvedArtifactInput,
};
use linc::contract::{
    Architecture, ArtifactFingerprint, ContentFingerprint, CrtFlavor, Endian, Environment, LinkerFlavor, NativeAbi,
    ObjectFormat, ObservedTarget, ObservedTargetParts, OperatingSystem, TargetFingerprint,
};
use linc::native::elf::{
    check_version_table, insert_version_name, parse_dynamic_table, parse_version_definitions,
    parse_version_requirements, symbol_versions,
};
use linc::native::error::NativeError;
use linc::native::elf::VersionInfo;
use linc::native::inspect::{
    native_abi, symbol_binding_visibility, symbol_record, target_from_facts, ArtifactInspection, InspectionLimits,
    NeededLibrary, RawSymbol, TargetFacts,
};

const STRINGS: &[u8] = b"\0libc.so.6\0VERS_1.0\0libfoo.so\0";
const LIBC: u32 = 1;
const VERS: u32 = 11;
const FOO: u32 = 20;

fn le16(v: u16) -> [u8; 2] {
    v.to_le_bytes()
}

fn le32(v: u32) -> [u8; 4] {
    v.to_le_bytes()
}

fn verdef(index: u16, name: u32, next: u32) -> Vec<u8> {
    let mut out = Vec::new();
    out.extend_from_slice(&le16(1));
    out.extend_from_slice(&le16(0));
    out.extend_from_slice(&le16(index));
    out.extend_from_slice(&le16(1));
    out.extend_from_slice(&le32(0));
    out.extend_from_slice(&le32(20));
    out.extend_from_slice(&le32(next));
    out.extend_from_slice(&le32(name));
    out.extend_from_slice(&le32(0));
    out
}

fn corrupt_detail(result: Result<(), NativeError>) -> String {
    match result {
        Err(NativeError::CorruptArtifact { detail, .. }) => detail,
        other => panic!("expected corrupt metadata, got {other:?}"),
    }
}

#[test]
fn version_definitions_record_their_names() {
    let data = verdef(2, VERS, 0);
    let mut names = Vec::new();
    parse_version_definitions(b"/lib/x.so", &data, STRINGS, Endian::Little, InspectionLimits::default_limits(), &mut names)
        .unwrap();
    assert_eq!(names, vec![(2, b"VERS_1.0".to_vec())]);

    let mut names = Vec::new();
    parse_version_definitions(b"/lib/x.so", &verdef(1, LIBC, 0), STRINGS, Endian::Little, InspectionLimits::default_limits(), &mut names)
        .unwrap();
    assert!(names.is_empty(), "the base definition names no version");
}

#[test]
fn version_definitions_refuse_truncation_and_conflicts() {
    let data = verdef(2, VERS, 0);
    let mut names = Vec::new();
    let result = parse_version_definitions(b"/lib/x.so", &data[..19], STRINGS, Endian::Little, InspectionLimits::default_limits(), &mut names);
    assert_eq!(corrupt_detail(result), "malformed ELF symbol-version metadata");

    let mut names = vec![(2, b"OTHER".to_vec())];
    let result = parse_version_definitions(b"/lib/x.so", &data, STRINGS, Endian::Little, InspectionLimits::default_limits(), &mut names);
    assert_eq!(corrupt_detail(result), "ELF version index 2 has conflicting names");

    let mut names = Vec::new();
    assert!(insert_version_name(b"/lib/x.so", &mut names, 3, b"A").is_ok());
    assert!(insert_version_name(b"/lib/x.so", &mut names, 3, b"A").is_ok());
    assert_eq!(names.len(), 1);
    assert_eq!(corrupt_detail(insert_version_name(b"/lib/x.so", &mut names, 3, b"B")), "ELF version index 3 has conflicting names");
}

#[test]
fn version_definitions_stop_at_the_dependency_limit() {
    let mut data = verdef(2, VERS, 28);
    data.extend_from_slice(&verdef(3, FOO, 0));
    let mut limits = InspectionLimits::default_limits();
    limits.max_dependencies = 1;
    let mut names = Vec::new();
    let result = parse_version_definitions(b"/lib/x.so", &data, STRINGS, Endian::Little, limits, &mut names);
    assert_eq!(corrupt_detail(result), "malformed ELF symbol-version metadata");
    let mut names = Vec::new();
    parse_version_definitions(b"/lib/x.so", &data, STRINGS, Endian::Little, InspectionLimits::default_limits(), &mut names)
        .unwrap();
    assert_eq!(names, vec![(2, b"VERS_1.0".to_vec()), (3, b"libfoo.so".to_vec())]);
}

#[test]
fn version_requirements_record_their_auxiliary_names() {
    let mut data = Vec::new();
    data.extend_from_slice(&le16(1));
    data.extend_from_slice(&le16(2));
    data.extend_from_slice(&le32(LIBC));
    data.extend_from_slice(&le32(16));
    data.extend_from_slice(&le32(0));
    for (index, name, next) in [(4_u16, VERS, 16_u32), (5, FOO, 0)] {
        data.extend_from_slice(&le32(0));
        data.extend_from_slice(&le16(0));
        data.extend_from_slice(&le16(index));
        data.extend_from_slice(&le32(name));
        data.extend_from_slice(&le32(next));
    }
    let mut names = Vec::new();
    parse_version_requirements(b"/lib/x.so", &data, STRINGS, Endian::Little, InspectionLimits::default_limits(), &mut names)
        .unwrap();
    assert_eq!(names, vec![(4, b"VERS_1.0".to_vec()), (5, b"libfoo.so".to_vec())]);

    let result = parse_version_requirements(b"/lib/x.so", &data[..40], STRINGS, Endian::Little, InspectionLimits::default_limits(), &mut Vec::new());
    assert_eq!(corrupt_detail(result), "malformed ELF symbol-version metadata");
}

#[test]
fn symbol_versions_follow_the_version_table() {
    let names = vec![(2, b"VERS_1.0".to_vec())];
    let mut versym = Vec::new();
    for raw in [0_u16, 1, 2, 0x8002] {
        versym.extend_from_slice(&le16(raw));
    }
    let versions = symbol_versions(b"/lib/x.so", &versym, Endian::Little, &names).unwrap();
    assert_eq!(versions.len(), 4);
    assert!(versions[0].is_none() && versions[1].is_none());
    let default = versions[2].as_ref().unwrap();
    assert_eq!(default.name, b"VERS_1.0".to_vec());
    assert!(default.is_default);
    assert!(!versions[3].as_ref().unwrap().is_default);

    let missing = le16(3).to_vec();
    match symbol_versions(b"/lib/x.so", &missing, Endian::Little, &names) {
        Err(NativeError::CorruptArtifact { path, detail }) => {
            assert_eq!(path, b"/lib/x.so".to_vec());
            assert_eq!(detail, "version index 3 has no definition");
        }
        other => panic!("expected a missing definition, got {other:?}"),
    }
}

#[test]
fn version_tables_cover_every_dynamic_symbol() {
    assert!(check_version_table(b"/lib/x.so", 6, 2).is_ok());
    assert_eq!(corrupt_detail(check_version_table(b"/lib/x.so", 5, 2)), "misaligned .gnu.version section");
    assert_eq!(
        corrupt_detail(check_version_table(b"/lib/x.so", 4, 2)),
        "ELF version table count differs from the dynamic symbol table"
    );
}

fn dynamic_entry(tag: u64, value: u64) -> Vec<u8> {
    let mut out = tag.to_le_bytes().to_vec();
    out.extend_from_slice(&value.to_le_bytes());
    out
}

fn dynamic_detail(result: Result<linc::native::elf::DynamicMetadata, NativeError>) -> String {
    match result {
        Err(NativeError::CorruptArtifact { detail, .. }) => detail,
        other => panic!("expected a corrupt dynamic table, got {other:?}"),
    }
}

#[test]
fn dynamic_tables_name_needed_libraries_and_the_soname() {
    let mut table = dynamic_entry(1, LIBC as u64);
    table.extend(dynamic_entry(7, 99));
    table.extend(dynamic_entry(14, FOO as u64));
    table.extend(dynamic_entry(0, 0));
    table.extend(dynamic_entry(1, VERS as u64));
    let metadata =
        parse_dynamic_table(b"/lib/x.so", &table, STRINGS, true, Endian::Little, InspectionLimits::default_limits()).unwrap();
    assert_eq!(metadata.dependencies.len(), 1, "entries after DT_NULL are ignored");
    assert_eq!(metadata.dependencies[0].name(), b"libc.so.6");
    assert_eq!(metadata.dependencies[0].provenance(), DependencyProvenance::DynamicTable);
    assert_eq!(metadata.soname, Some(b"libfoo.so".to_vec()));

    let mut narrow = Vec::new();
    narrow.extend_from_slice(&le32(1));
    narrow.extend_from_slice(&le32(LIBC));
    let metadata =
        parse_dynamic_table(b"/lib/x.so", &narrow, STRINGS, false, Endian::Little, InspectionLimits::default_limits()).unwrap();
    assert_eq!(metadata.dependencies[0].name(), b"libc.so.6");
    assert_eq!(metadata.soname, None);
}

#[test]
fn dynamic_tables_refuse_malformed_entries() {
    let limits = InspectionLimits::default_limits();
    assert_eq!(
        dynamic_detail(parse_dynamic_table(b"/lib/x.so", &[0; 15], STRINGS, true, Endian::Little, limits)),
        "misaligned ELF dynamic table"
    );
    assert_eq!(
        dynamic_detail(parse_dynamic_table(b"/lib/x.so", &dynamic_entry(1, 500), STRINGS, true, Endian::Little, limits)),
        "invalid DT_NEEDED string"
    );
    let mut twice = dynamic_entry(14, FOO as u64);
    twice.extend(dynamic_entry(14, LIBC as u64));
    assert_eq!(
        dynamic_detail(parse_dynamic_table(b"/lib/x.so", &twice, STRINGS, true, Endian::Little, limits)),
        "ELF contains multiple DT_SONAME entries"
    );
    let mut two = dynamic_entry(1, FOO as u64);
    two.extend(dynamic_entry(1, LIBC as u64));
    let mut one = limits;
    one.max_dependencies = 1;
    assert_eq!(
        dynamic_detail(parse_dynamic_table(b"/lib/x.so", &two, STRINGS, true, Endian::Little, one)),
        "ELF exceeds 1 dynamic dependencies"
    );
    let bad = b"\0\xff\xfe\0";
    assert_eq!(
        dynamic_detail(parse_dynamic_table(b"/lib/x.so", &dynamic_entry(1, 1), bad, true, Endian::Little, limits)),
        "DT_NEEDED name is not UTF-8"
    );
}

fn target() -> ObservedTarget {
    ObservedTarget::try_new(ObservedTargetParts {
        target_fingerprint: TargetFingerprint::from_bytes([7; 32]),
        architecture: Architecture::X86_64,
        operating_system: OperatingSystem::Linux,
        environment: Environment::Gnu,
        object_format: ObjectFormat::Elf,
        endian: Endian::Little,
        pointer_width: 64,
        abi: NativeAbi::SysV64,
        linker: LinkerFlavor::Gnu,
        crt: CrtFlavor::Glibc,
    })
    .unwrap()
}

fn inspection_of(dependencies: Vec<NeededLibrary>) -> ArtifactInspection {
    let artifact = ResolvedArtifact::try_new(ResolvedArtifactInput {
        artifact_fingerprint: ArtifactFingerprint::from_content(b"libx"),
        canonical_path: b"/lib/libx.so".to_vec(),
        kind: ArtifactKind::DynamicLibrary,
        resolution: ProviderResolution::Explicit,
        provenance: ProviderProvenance::User,
        observed_target: target(),
    })
    .unwrap();
    let fp = ContentFingerprint::from_bytes([5; 32]);
    let provenance = InspectionProvenance::try_new(
        InspectionToolIdentity::try_new(InspectionToolKind::ObjectCrate, "1".into(), fp).unwrap(),
        vec![InspectionParserIdentity::try_new(InspectionParserKind::Elf, "1".into(), fp).unwrap()],
    )
    .unwrap();
    ArtifactInspection::new(artifact, provenance, vec![], dependencies)
}

#[test]
fn inspections_answer_to_their_provided_names() {
    let mut inspection = inspection_of(vec![]);
    assert!(!inspection.provides(b"libx.so"));
    inspection.add_provided_name(Some(b"libx.so"));
    inspection.add_provided_name(Some(b"libx.so"));
    inspection.add_provided_name(None);
    assert!(inspection.provides(b"libx.so"));
    assert_eq!(inspection.provided_names().len(), 1);
}

#[test]
fn inventories_bind_each_needed_library() {
    let needed = vec![NeededLibrary::new(b"libc.so.6".to_vec(), DependencyProvenance::DynamicTable)];
    match inspection_of(needed.clone()).into_inventory(&[]) {
        Err(NativeError::InvalidPolicy { detail }) => {
            assert_eq!(detail, "dependency provider count 0 differs from inspected count 1")
        }
        other => panic!("expected a count mismatch, got {other:?}"),
    }
    let inventory = inspection_of(needed).into_inventory(&[None]).unwrap();
    assert_eq!(inventory.dependency_edges().len(), 1);
    assert_eq!(inventory.dependency_edges()[0].requested(), b"libc.so.6");
    assert_eq!(inventory.dependency_edges()[0].provider(), None);
}


fn linux_spec(os: OperatingSystem) -> TargetSpec {
    TargetSpec {
        fingerprint: TargetFingerprint::from_bytes([7; 32]),
        triple: "x86_64-unknown-linux-gnu".to_owned(),
        architecture: Architecture::X86_64,
        operating_system: os,
        environment: Environment::Gnu,
        object_format: ObjectFormat::Elf,
        endian: Endian::Little,
        pointer_width: 64,
    }
}

#[test]
fn native_abis_follow_architecture_width_and_system() {
    let linux = linux_spec(OperatingSystem::Linux);
    let windows = linux_spec(OperatingSystem::Windows);
    assert_eq!(native_abi(&linux, Architecture::X86_64, 64).unwrap(), NativeAbi::SysV64);
    assert_eq!(native_abi(&windows, Architecture::X86_64, 64).unwrap(), NativeAbi::Win64);
    assert_eq!(native_abi(&linux, Architecture::X86, 32).unwrap(), NativeAbi::SysV32);
    assert_eq!(native_abi(&linux, Architecture::Aarch64, 64).unwrap(), NativeAbi::Aapcs64);
    match native_abi(&linux, Architecture::X86_64, 32) {
        Err(NativeError::UnsupportedArtifact { path, detail }) => {
            assert_eq!(path, b"<target>".to_vec());
            assert_eq!(detail, "no certified native ABI for X86_64/32");
        }
        other => panic!("expected no ABI, got {other:?}"),
    }
    assert!(native_abi(&linux, Architecture::Sparc64, 64).is_err());
}

#[test]
fn observed_targets_take_linker_and_runtime_from_the_request() {
    let linux = linux_spec(OperatingSystem::Linux);
    let facts = TargetFacts { architecture: Architecture::X86_64, endian: Endian::Little, pointer_width: 64 };
    let observed = target_from_facts(&linux, facts).unwrap();
    assert_eq!(observed, target());
    assert_eq!(observed.linker(), LinkerFlavor::Gnu);
    assert_eq!(observed.crt(), CrtFlavor::Glibc);
}

#[test]
fn elf_flags_decide_binding_and_visibility() {
    assert_eq!(symbol_binding_visibility(Some((0x12, 0)), false), (SymbolBinding::Global, SymbolVisibility::Default));
    assert_eq!(symbol_binding_visibility(Some((0x22, 2)), false), (SymbolBinding::Weak, SymbolVisibility::Hidden));
    assert_eq!(symbol_binding_visibility(Some((0x02, 3)), false), (SymbolBinding::Local, SymbolVisibility::Protected));
    assert_eq!(symbol_binding_visibility(Some((0x12, 1)), false), (SymbolBinding::Global, SymbolVisibility::Internal));
    assert_eq!(symbol_binding_visibility(None, true), (SymbolBinding::Weak, SymbolVisibility::Default));
    assert_eq!(symbol_binding_visibility(None, false), (SymbolBinding::Global, SymbolVisibility::Default));
}

fn raw(name: &[u8], undefined: bool) -> RawSymbol {
    RawSymbol {
        name: name.to_vec(),
        kind: SymbolKind::Function,
        undefined,
        elf_flags: Some((0x12, 0)),
        weak: false,
        size: 16,
        address: 0x1000,
        section: Some(b".text".to_vec()),
        index: 3,
    }
}

#[test]
fn symbol_records_keep_names_versions_and_direction() {
    let limits = InspectionLimits::default_limits();
    assert!(symbol_record(b"/lib/x.so", raw(b"", false), 1, None, None, limits).unwrap().is_none());
    let version = VersionInfo { name: b"VERS_1.0".to_vec(), is_default: true };
    let record = symbol_record(b"/lib/x.so", raw(b"foo", false), 1, None, Some(&version), limits).unwrap().unwrap();
    assert_eq!(record.name(), "foo");
    assert_eq!(record.direction(), SymbolDirection::Exported);
    assert_eq!(record.binding(), SymbolBinding::Global);
    assert_eq!(record.address(), Some(0x1000));
    assert_eq!(*record.decoration(), SymbolDecoration::Versioned { version: b"VERS_1.0".to_vec(), is_default: true });
    let import = symbol_record(b"/lib/x.so", raw(b"bar", true), 1, Some(b"a.o"), None, limits).unwrap().unwrap();
    assert_eq!(import.direction(), SymbolDirection::Imported);
    assert_eq!(import.address(), None);
    assert_eq!(*import.decoration(), SymbolDecoration::Undecorated);
    assert_eq!(import.archive_member(), Some(&b"a.o"[..]));
}

#[test]
fn symbol_records_refuse_bad_names() {
    let limits = InspectionLimits::default_limits();
    match symbol_record(b"/lib/x.so", raw(b"a\0b", false), 1, None, None, limits) {
        Err(NativeError::InvalidSymbol { detail, .. }) => assert_eq!(detail, "symbol name is invalid or oversized"),
        other => panic!("expected an invalid name, got {other:?}"),
    }
    match symbol_record(b"/lib/x.so", raw(b"\xff", false), 1, None, None, limits) {
        Err(NativeError::InvalidSymbol { detail, .. }) => {
            assert_eq!(detail, "ELF symbol name is not UTF-8; raw bytes were not discarded")
        }
        other => panic!("expected a non-UTF-8 name, got {other:?}"),
    }
}
