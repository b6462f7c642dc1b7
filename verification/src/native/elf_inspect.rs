//! Inspecting an ELF object, shared library or archive from its bytes: the
//! kind of buffer, the target facts of its header, its dynamic and regular
//! symbols with their versions, and its dynamic dependencies.
use vstd::prelude::*;

use super::certify::decimal;
use super::elf::{
    check_version_table, dynamic_walk, entry_width, names_view, needed_from_table, parse_dynamic_table, parse_version_definitions,
    parse_version_requirements, symbol_versions, verdef_walk, verneed_walk, version_entry, DynamicMetadata, VersionInfo,
};
use super::elf_read::{
    count_dynamic_symbols, read_file_kind, read_object_header, read_section_data, read_section_name_bytes, read_symbol_detail,
    dynamic_symbol_count, file_kind_read, object_header_read, section_data_read, section_name_bytes_read, symbol_detail_read,
    DetailRead, FileKindRead, HeaderRead, SectionRead, SymbolClass,
};
use super::error::NativeError;
use super::inspect::{
    admit_archive_member, admit_member_facts, admit_static_symbol, binding_visibility_spec, facts_of, member_view, record_matches,
    record_valid, same_facts, same_physical, symbol_record, version_view, InspectionLimits, NeededLibrary, RawSymbol, SymbolFacts,
    TargetFacts,
};
use crate::bytes::slice_to_vec;
use super::inspect::{crt_for, linker_for, native_abi_spec, provider_kind, target_from_facts, ArtifactInspection, NativeInspector};
use crate::contract::model::{
    abi_matches_spec, crt_matches_spec, is_normalized_absolute, is_valid_text, linker_matches_spec, valid_pointer_width, ObservedTargetParts,
};
use crate::contract::identity::{digest_spec, ArtifactFingerprint, ARTIFACT_FINGERPRINT_DOMAIN};
use crate::contract::inventory::InspectionProvenance;
use crate::contract::model::{
    ArtifactKind, InspectionParserIdentity, InspectionParserKind, InspectionToolIdentity, InspectionToolKind, ProviderProvenance,
    ProviderResolution, ResolvedArtifact, ResolvedArtifactInput, SymbolKind, SymbolRecord, TargetSpec,
};
use crate::contract::{Architecture, ContentFingerprint, Endian, ObjectFormat, OperatingSystem};
use vstd::utf8::encode_utf8;
use crate::symbols::{
    archive_member_read, object_read, object_symbol_read, read_archive_member, read_object, read_symbol, MemberRead, ObjectKindTag, ObjectRead, SymbolRead,
    SymbolTable,
};
use crate::text::str_eq;
use vstd::string::StringExecFns;

verus! {

/// What one artifact's bytes were read as.
#[derive(Debug)]
pub struct ParsedArtifact {
    pub facts: TargetFacts,
    pub object_kind: ObjectKindTag,
    pub symbols: Vec<SymbolRecord>,
    pub dependencies: Vec<NeededLibrary>,
    pub soname: Option<Vec<u8>>,
}

fn corrupt(path: &[u8], detail: String) -> (e: NativeError)
    ensures
        e matches NativeError::CorruptArtifact { path: p, detail: d } && p@ == path@ && d@ == detail@,
{
    NativeError::CorruptArtifact { path: slice_to_vec(path), detail }
}

fn unsupported(path: &[u8], detail: String) -> (e: NativeError)
    ensures
        e matches NativeError::UnsupportedArtifact { path: p, detail: d } && p@ == path@ && d@ == detail@,
{
    NativeError::UnsupportedArtifact { path: slice_to_vec(path), detail }
}

/// The library's architecture for the name `object` gives one.
pub open spec fn architecture_named_spec(name: Seq<char>) -> Option<Architecture> {
    if name == "I386"@ {
        Some(Architecture::X86)
    } else if name == "X86_64"@ {
        Some(Architecture::X86_64)
    } else if name == "Arm"@ {
        Some(Architecture::Arm)
    } else if name == "Aarch64"@ {
        Some(Architecture::Aarch64)
    } else if name == "Riscv32"@ {
        Some(Architecture::RiscV32)
    } else if name == "Riscv64"@ {
        Some(Architecture::RiscV64)
    } else if name == "PowerPc"@ {
        Some(Architecture::PowerPc)
    } else if name == "PowerPc64"@ {
        Some(Architecture::PowerPc64)
    } else if name == "S390x"@ {
        Some(Architecture::S390x)
    } else if name == "Mips"@ {
        Some(Architecture::Mips)
    } else if name == "Mips64"@ {
        Some(Architecture::Mips64)
    } else if name == "Sparc64"@ {
        Some(Architecture::Sparc64)
    } else if name == "Wasm32"@ {
        Some(Architecture::Wasm32)
    } else if name == "Wasm64"@ {
        Some(Architecture::Wasm64)
    } else {
        None
    }
}

/// Maps the name `object` gives an architecture to the library's.
pub fn architecture_named(name: &str) -> (out: Option<Architecture>)
    ensures
        out == architecture_named_spec(name@),
{
    if str_eq(name, "I386") {
        Some(Architecture::X86)
    } else if str_eq(name, "X86_64") {
        Some(Architecture::X86_64)
    } else if str_eq(name, "Arm") {
        Some(Architecture::Arm)
    } else if str_eq(name, "Aarch64") {
        Some(Architecture::Aarch64)
    } else if str_eq(name, "Riscv32") {
        Some(Architecture::RiscV32)
    } else if str_eq(name, "Riscv64") {
        Some(Architecture::RiscV64)
    } else if str_eq(name, "PowerPc") {
        Some(Architecture::PowerPc)
    } else if str_eq(name, "PowerPc64") {
        Some(Architecture::PowerPc64)
    } else if str_eq(name, "S390x") {
        Some(Architecture::S390x)
    } else if str_eq(name, "Mips") {
        Some(Architecture::Mips)
    } else if str_eq(name, "Mips64") {
        Some(Architecture::Mips64)
    } else if str_eq(name, "Sparc64") {
        Some(Architecture::Sparc64)
    } else if str_eq(name, "Wasm32") {
        Some(Architecture::Wasm32)
    } else if str_eq(name, "Wasm64") {
        Some(Architecture::Wasm64)
    } else {
        None
    }
}

/// The contract's kind of a symbol of the class `object` reports.
pub open spec fn symbol_kind_of(class: SymbolClass) -> SymbolKind {
    match class {
        SymbolClass::Text => SymbolKind::Function,
        SymbolClass::Data => SymbolKind::Data,
        SymbolClass::Tls => SymbolKind::ThreadLocal,
        SymbolClass::Other => SymbolKind::Unknown,
    }
}

/// What `object` reads of entry `index` of `table`: nothing past the table's
/// end, the reason where the name cannot be read, otherwise its facts.
pub open spec fn facts_read(data: Seq<u8>, table: SymbolTable, index: int) -> Option<Result<SymbolFacts, Seq<char>>> {
    match (object_symbol_read(data, table, index), symbol_detail_read(data, table, index)) {
        (SymbolRead::Entry(b), DetailRead::Entry(d)) => match d.name {
            Ok(n) => Some(
                Ok(
                    SymbolFacts {
                        name: n@,
                        kind: symbol_kind_of(d.class),
                        undefined: d.undefined,
                        elf_flags: b.elf_flags,
                        weak: d.weak,
                        size: b.size,
                        address: d.address,
                        section: match b.section_index {
                            Some(i) => section_name_bytes_read(data, i as int),
                            None => None,
                        },
                        index: d.index,
                    },
                ),
            ),
            Err(e) => Some(Err(e@)),
        },
        _ => None,
    }
}

/// The plain facts of entry `index` of `table`: none past the table's end;
/// a name that cannot be read is refused.
fn raw_symbol(path: &[u8], data: &[u8], table: SymbolTable, index: usize) -> (res: Result<Option<RawSymbol>, NativeError>)
    ensures
        match facts_read(data@, table, index as int) {
            None => res == Ok::<Option<RawSymbol>, NativeError>(None),
            Some(Err(e)) => res matches Err(NativeError::InvalidSymbol { path: p, detail }) && p@ == path@ && detail@ == e,
            Some(Ok(f)) => res matches Ok(Some(raw)) && facts_of(raw) == f,
        },
{
    let basic = read_symbol(data, table, index);
    let detail = read_symbol_detail(data, table, index);
    let (basic, detail) = match (basic, detail) {
        (SymbolRead::Entry(basic), DetailRead::Entry(detail)) => (basic, detail),
        _ => {
            return Ok(None);
        },
    };
    let name = match detail.name {
        Ok(name) => name,
        Err(error) => {
            return Err(NativeError::InvalidSymbol { path: slice_to_vec(path), detail: error });
        },
    };
    let kind = match detail.class {
        SymbolClass::Text => SymbolKind::Function,
        SymbolClass::Data => SymbolKind::Data,
        SymbolClass::Tls => SymbolKind::ThreadLocal,
        SymbolClass::Other => SymbolKind::Unknown,
    };
    let section = match basic.section_index {
        Some(i) => read_section_name_bytes(data, i),
        None => None,
    };
    let raw = RawSymbol {
        name,
        kind,
        undefined: detail.undefined,
        elf_flags: basic.elf_flags,
        weak: detail.weak,
        size: basic.size,
        address: detail.address,
        section,
        index: detail.index,
    };
    proof {
        assert(facts_of(raw) =~= facts_read(data@, table, index as int)->Some_0->Ok_0);
    }
    Ok(Some(raw))
}

/// The endianness a header reports.
pub open spec fn endian_spec(little: bool) -> Endian {
    if little {
        Endian::Little
    } else {
        Endian::Big
    }
}

fn endian_of(little: bool) -> (out: Endian)
    ensures
        out == endian_spec(little),
{
    if little {
        Endian::Little
    } else {
        Endian::Big
    }
}

/// The version names the version-definition and version-requirement
/// sections record, read against the dynamic strings `strings`.
pub open spec fn version_names(data: Seq<u8>, strings: Seq<u8>, endian: Endian, limits: InspectionLimits) -> Option<
    Seq<(u16, Seq<u8>)>,
> {
    let after_definitions = match section_data_read(data, ".gnu.version_d"@) {
        SectionRead::Absent => Some(Seq::<(u16, Seq<u8>)>::empty()),
        SectionRead::Failed(_) => None,
        SectionRead::Data(d) => match verdef_walk(
            d@,
            strings,
            endian,
            limits.max_name_bytes as int,
            limits.max_dependencies as int,
            0,
            0,
            Seq::empty(),
        ) {
            Ok(n) => Some(n),
            Err(_) => None,
        },
    };
    match after_definitions {
        None => None,
        Some(n) => match section_data_read(data, ".gnu.version_r"@) {
            SectionRead::Absent => Some(n),
            SectionRead::Failed(_) => None,
            SectionRead::Data(r) => match verneed_walk(
                r@,
                strings,
                endian,
                limits.max_name_bytes as int,
                limits.max_dependencies as int,
                0,
                0,
                n,
            ) {
                Ok(m) => Some(m),
                Err(_) => None,
            },
        },
    }
}

/// `.gnu.version` has two bytes for the null symbol and for each dynamic
/// symbol.
pub open spec fn version_count_ok(versym_len: int, dynamic_symbols: usize) -> bool {
    versym_len % 2 == 0 && versym_len / 2 == (if dynamic_symbols == usize::MAX {
        dynamic_symbols as int
    } else {
        dynamic_symbols + 1
    })
}

/// The version of each dynamic symbol, by symbol index (none without a
/// `.gnu.version` section), or nothing where the version sections are
/// refused.
pub open spec fn version_table(data: Seq<u8>, little: bool, limits: InspectionLimits) -> Option<Seq<Option<(Seq<u8>, bool)>>> {
    match section_data_read(data, ".gnu.version"@) {
        SectionRead::Absent => Some(Seq::empty()),
        SectionRead::Failed(_) => None,
        SectionRead::Data(v) => match section_data_read(data, ".dynstr"@) {
            SectionRead::Data(s) => if !version_count_ok(v@.len() as int, dynamic_symbol_count(data)) {
                None
            } else {
                match version_names(data, s@, endian_spec(little), limits) {
                    None => None,
                    Some(names) => if forall|i: int|
                        0 <= i < v@.len() / 2 ==> (#[trigger] version_entry(v@, i, endian_spec(little), names)) is Ok {
                        Some(
                            Seq::new(
                                (v@.len() / 2) as nat,
                                |i: int|
                                    match version_entry(v@, i, endian_spec(little), names) {
                                        Ok(x) => x,
                                        Err(_) => None,
                                    },
                            ),
                        )
                    } else {
                        None
                    },
                }
            },
            _ => None,
        },
    }
}

/// The versions as name and default flag.
pub open spec fn versions_view(versions: Seq<Option<VersionInfo>>) -> Seq<Option<(Seq<u8>, bool)>> {
    versions.map_values(
        |o: Option<VersionInfo>|
            match o {
                Some(v) => Some((v.name@, v.is_default)),
                None => None,
            },
    )
}

/// The version of each dynamic symbol, by symbol index: none without a
/// `.gnu.version` section.
fn symbol_version_table(path: &[u8], data: &[u8], little: bool, limits: InspectionLimits) -> (res: Result<
    Vec<Option<VersionInfo>>,
    NativeError,
>)
    ensures
        match version_table(data@, little, limits) {
            None => res is Err,
            Some(vs) => res matches Ok(v) && versions_view(v@) == vs,
        },
{
    let versym = match read_section_data(data, ".gnu.version") {
        SectionRead::Absent => {
            let empty: Vec<Option<VersionInfo>> = Vec::new();
            proof {
                assert(versions_view(empty@) =~= Seq::<Option<(Seq<u8>, bool)>>::empty());
            }
            return Ok(empty);
        },
        SectionRead::Failed(error) => {
            return Err(corrupt(path, error));
        },
        SectionRead::Data(bytes) => bytes,
    };
    let dynstr = read_section_data(data, ".dynstr");
    if let SectionRead::Absent = dynstr {
        return Err(corrupt(path, "ELF version table has no .dynstr".to_owned()));
    }
    check_version_table(path, versym.len(), count_dynamic_symbols(data))?;
    let dynstr = match dynstr {
        SectionRead::Data(bytes) => bytes,
        SectionRead::Failed(error) => {
            return Err(corrupt(path, error));
        },
        SectionRead::Absent => Vec::new(),
    };
    let endian = endian_of(little);
    let mut names: Vec<(u16, Vec<u8>)> = Vec::new();
    proof {
        assert(names_view(names@) =~= Seq::<(u16, Seq<u8>)>::empty());
    }
    match read_section_data(data, ".gnu.version_d") {
        SectionRead::Data(definitions) => {
            parse_version_definitions(path, definitions.as_slice(), dynstr.as_slice(), endian, limits, &mut names)?;
        },
        SectionRead::Failed(error) => {
            return Err(corrupt(path, error));
        },
        SectionRead::Absent => {},
    }
    match read_section_data(data, ".gnu.version_r") {
        SectionRead::Data(requirements) => {
            parse_version_requirements(path, requirements.as_slice(), dynstr.as_slice(), endian, limits, &mut names)?;
        },
        SectionRead::Failed(error) => {
            return Err(corrupt(path, error));
        },
        SectionRead::Absent => {},
    }
    let ghost table = version_table(data@, little, limits);
    let ghost nv = names_view(names@);
    assert(version_names(data@, dynstr@, endian, limits) == Some(nv));
    let versions = symbol_versions(path, versym.as_slice(), endian, &names)?;
    proof {
        let vs = table->Some_0;
        assert(versions_view(versions@) =~= vs);
    }
    Ok(versions)
}

/// The dependencies and soname the dynamic table records (none without a
/// `.dynamic` section), or nothing where the table is refused.
pub open spec fn dynamic_info(data: Seq<u8>, is_64: bool, little: bool, limits: InspectionLimits) -> Option<
    (Seq<Seq<u8>>, Option<Seq<u8>>),
> {
    match section_data_read(data, ".dynamic"@) {
        SectionRead::Absent => Some((Seq::empty(), None)),
        SectionRead::Failed(_) => None,
        SectionRead::Data(d) => match section_data_read(data, ".dynstr"@) {
            SectionRead::Data(s) => if d@.len() % entry_width(is_64) != 0 {
                None
            } else {
                match dynamic_walk(
                    d@,
                    s@,
                    is_64,
                    endian_spec(little),
                    limits.max_name_bytes as int,
                    limits.max_dependencies as int,
                    0,
                    Seq::empty(),
                    None,
                ) {
                    Ok(found) => Some(found),
                    Err(_) => None,
                }
            },
            _ => None,
        },
    }
}

/// The dependencies and soname of the dynamic table: none without a
/// `.dynamic` section.
fn dynamic_metadata(path: &[u8], data: &[u8], is_64: bool, little: bool, limits: InspectionLimits) -> (res: Result<
    DynamicMetadata,
    NativeError,
>)
    ensures
        match dynamic_info(data@, is_64, little, limits) {
            None => res is Err,
            Some((deps, soname)) => res matches Ok(m) && needed_from_table(m.dependencies@, deps) && match soname {
                Some(s) => m.soname matches Some(o) && o@ == s,
                None => m.soname is None,
            },
        },
{
    let dynamic = match read_section_data(data, ".dynamic") {
        SectionRead::Absent => {
            return Ok(DynamicMetadata { dependencies: Vec::new(), soname: None });
        },
        SectionRead::Failed(error) => {
            return Err(corrupt(path, error));
        },
        SectionRead::Data(bytes) => bytes,
    };
    let strings = match read_section_data(data, ".dynstr") {
        SectionRead::Absent => {
            return Err(corrupt(path, "ELF dynamic table has no .dynstr".to_owned()));
        },
        SectionRead::Failed(error) => {
            return Err(corrupt(path, error));
        },
        SectionRead::Data(bytes) => bytes,
    };
    parse_dynamic_table(path, dynamic.as_slice(), strings.as_slice(), is_64, endian_of(little), limits)
}

fn too_many_symbols(path: &[u8], what: &str, limits: InspectionLimits) -> (e: NativeError)
    ensures
        e is CorruptArtifact,
{
    corrupt(path, what.to_owned().concat(" exceeds ").concat(decimal(limits.max_symbols as u64).as_str()).concat(" symbols"))
}

/// The version recorded for symbol index `index`, if any.
pub open spec fn version_of(versions: Seq<Option<(Seq<u8>, bool)>>, index: usize) -> Option<(Seq<u8>, bool)> {
    if index < versions.len() {
        versions[index as int]
    } else {
        None
    }
}

/// The version of dynamic symbol `index`, if the table has one.
fn version_at(versions: &Vec<Option<VersionInfo>>, index: usize) -> (out: Option<&VersionInfo>)
    ensures
        version_view(out) == version_of(versions_view(versions@), index),
{
    if index < versions.len() {
        match &versions[index] {
            Some(v) => Some(v),
            None => None,
        }
    } else {
        None
    }
}

/// The facts of the named symbols of `table` from entry `start` on, in
/// table order; nothing where a name cannot be read or a named symbol is
/// refused.
pub open spec fn facts_listing(data: Seq<u8>, table: SymbolTable, start: int, limits: InspectionLimits) -> Option<
    Seq<SymbolFacts>,
>
    decreases usize::MAX - start,
{
    if start < 0 || start >= usize::MAX {
        Some(Seq::empty())
    } else {
        match facts_read(data, table, start) {
            None => Some(Seq::empty()),
            Some(Err(_)) => None,
            Some(Ok(f)) => if !record_valid(f, limits) {
                None
            } else {
                match facts_listing(data, table, start + 1, limits) {
                    None => None,
                    Some(rest) => if f.name.len() == 0 {
                        Some(rest)
                    } else {
                        Some(seq![f] + rest)
                    },
                }
            },
        }
    }
}

/// `done`, then what `rest` lists.
pub open spec fn prepend(done: Seq<SymbolFacts>, rest: Option<Seq<SymbolFacts>>) -> Option<Seq<SymbolFacts>> {
    match rest {
        None => None,
        Some(s) => Some(done + s),
    }
}

/// `records` are the records of the symbols with `facts`, in order.
pub open spec fn records_match(
    records: Seq<SymbolRecord>,
    facts: Seq<SymbolFacts>,
    table_index: u32,
    member: Option<Seq<u8>>,
    versions: Seq<Option<(Seq<u8>, bool)>>,
) -> bool {
    &&& records.len() == facts.len()
    &&& forall|i: int|
        0 <= i < records.len() ==> record_matches(
            #[trigger] records[i],
            facts[i],
            table_index,
            member,
            version_of(versions, facts[i].index),
        )
}

/// Two symbols with these facts are the same physical symbol.
pub open spec fn facts_same_physical(d: SymbolFacts, f: SymbolFacts) -> bool {
    &&& d.name == f.name
    &&& d.undefined == f.undefined
    &&& d.kind == f.kind
    &&& binding_visibility_spec(d.elf_flags, d.weak) == binding_visibility_spec(f.elf_flags, f.weak)
    &&& d.size == f.size
    &&& (d.undefined || d.address == f.address)
}

/// A regular symbol is kept unless it is one of the dynamic symbols again.
pub open spec fn admitted(dynamic: Seq<SymbolFacts>, f: SymbolFacts) -> bool {
    forall|i: int| 0 <= i < dynamic.len() ==> !facts_same_physical(#[trigger] dynamic[i], f)
}

/// The regular symbols kept beside `dynamic`, in order.
pub open spec fn kept(dynamic: Seq<SymbolFacts>, regular: Seq<SymbolFacts>) -> Seq<SymbolFacts>
    decreases regular.len(),
{
    if regular.len() == 0 {
        Seq::empty()
    } else {
        let before = kept(dynamic, regular.drop_last());
        if admitted(dynamic, regular.last()) {
            before.push(regular.last())
        } else {
            before
        }
    }
}

proof fn lemma_kept_grows(dynamic: Seq<SymbolFacts>, a: Seq<SymbolFacts>, b: Seq<SymbolFacts>)
    ensures
        kept(dynamic, a + b).len() >= kept(dynamic, a).len(),
    decreases b.len(),
{
    if b.len() == 0 {
        assert(a + b =~= a);
    } else {
        assert((a + b).drop_last() =~= a + b.drop_last());
        lemma_kept_grows(dynamic, a, b.drop_last());
    }
}

proof fn lemma_same_physical_facts(
    rd: SymbolRecord,
    d: SymbolFacts,
    rs: SymbolRecord,
    f: SymbolFacts,
    dynamic_table: u32,
    table_base: u32,
    member: Option<Seq<u8>>,
    version: Option<(Seq<u8>, bool)>,
)
    requires
        record_matches(rd, d, dynamic_table, member, version),
        record_matches(rs, f, table_base, member, None),
    ensures
        same_physical(rd, rs) <==> facts_same_physical(d, f),
{
    let x = rd.spec_input();
    let y = rs.spec_input();
    if same_physical(rd, rs) {
        assert(x.address == y.address);
    }
}

/// The target facts of an ELF header: its architecture by the name
/// `object` gives it, its endianness and its pointer width.
pub open spec fn elf_header_facts(data: Seq<u8>) -> Option<TargetFacts> {
    match object_header_read(data) {
        HeaderRead::Parsed(h) => if (file_kind_read(data) is Elf32 || file_kind_read(data) is Elf64) && h.format@ == "Elf"@ {
            match architecture_named_spec(h.architecture@) {
                Some(a) => Some(
                    TargetFacts {
                        architecture: a,
                        endian: endian_spec(h.little_endian),
                        pointer_width: if h.is_64 {
                            64u16
                        } else {
                            32u16
                        },
                    },
                ),
                None => None,
            }
        } else {
            None
        },
        HeaderRead::Failed(_) => None,
    }
}

/// An ELF buffer parses: its header names a known architecture, its version
/// and dynamic sections are accepted, every named symbol of both tables is
/// accepted, the dynamic symbols and the kept regular ones stay within the
/// limit, and `object` reports its kind.
pub open spec fn elf_parse_ok(data: Seq<u8>, table_base: u32, limits: InspectionLimits) -> bool {
    &&& elf_header_facts(data) is Some
    &&& match object_header_read(data) {
        HeaderRead::Parsed(h) => version_table(data, h.little_endian, limits) is Some && dynamic_info(
            data,
            h.is_64,
            h.little_endian,
            limits,
        ) is Some,
        HeaderRead::Failed(_) => false,
    }
    &&& table_base < u32::MAX
    &&& match (facts_listing(data, SymbolTable::Dynamic, 0, limits), facts_listing(data, SymbolTable::Regular, 0, limits)) {
        (Some(dynf), Some(regf)) => dynf.len() <= limits.max_symbols && dynf.len() + kept(dynf, regf).len() <= limits.max_symbols,
        _ => false,
    }
    &&& object_read(data) is Parsed
}

/// The number of symbols an ELF buffer yields: its named dynamic symbols
/// and the kept regular ones.
pub open spec fn elf_symbol_count(data: Seq<u8>, limits: InspectionLimits) -> int {
    match (facts_listing(data, SymbolTable::Dynamic, 0, limits), facts_listing(data, SymbolTable::Regular, 0, limits)) {
        (Some(dynf), Some(regf)) => (dynf.len() + kept(dynf, regf).len()) as int,
        _ => 0,
    }
}

/// `records` are the symbols of an ELF buffer: its dynamic symbols, each
/// with its version, from table `table_base + 1`, then its kept regular
/// symbols from table `table_base`.
pub open spec fn elf_symbols(
    records: Seq<SymbolRecord>,
    data: Seq<u8>,
    table_base: u32,
    member: Option<Seq<u8>>,
    limits: InspectionLimits,
) -> bool {
    match object_header_read(data) {
        HeaderRead::Parsed(h) => match (
            version_table(data, h.little_endian, limits),
            facts_listing(data, SymbolTable::Dynamic, 0, limits),
            facts_listing(data, SymbolTable::Regular, 0, limits),
        ) {
            (Some(vs), Some(dynf), Some(regf)) => {
                &&& records.len() == dynf.len() + kept(dynf, regf).len()
                &&& records_match(records.take(dynf.len() as int), dynf, (table_base + 1) as u32, member, vs)
                &&& records_match(records.skip(dynf.len() as int), kept(dynf, regf), table_base, member, Seq::empty())
            },
            _ => false,
        },
        HeaderRead::Failed(_) => false,
    }
}

/// What a parsed ELF buffer holds: its header facts and kind, its dynamic
/// symbols (each with its version) from table `table_base + 1`, then its
/// kept regular symbols from table `table_base`, and the dependencies and
/// soname of its dynamic table.
pub open spec fn elf_parsed(parsed: ParsedArtifact, data: Seq<u8>, table_base: u32, member: Option<Seq<u8>>, limits: InspectionLimits) -> bool {
    &&& elf_header_facts(data) == Some(parsed.facts)
    &&& object_read(data) == ObjectRead::Parsed(parsed.object_kind)
    &&& match object_header_read(data) {
        HeaderRead::Parsed(h) => match (
            version_table(data, h.little_endian, limits),
            facts_listing(data, SymbolTable::Dynamic, 0, limits),
            facts_listing(data, SymbolTable::Regular, 0, limits),
            dynamic_info(data, h.is_64, h.little_endian, limits),
        ) {
            (Some(vs), Some(dynf), Some(regf), Some((deps, soname))) => {
                &&& elf_symbols(parsed.symbols@, data, table_base, member, limits)
                &&& needed_from_table(parsed.dependencies@, deps)
                &&& match soname {
                    Some(s) => parsed.soname matches Some(o) && o@ == s,
                    None => parsed.soname is None,
                }
            },
            _ => false,
        },
        HeaderRead::Failed(_) => false,
    }
}

/// Parses one ELF object: its header facts, then its dynamic symbols (each
/// with its version) and the regular symbols that are not a dynamic one
/// again, then its dynamic dependencies. A buffer that is not ELF, another
/// binary format and an unknown architecture are refused, and so is a
/// symbol count over the limit.
#[verifier::rlimit(60)]
pub fn parse_elf(path: &[u8], data: &[u8], table_base: u32, member: Option<&[u8]>, limits: InspectionLimits) -> (res: Result<
    ParsedArtifact,
    NativeError,
>)
    ensures
        res is Ok <==> elf_parse_ok(data@, table_base, limits),
        !(file_kind_read(data@) is Elf32 || file_kind_read(data@) is Elf64) ==> res matches Err(NativeError::CorruptArtifact { .. }),
        res matches Ok(parsed) ==> elf_parsed(parsed, data@, table_base, member_view(member), limits),
{
    match read_file_kind(data) {
        FileKindRead::Elf32 | FileKindRead::Elf64 => {},
        FileKindRead::Failed(error) => {
            return Err(corrupt(path, error));
        },
        FileKindRead::Archive => {
            return Err(corrupt(path, "archive member is not ELF: Archive".to_owned()));
        },
        FileKindRead::Other(kind) => {
            return Err(corrupt(path, "archive member is not ELF: ".to_owned().concat(kind.as_str())));
        },
    }
    let header = match read_object_header(data) {
        HeaderRead::Failed(error) => {
            return Err(corrupt(path, error));
        },
        HeaderRead::Parsed(header) => header,
    };
    if !str_eq(header.format.as_str(), "Elf") {
        return Err(unsupported(path, "only ELF object members are certified".to_owned()));
    }
    let architecture = match architecture_named(header.architecture.as_str()) {
        Some(a) => a,
        None => {
            return Err(unsupported(path, "unsupported ELF architecture ".to_owned().concat(header.architecture.as_str())));
        },
    };
    let facts = TargetFacts {
        architecture,
        endian: endian_of(header.little_endian),
        pointer_width: if header.is_64 { 64 } else { 32 },
    };
    let versions = symbol_version_table(path, data, header.little_endian, limits)?;
    let ghost vs = versions_view(versions@);
    if table_base == u32::MAX {
        return Err(corrupt(path, "symbol table identity overflow".to_owned()));
    }
    let dynamic_table = table_base + 1;
    let ghost mv = member_view(member);
    let ghost dyn_all = facts_listing(data@, SymbolTable::Dynamic, 0, limits);
    let ghost mut done: Seq<SymbolFacts> = Seq::empty();
    let mut dynamic: Vec<SymbolRecord> = Vec::new();
    let mut index: usize = 0;
    proof {
        assert(done + Seq::<SymbolFacts>::empty() =~= done);
        assert(dyn_all == prepend(done, facts_listing(data@, SymbolTable::Dynamic, 0, limits))) by {
            match facts_listing(data@, SymbolTable::Dynamic, 0, limits) {
                Some(s) => {
                    assert(done + s =~= s);
                },
                None => {},
            }
        }
    }
    while index < usize::MAX
        invariant
            dyn_all == facts_listing(data@, SymbolTable::Dynamic, 0, limits),
            dyn_all == prepend(done, facts_listing(data@, SymbolTable::Dynamic, index as int, limits)),
            records_match(dynamic@, done, dynamic_table, mv, vs),
            dynamic@.len() <= limits.max_symbols,
            vs == versions_view(versions@),
            mv == member_view(member),
            dynamic_table == table_base + 1,
            file_kind_read(data@) is Elf32 || file_kind_read(data@) is Elf64,
            elf_header_facts(data@) == Some(facts),
            object_header_read(data@) == HeaderRead::Parsed(header),
            version_table(data@, header.little_endian, limits) == Some(vs),
            table_base < u32::MAX,
        ensures
            dyn_all == Some(done),
            records_match(dynamic@, done, dynamic_table, mv, vs),
            dynamic@.len() <= limits.max_symbols,
        decreases usize::MAX - index,
    {
        let raw = match raw_symbol(path, data, SymbolTable::Dynamic, index)? {
            Some(raw) => raw,
            None => {
                proof {
                    assert(facts_listing(data@, SymbolTable::Dynamic, index as int, limits) == Some(Seq::<SymbolFacts>::empty()));
                    assert(done + Seq::<SymbolFacts>::empty() =~= done);
                }
                break;
            },
        };
        let ghost f = facts_of(raw);
        let version = version_at(&versions, raw.index);
        let record = symbol_record(path, raw, dynamic_table, member, version, limits)?;
        proof {
            assert(facts_listing(data@, SymbolTable::Dynamic, index as int, limits) == match facts_listing(
                data@,
                SymbolTable::Dynamic,
                index + 1,
                limits,
            ) {
                None => None,
                Some(rest) => if f.name.len() == 0 {
                    Some(rest)
                } else {
                    Some(seq![f] + rest)
                },
            });
        }
        if let Some(record) = record {
            let ghost before = dynamic@;
            dynamic.push(record);
            proof {
                let next = done.push(f);
                match facts_listing(data@, SymbolTable::Dynamic, index + 1, limits) {
                    Some(rest) => {
                        assert(done + (seq![f] + rest) =~= next + rest);
                    },
                    None => {},
                }
                assert forall|i: int| 0 <= i < dynamic@.len() implies record_matches(
                    #[trigger] dynamic@[i],
                    next[i],
                    dynamic_table,
                    mv,
                    version_of(vs, next[i].index),
                ) by {
                    if i < before.len() {
                        assert(dynamic@[i] == before[i]);
                    }
                }
                done = next;
            }
        }
        if dynamic.len() > limits.max_symbols {
            return Err(too_many_symbols(path, "artifact", limits));
        }
        index = index + 1;
    }
    let ghost dynf = done;
    let ghost reg_all = facts_listing(data@, SymbolTable::Regular, 0, limits);
    let ghost mut seen: Seq<SymbolFacts> = Seq::empty();
    let mut statics: Vec<SymbolRecord> = Vec::new();
    let mut index: usize = 0;
    proof {
        assert(reg_all == prepend(seen, facts_listing(data@, SymbolTable::Regular, 0, limits))) by {
            match facts_listing(data@, SymbolTable::Regular, 0, limits) {
                Some(s) => {
                    assert(seen + s =~= s);
                },
                None => {},
            }
        }
        assert(kept(dynf, seen) =~= Seq::<SymbolFacts>::empty());
    }
    while index < usize::MAX
        invariant
            dyn_all == Some(dynf),
            dyn_all == facts_listing(data@, SymbolTable::Dynamic, 0, limits),
            records_match(dynamic@, dynf, dynamic_table, mv, vs),
            dynamic@.len() <= limits.max_symbols,
            reg_all == facts_listing(data@, SymbolTable::Regular, 0, limits),
            reg_all == prepend(seen, facts_listing(data@, SymbolTable::Regular, index as int, limits)),
            records_match(statics@, kept(dynf, seen), table_base, mv, Seq::empty()),
            dynamic@.len() + statics@.len() <= limits.max_symbols,
            mv == member_view(member),
            dynamic_table == table_base + 1,
            file_kind_read(data@) is Elf32 || file_kind_read(data@) is Elf64,
            elf_header_facts(data@) == Some(facts),
            object_header_read(data@) == HeaderRead::Parsed(header),
            version_table(data@, header.little_endian, limits) == Some(vs),
            table_base < u32::MAX,
        ensures
            reg_all == Some(seen),
            records_match(statics@, kept(dynf, seen), table_base, mv, Seq::empty()),
            dynamic@.len() + statics@.len() <= limits.max_symbols,
        decreases usize::MAX - index,
    {
        let raw = match raw_symbol(path, data, SymbolTable::Regular, index)? {
            Some(raw) => raw,
            None => {
                proof {
                    assert(facts_listing(data@, SymbolTable::Regular, index as int, limits) == Some(Seq::<SymbolFacts>::empty()));
                    assert(seen + Seq::<SymbolFacts>::empty() =~= seen);
                }
                break;
            },
        };
        let ghost f = facts_of(raw);
        let record = symbol_record(path, raw, table_base, member, None, limits)?;
        proof {
            assert(facts_listing(data@, SymbolTable::Regular, index as int, limits) == match facts_listing(
                data@,
                SymbolTable::Regular,
                index + 1,
                limits,
            ) {
                None => None,
                Some(rest) => if f.name.len() == 0 {
                    Some(rest)
                } else {
                    Some(seq![f] + rest)
                },
            });
        }
        if let Some(record) = record {
            let keep = admit_static_symbol(dynamic.as_slice(), &record);
            let ghost before = statics@;
            let ghost next = seen.push(f);
            proof {
                assert(next.drop_last() =~= seen);
                assert(next.last() == f);
                assert(keep <==> admitted(dynf, f)) by {
                    assert forall|i: int| 0 <= i < dynf.len() implies (same_physical(#[trigger] dynamic@[i], record)
                        <==> facts_same_physical(dynf[i], f)) by {
                        lemma_same_physical_facts(dynamic@[i], dynf[i], record, f, dynamic_table, table_base, mv, version_of(vs, dynf[i].index));
                    }
                    if keep {
                        assert forall|i: int| 0 <= i < dynf.len() implies !facts_same_physical(#[trigger] dynf[i], f) by {
                            assert(!same_physical(dynamic@[i], record));
                        }
                    } else {
                        let i = choose|i: int| 0 <= i < dynamic@.len() && same_physical(#[trigger] dynamic@[i], record);
                        assert(facts_same_physical(dynf[i], f));
                    }
                }
            }
            if keep {
                statics.push(record);
            }
            proof {
                match facts_listing(data@, SymbolTable::Regular, index + 1, limits) {
                    Some(rest) => {
                        assert(seen + (seq![f] + rest) =~= next + rest);
                    },
                    None => {},
                }
                let k = kept(dynf, next);
                assert forall|i: int| 0 <= i < statics@.len() implies record_matches(
                    #[trigger] statics@[i],
                    k[i],
                    table_base,
                    mv,
                    version_of(Seq::empty(), k[i].index),
                ) by {
                    if i < before.len() {
                        assert(statics@[i] == before[i]);
                    }
                }
                seen = next;
            }
        }
        if statics.len() > limits.max_symbols - dynamic.len() {
            proof {
                match facts_listing(data@, SymbolTable::Regular, index + 1, limits) {
                    Some(rest) => {
                        lemma_kept_grows(dynf, seen, rest);
                        assert(reg_all == Some(seen + rest));
                        assert(kept(dynf, seen).len() == statics@.len());
                    },
                    None => {},
                }
            }
            return Err(too_many_symbols(path, "artifact", limits));
        }
        index = index + 1;
    }
    let metadata = dynamic_metadata(path, data, header.is_64, header.little_endian, limits)?;
    let object_kind = match read_object(data) {
        ObjectRead::Parsed(kind) => kind,
        ObjectRead::Failed(error) => {
            return Err(corrupt(path, error));
        },
    };
    let ghost dyn_records = dynamic@;
    let ghost static_records = statics@;
    let mut symbols = dynamic;
    symbols.append(&mut statics);
    proof {
        assert(symbols@.take(dynf.len() as int) =~= dyn_records);
        assert(symbols@.skip(dynf.len() as int) =~= static_records);
    }
    Ok(ParsedArtifact { facts, object_kind, symbols, dependencies: metadata.dependencies, soname: metadata.soname })
}

/// Member `index` of an archive is admitted: within the member limit,
/// with a name within the name limit and without NUL, and its symbol tables
/// numbered within the contract.
pub open spec fn member_admitted(index: int, name: Seq<u8>, limits: InspectionLimits) -> bool {
    &&& index < usize::MAX
    &&& index + 1 <= limits.max_archive_members
    &&& !(name.len() > limits.max_name_bytes || name.contains(0u8))
    &&& index * 2 <= u32::MAX
}

/// Member `index`, read as `name` and `bytes`, is an admitted ELF
/// relocatable object that parses, of the target facts `facts` of the
/// members before it, and with `count` symbols before it the archive stays
/// within the symbol limit.
pub open spec fn member_ok(
    index: int,
    name: Seq<u8>,
    bytes: Seq<u8>,
    facts: Option<TargetFacts>,
    count: int,
    limits: InspectionLimits,
) -> bool {
    &&& member_admitted(index, name, limits)
    &&& elf_parse_ok(bytes, (index * 2) as u32, limits)
    &&& object_read(bytes) == ObjectRead::Parsed(ObjectKindTag::Relocatable)
    &&& match (facts, elf_header_facts(bytes)) {
        (Some(first), Some(member)) => same_facts(first, member),
        _ => true,
    }
    &&& count + elf_symbol_count(bytes, limits) <= limits.max_symbols
}

/// The archive's target facts after a member: those of the first member.
pub open spec fn next_facts(facts: Option<TargetFacts>, bytes: Seq<u8>) -> Option<TargetFacts> {
    match facts {
        Some(first) => Some(first),
        None => elf_header_facts(bytes),
    }
}

/// The archive members of `data` from member `index` on are all accepted
/// (see `member_ok`) after members of target facts `facts` with `count`
/// symbols; and some member was read.
pub open spec fn archive_ok_from(data: Seq<u8>, index: int, facts: Option<TargetFacts>, count: int, limits: InspectionLimits) -> bool
    decreases usize::MAX - index,
{
    if index < 0 || index >= usize::MAX {
        facts is Some
    } else {
        match archive_member_read(data, index) {
            MemberRead::End => facts is Some,
            MemberRead::Member(name, bytes) => member_ok(index, name@, bytes@, facts, count, limits) && archive_ok_from(
                data,
                index + 1,
                next_facts(facts, bytes@),
                count + elf_symbol_count(bytes@, limits),
                limits,
            ),
            _ => false,
        }
    }
}

/// Admits one archive member and parses it: gives the archive's target
/// facts so far and the member's symbols.
fn archive_member(
    path: &[u8],
    index: usize,
    facts: Option<TargetFacts>,
    count: usize,
    name: &Vec<u8>,
    bytes: &Vec<u8>,
    limits: InspectionLimits,
) -> (res: Result<(TargetFacts, Vec<SymbolRecord>), NativeError>)
    requires
        count <= limits.max_symbols,
    ensures
        res is Ok <==> member_ok(index as int, name@, bytes@, facts, count as int, limits),
        res matches Ok((f, more)) ==> {
            &&& Some(f) == next_facts(facts, bytes@)
            &&& more@.len() == elf_symbol_count(bytes@, limits)
            &&& elf_symbols(more@, bytes@, (index * 2) as u32, Some(name@), limits)
        },
{
    let (_, table_base) = admit_archive_member(path, index, name.as_slice(), limits)?;
    let parsed = parse_elf(path, bytes.as_slice(), table_base, Some(name.as_slice()), limits)?;
    let ghost member = parsed.facts;
    let kind_ok = match &parsed.object_kind {
        ObjectKindTag::Relocatable => true,
        _ => false,
    };
    let f = match admit_member_facts(path, facts, parsed.facts, parsed.object_kind) {
        Ok(f) => f,
        Err(e) => {
            return Err(e);
        },
    };
    proof {
        assert(kind_ok);
    }
    let more = parsed.symbols;
    if more.len() > limits.max_symbols - count {
        return Err(too_many_symbols(path, "archive", limits));
    }
    Ok((f, more))
}

/// `records` are the symbols of the archive members of `data` from member
/// `index` on, member after member.
pub open spec fn archive_records(data: Seq<u8>, index: int, records: Seq<SymbolRecord>, limits: InspectionLimits) -> bool
    decreases usize::MAX - index,
{
    if index < 0 || index >= usize::MAX {
        records.len() == 0
    } else {
        match archive_member_read(data, index) {
            MemberRead::Member(name, bytes) => {
                let n = elf_symbol_count(bytes@, limits);
                &&& 0 <= n <= records.len()
                &&& elf_symbols(records.take(n), bytes@, (index * 2) as u32, Some(name@), limits)
                &&& archive_records(data, index + 1, records.skip(n), limits)
            },
            _ => records.len() == 0,
        }
    }
}

/// Parses a static library: every member is an ELF relocatable object of
/// one target, under the member and symbol limits. Its symbols are those
/// of its members, in member order, and its target facts those of its
/// first member.
#[verifier::rlimit(60)]
pub fn parse_archive(path: &[u8], data: &[u8], limits: InspectionLimits) -> (res: Result<ParsedArtifact, NativeError>)
    ensures
        res is Ok <==> archive_ok_from(data@, 0, None, 0, limits),
        res matches Ok(parsed) ==> {
            &&& parsed.symbols@.len() <= limits.max_symbols
            &&& archive_records(data@, 0, parsed.symbols@, limits)
            &&& archive_member_read(data@, 0) matches MemberRead::Member(_, first) && elf_header_facts(first@) == Some(parsed.facts)
            &&& parsed.object_kind is Relocatable
            &&& parsed.dependencies@.len() == 0
            &&& parsed.soname is None
        },
{
    let mut facts: Option<TargetFacts> = None;
    let mut symbols: Vec<SymbolRecord> = Vec::new();
    let mut index: usize = 0;
    let ghost all_ok = archive_ok_from(data@, 0, None, 0, limits);
    while index < usize::MAX
        invariant
            all_ok == archive_ok_from(data@, 0, None, 0, limits),
            all_ok == archive_ok_from(data@, index as int, facts, symbols@.len() as int, limits),
            symbols@.len() <= limits.max_symbols,
            forall|rest: Seq<SymbolRecord>|
                archive_records(data@, index as int, rest, limits) ==> #[trigger] archive_records(data@, 0, symbols@ + rest, limits),
            index == 0 <==> facts is None,
            index > 0 ==> (archive_member_read(data@, 0) matches MemberRead::Member(_, first) && elf_header_facts(first@) == facts),
            index == usize::MAX ==> archive_records(data@, 0, symbols@, limits),
        ensures
            all_ok == (facts is Some),
            archive_records(data@, 0, symbols@, limits),
            symbols@.len() <= limits.max_symbols,
            facts is Some ==> (archive_member_read(data@, 0) matches MemberRead::Member(_, first) && elf_header_facts(first@) == facts),
        decreases usize::MAX - index,
    {
        let ghost i = index as int;
        let (name, bytes) = match read_archive_member(data, index) {
            MemberRead::NotArchive => {
                return Err(corrupt(path, "not an archive".to_owned()));
            },
            MemberRead::End => {
                proof {
                    assert(archive_records(data@, i, Seq::<SymbolRecord>::empty(), limits));
                    assert(symbols@ + Seq::<SymbolRecord>::empty() =~= symbols@);
                }
                break;
            },
            MemberRead::Failed(error) | MemberRead::DataFailed(error) => {
                return Err(corrupt(path, error));
            },
            MemberRead::Member(name, bytes) => (name, bytes),
        };
        let (member_facts, more) = archive_member(path, index, facts, symbols.len(), &name, &bytes, limits)?;
        facts = Some(member_facts);
        let mut more = more;
        let ghost n = more@.len() as int;
        let ghost old_symbols = symbols@;
        let ghost added = more@;
        symbols.append(&mut more);
        proof {
            assert(symbols@ =~= old_symbols + added);
            assert forall|rest: Seq<SymbolRecord>|
                archive_records(data@, i + 1, rest, limits) implies #[trigger] archive_records(data@, 0, symbols@ + rest, limits) by {
                let whole = added + rest;
                assert(whole.take(n) =~= added);
                assert(whole.skip(n) =~= rest);
                assert(archive_records(data@, i, whole, limits));
                assert(old_symbols + whole =~= symbols@ + rest);
            }
        }
        index = index + 1;
        proof {
            if index == usize::MAX {
                assert(archive_records(data@, index as int, Seq::<SymbolRecord>::empty(), limits));
                assert(symbols@ + Seq::<SymbolRecord>::empty() =~= symbols@);
            }
        }
    }
    match facts {
        Some(facts) => Ok(
            ParsedArtifact {
                facts,
                object_kind: ObjectKindTag::Relocatable,
                symbols,
                dependencies: Vec::new(),
                soname: None,
            },
        ),
        None => Err(corrupt(path, "archive has no inspectable ELF members".to_owned())),
    }
}

/// The version of the `object`-backed ELF parser.
pub const OBJECT_PARSER_VERSION: &'static str = "object-0.37.3+linc-elf-v1";

/// The version of the inspection tool.
pub const INSPECTION_TOOL_VERSION: &'static str = "linc-native-inspection-v1/object-0.37.3";

/// The content the inspector's implementation fingerprint is taken of.
pub const INSPECTION_IMPLEMENTATION: &'static str = "follang.linc.native-inspection.object-0.37.3.elf-v1";

/// Why a target is outside the certified inspection tier.
pub const UNCERTIFIED_TARGET: &'static str = "the certified native-inspection tier requires Linux ELF";

/// The certified inspection tier is Linux ELF.
pub open spec fn certified_target(target: TargetSpec) -> bool {
    target.operating_system == OperatingSystem::Linux && target.object_format == ObjectFormat::Elf
}

/// Refuses a target outside the certified inspection tier, before anything
/// is read.
pub fn admit_inspection_target(path: &[u8], target: &TargetSpec) -> (res: Result<(), NativeError>)
    ensures
        res is Ok <==> certified_target(*target),
        !certified_target(*target) ==> (res matches Err(NativeError::UnsupportedArtifact { path: p, detail }) && p@ == path@
            && detail@ == UNCERTIFIED_TARGET@),
{
    if target.operating_system != OperatingSystem::Linux || target.object_format != ObjectFormat::Elf {
        return Err(unsupported(path, UNCERTIFIED_TARGET.to_owned()));
    }
    Ok(())
}

fn format_name(format: ObjectFormat) -> (out: &'static str) {
    match format {
        ObjectFormat::Elf => "Elf",
        ObjectFormat::MachO => "MachO",
        ObjectFormat::Coff => "Coff",
        ObjectFormat::Wasm => "Wasm",
        ObjectFormat::Xcoff => "Xcoff",
    }
}

fn endian_text(endian: Endian) -> (out: &'static str) {
    match endian {
        Endian::Little => "Little",
        Endian::Big => "Big",
    }
}

/// The format, architecture, pointer width and endianness of a target.
fn shape_label(format: ObjectFormat, architecture: Architecture, pointer_width: u16, endian: Endian) -> (out: String) {
    format_name(format).to_owned().concat("/").concat(super::inspect::architecture_name(architecture)).concat("/").concat(
        decimal(pointer_width as u64).as_str(),
    ).concat("-bit/").concat(endian_text(endian))
}

/// The identity of the inspector and of the parsers it used.
fn inspection_provenance(archive: bool) -> (res: Result<InspectionProvenance, NativeError>)
    ensures
        res is Ok,
{
    proof {
        reveal_strlit("linc-native-inspection-v1/object-0.37.3");
        reveal_strlit("object-0.37.3+linc-elf-v1");
        assert(INSPECTION_TOOL_VERSION@[0] != '\0');
        assert(is_valid_text(INSPECTION_TOOL_VERSION@));
        assert(is_valid_text(OBJECT_PARSER_VERSION@));
    }
    let implementation = ContentFingerprint::from_content(INSPECTION_IMPLEMENTATION.as_bytes());
    let tool = match InspectionToolIdentity::try_new(InspectionToolKind::ObjectCrate, INSPECTION_TOOL_VERSION.to_owned(), implementation) {
        Ok(tool) => tool,
        Err(e) => {
            return Err(NativeError::Contract(e));
        },
    };
    let mut parsers: Vec<InspectionParserIdentity> = Vec::new();
    match InspectionParserIdentity::try_new(InspectionParserKind::Elf, OBJECT_PARSER_VERSION.to_owned(), implementation) {
        Ok(parser) => parsers.push(parser),
        Err(e) => {
            return Err(NativeError::Contract(e));
        },
    }
    if archive {
        match InspectionParserIdentity::try_new(InspectionParserKind::Archive, OBJECT_PARSER_VERSION.to_owned(), implementation) {
            Ok(parser) => parsers.push(parser),
            Err(e) => {
                return Err(NativeError::Contract(e));
            },
        }
    }
    match InspectionProvenance::try_new(tool, parsers) {
        Ok(provenance) => Ok(provenance),
        Err(e) => Err(NativeError::Contract(e)),
    }
}

/// The kind of provider an artifact is: a static library for an archive,
/// otherwise an object for a relocatable file and a dynamic library for a
/// shared one; other kinds are no link provider.
pub open spec fn provider_kind_of(archive: bool, kind: ObjectKindTag) -> Option<ArtifactKind> {
    if archive {
        Some(ArtifactKind::StaticLibrary)
    } else {
        match kind {
            ObjectKindTag::Relocatable => Some(ArtifactKind::Object),
            ObjectKindTag::Dynamic => Some(ArtifactKind::DynamicLibrary),
            _ => None,
        }
    }
}

/// The observed target a requested target and an artifact's facts give,
/// where the facts name a native ABI and a valid pointer width.
pub open spec fn observed_parts(target: TargetSpec, facts: TargetFacts) -> Option<ObservedTargetParts> {
    match native_abi_spec(target.operating_system == OperatingSystem::Windows, facts.architecture, facts.pointer_width) {
        None => None,
        Some(abi) => if valid_pointer_width(facts.pointer_width) {
            Some(
                ObservedTargetParts {
                    target_fingerprint: target.fingerprint,
                    architecture: facts.architecture,
                    operating_system: target.operating_system,
                    environment: target.environment,
                    object_format: ObjectFormat::Elf,
                    endian: facts.endian,
                    pointer_width: facts.pointer_width,
                    abi,
                    linker: linker_for(target.object_format, target.environment),
                    crt: crt_for(target.environment, target.operating_system),
                },
            )
        } else {
            None
        },
    }
}

/// Observed parts match a requested target.
pub open spec fn parts_match(p: ObservedTargetParts, target: TargetSpec) -> bool {
    &&& p.target_fingerprint@ == target.fingerprint@
    &&& p.architecture == target.architecture
    &&& p.operating_system == target.operating_system
    &&& p.environment == target.environment
    &&& p.object_format == target.object_format
    &&& p.endian == target.endian
    &&& p.pointer_width == target.pointer_width
    &&& abi_matches_spec(p.abi, target)
    &&& linker_matches_spec(p.linker, target)
    &&& crt_matches_spec(p.crt, target)
}

/// What the bytes of an artifact parse to: its target facts, whether it is
/// an archive, and the object kind `object` reports; nothing where the
/// bytes are neither an archive nor ELF or do not parse.
pub open spec fn artifact_parse(bytes: Seq<u8>, limits: InspectionLimits) -> Option<(TargetFacts, bool, ObjectKindTag)> {
    match file_kind_read(bytes) {
        FileKindRead::Archive => if archive_ok_from(bytes, 0, None, 0, limits) {
            match archive_member_read(bytes, 0) {
                MemberRead::Member(_, first) => match elf_header_facts(first@) {
                    Some(f) => Some((f, true, ObjectKindTag::Relocatable)),
                    None => None,
                },
                _ => None,
            }
        } else {
            None
        },
        FileKindRead::Elf32 | FileKindRead::Elf64 => if elf_parse_ok(bytes, 0, limits) {
            match (elf_header_facts(bytes), object_read(bytes)) {
                (Some(f), ObjectRead::Parsed(k)) => Some((f, false, k)),
                _ => None,
            }
        } else {
            None
        },
        _ => None,
    }
}

/// Inspecting `bytes` read at `path` for `target` succeeds: the target is
/// certified, the bytes parse, the artifact is the expected kind of
/// provider, its facts give an observed target that matches, and the path
/// is normalized and absolute.
pub open spec fn inspection_ok(path: Seq<u8>, bytes: Seq<u8>, expected: ArtifactKind, target: TargetSpec, limits: InspectionLimits) -> bool {
    &&& certified_target(target)
    &&& match artifact_parse(bytes, limits) {
        Some((facts, archive, kind)) => provider_kind_of(archive, kind) == Some(expected) && match observed_parts(target, facts) {
            Some(p) => parts_match(p, target),
            None => false,
        },
        None => false,
    }
    &&& is_normalized_absolute(path)
}

impl NativeInspector {
    /// Inspects one provider artifact from the bytes read at its canonical
    /// `path`: a static archive or an ELF object is parsed, its kind must be
    /// the one expected, its target facts must match `target`, and the
    /// artifact is identified by its content. It answers to its file name
    /// and to its soname.
    pub fn inspect_bytes(
        &self,
        path: Vec<u8>,
        bytes: &[u8],
        file_name: Option<Vec<u8>>,
        expected: ArtifactKind,
        resolution: ProviderResolution,
        provenance: ProviderProvenance,
        target: &TargetSpec,
    ) -> (res: Result<ArtifactInspection, NativeError>)
        ensures
            !certified_target(*target) ==> (res matches Err(NativeError::UnsupportedArtifact { path: p, detail }) && p@ == path@
                && detail@ == UNCERTIFIED_TARGET@),
            res is Ok <==> inspection_ok(path@, bytes@, expected, *target, self.spec_limits()),
            certified_target(*target) && file_kind_read(bytes@) is Failed ==> res matches Err(NativeError::CorruptArtifact { .. }),
            certified_target(*target) && file_kind_read(bytes@) is Other ==> res matches Err(NativeError::UnsupportedArtifact { .. }),
            certified_target(*target) ==> match artifact_parse(bytes@, self.spec_limits()) {
                Some((facts, archive, kind)) => match provider_kind_of(archive, kind) {
                    None => res matches Err(NativeError::UnsupportedArtifact { .. }),
                    Some(o) => if o != expected {
                        res matches Err(NativeError::ArtifactKindMismatch { .. })
                    } else {
                        match observed_parts(*target, facts) {
                            Some(p) => !parts_match(p, *target) ==> res matches Err(NativeError::TargetMismatch { .. }),
                            None => res is Err,
                        }
                    },
                },
                None => res is Err,
            },
            res matches Ok(inspection) ==> {
                let artifact = inspection.spec_artifact();
                &&& (if file_kind_read(bytes@) is Archive {
                    &&& archive_records(bytes@, 0, inspection.spec_symbols(), self.spec_limits())
                    &&& inspection.spec_dependencies().len() == 0
                } else {
                    &&& elf_symbols(inspection.spec_symbols(), bytes@, 0, None, self.spec_limits())
                    &&& object_header_read(bytes@) matches HeaderRead::Parsed(h) && dynamic_info(bytes@, h.is_64, h.little_endian, self.spec_limits())
                        matches Some((deps, soname)) && needed_from_table(inspection.spec_dependencies(), deps) && (soname matches Some(s)
                        ==> inspection.spec_provided_names().contains(s))
                })
                &&& (file_name matches Some(n) ==> inspection.spec_provided_names().contains(n@))
                &&& certified_target(*target)
                &&& (super::elf_read::file_kind_read(bytes@) is Archive || super::elf_read::file_kind_read(bytes@) is Elf32
                    || super::elf_read::file_kind_read(bytes@) is Elf64)
                &&& artifact.spec_fingerprint()@ == digest_spec(encode_utf8(ARTIFACT_FINGERPRINT_DOMAIN@), seq![bytes@])
                &&& artifact.spec_path() == path@
                &&& artifact.spec_kind() == expected
                &&& artifact.spec_resolution() == resolution
                &&& artifact.spec_provenance() == provenance
                &&& artifact.spec_observed_target().matches_spec(*target)
                &&& inspection.spec_symbols().len() <= self.spec_limits().max_symbols
                &&& (super::elf_read::file_kind_read(bytes@) is Archive ==> inspection.spec_dependencies().len() == 0)
            },
    {
        admit_inspection_target(path.as_slice(), target)?;
        let limits = self.limits();
        let (archive, parsed) = match read_file_kind(bytes) {
            FileKindRead::Archive => (true, parse_archive(path.as_slice(), bytes, limits)?),
            FileKindRead::Elf32 | FileKindRead::Elf64 => (false, parse_elf(path.as_slice(), bytes, 0, None, limits)?),
            FileKindRead::Failed(error) => {
                return Err(corrupt(path.as_slice(), error));
            },
            FileKindRead::Other(kind) => {
                return Err(
                    unsupported(path.as_slice(), "only archive and ELF inputs are certified, got ".to_owned().concat(kind.as_str())),
                );
            },
        };
        let ghost whole = parsed;
        proof {
            if archive {
                assert(file_kind_read(bytes@) is Archive);
            } else {
                assert(elf_parsed(whole, bytes@, 0, None, limits));
            }
        }
        let ParsedArtifact { facts, object_kind, symbols, dependencies, soname } = parsed;
        provider_kind(path.as_slice(), archive, object_kind, expected)?;
        let observed = target_from_facts(target, facts)?;
        if !observed.matches_target(target) {
            return Err(
                NativeError::TargetMismatch {
                    path: path.clone(),
                    requested: target.triple.clone().concat("/").concat(
                        shape_label(target.object_format, target.architecture, target.pointer_width, target.endian).as_str(),
                    ),
                    observed: shape_label(observed.object_format(), observed.architecture(), observed.pointer_width(), observed.endian()),
                },
            );
        }
        let artifact = match ResolvedArtifact::try_new(
            ResolvedArtifactInput {
                artifact_fingerprint: ArtifactFingerprint::from_content(bytes),
                canonical_path: path,
                kind: expected,
                resolution,
                provenance,
                observed_target: observed,
            },
        ) {
            Ok(artifact) => artifact,
            Err(e) => {
                return Err(NativeError::Contract(e));
            },
        };
        let mut inspection = ArtifactInspection::new(artifact, inspection_provenance(archive)?, symbols, dependencies);
        let ghost fresh = inspection.spec_provided_names();
        match &file_name {
            Some(name) => inspection.add_provided_name(Some(name.as_slice())),
            None => inspection.add_provided_name(None),
        }
        let ghost named = inspection.spec_provided_names();
        match &soname {
            Some(name) => inspection.add_provided_name(Some(name.as_slice())),
            None => inspection.add_provided_name(None),
        }
        proof {
            if let Some(n) = file_name {
                assert(named.contains(n@)) by {
                    if !fresh.contains(n@) {
                        assert(named[named.len() - 1] == n@);
                    }
                }
                assert(inspection.spec_provided_names().contains(n@)) by {
                    let k = choose|k: int| 0 <= k < named.len() && named[k] == n@;
                    assert(inspection.spec_provided_names()[k] == n@);
                }
            }
            if let Some(o) = soname {
                assert(inspection.spec_provided_names().contains(o@)) by {
                    if !named.contains(o@) {
                        assert(inspection.spec_provided_names().last() == o@);
                    }
                }
            }
        }
        Ok(inspection)
    }
}

} // verus!
