//! A flat inventory of the symbols an object or library defines: the
//! decoding of ELF symbol flags, and the listing of an object file's or a
//! static library's symbols as the `object` crate reads them.
use vstd::prelude::*;

use crate::text::str_eq;
use object::read::archive::ArchiveFile;
use object::{Object, ObjectSection, ObjectSymbol, SectionIndex, SymbolFlags, SymbolKind};
use vstd::string::StringExecFns;

verus! {

#[derive(Debug, Clone, PartialEq, Eq)]
pub enum ArtifactFormat {
    ElfObject,
    ElfStaticLibrary,
    ElfSharedLibrary,
    Unknown(String),
}

#[derive(Debug, Clone, Copy, PartialEq, Eq, Structural)]
pub enum SymbolVisibility {
    Default,
    Hidden,
    Protected,
    Internal,
    Unknown,
}

#[derive(Debug, Clone, Copy, PartialEq, Eq, Structural)]
pub enum SymbolBinding {
    Local,
    Global,
    Weak,
    Unknown,
}

/// One defined symbol.
#[derive(Debug, Clone, PartialEq, Eq)]
pub struct SymbolEntry {
    pub name: String,
    pub visibility: SymbolVisibility,
    pub is_function: bool,
    pub binding: SymbolBinding,
    pub size: Option<u64>,
    pub section: Option<String>,
}

/// The symbols one artifact defines.
#[derive(Debug, Clone, PartialEq, Eq)]
pub struct SymbolInventory {
    pub artifact_path: String,
    pub format: ArtifactFormat,
    pub symbols: Vec<SymbolEntry>,
}

/// Some symbol is named `name`.
pub open spec fn has_symbol_spec(symbols: Seq<SymbolEntry>, name: Seq<char>) -> bool {
    exists|i: int| 0 <= i < symbols.len() && #[trigger] symbols[i].name@ == name
}

/// The names of the function symbols, in inventory order.
pub open spec fn function_names_spec(symbols: Seq<SymbolEntry>) -> Seq<Seq<char>>
    decreases symbols.len(),
{
    if symbols.len() == 0 {
        Seq::empty()
    } else if symbols.last().is_function {
        function_names_spec(symbols.drop_last()).push(symbols.last().name@)
    } else {
        function_names_spec(symbols.drop_last())
    }
}

impl SymbolInventory {
    /// Whether a symbol named `name` is present.
    pub fn has_symbol(&self, name: &str) -> (out: bool)
        ensures
            out == has_symbol_spec(self.symbols@, name@),
    {
        let mut i: usize = 0;
        while i < self.symbols.len()
            invariant
                i <= self.symbols@.len(),
                forall|j: int| 0 <= j < i ==> #[trigger] self.symbols@[j].name@ != name@,
            decreases self.symbols@.len() - i,
        {
            if str_eq(self.symbols[i].name.as_str(), name) {
                return true;
            }
            i = i + 1;
        }
        false
    }

    /// The names of the function symbols, in inventory order.
    pub fn function_names(&self) -> (out: Vec<&str>)
        ensures
            out@.map_values(|s: &str| s@) == function_names_spec(self.symbols@),
    {
        let mut out: Vec<&str> = Vec::new();
        let mut i: usize = 0;
        while i < self.symbols.len()
            invariant
                i <= self.symbols@.len(),
                out@.map_values(|s: &str| s@) == function_names_spec(self.symbols@.take(i as int)),
            decreases self.symbols@.len() - i,
        {
            proof {
                assert(self.symbols@.take(i + 1).drop_last() =~= self.symbols@.take(i as int));
            }
            if self.symbols[i].is_function {
                out.push(self.symbols[i].name.as_str());
            }
            proof {
                assert(out@.map_values(|s: &str| s@) =~= function_names_spec(self.symbols@.take(i + 1)));
            }
            i = i + 1;
        }
        proof {
            assert(self.symbols@.take(self.symbols@.len() as int) =~= self.symbols@);
        }
        out
    }
}

/// The visibility recorded in the low two bits of an ELF `st_other`.
pub open spec fn visibility_spec(st_other: u8) -> SymbolVisibility {
    let v = st_other % 4;
    if v == 0 {
        SymbolVisibility::Default
    } else if v == 1 {
        SymbolVisibility::Internal
    } else if v == 2 {
        SymbolVisibility::Hidden
    } else {
        SymbolVisibility::Protected
    }
}

/// The binding recorded in the high four bits of an ELF `st_info`.
pub open spec fn binding_spec(st_info: u8) -> SymbolBinding {
    let b = st_info / 16;
    if b == 0 {
        SymbolBinding::Local
    } else if b == 1 {
        SymbolBinding::Global
    } else if b == 2 {
        SymbolBinding::Weak
    } else {
        SymbolBinding::Unknown
    }
}

/// Decodes an ELF symbol's `st_info` and `st_other` bytes into its binding
/// and visibility.
pub fn elf_symbol_flags(st_info: u8, st_other: u8) -> (out: (SymbolVisibility, SymbolBinding))
    ensures
        out.0 == visibility_spec(st_other),
        out.1 == binding_spec(st_info),
{
    let vis_bits = st_other & 3;
    let bind_bits = st_info >> 4;
    assert(vis_bits == st_other % 4) by (bit_vector)
        requires
            vis_bits == st_other & 3,
    ;
    assert(bind_bits == st_info / 16) by (bit_vector)
        requires
            bind_bits == st_info >> 4,
    ;
    let visibility = match vis_bits {
        0 => SymbolVisibility::Default,
        1 => SymbolVisibility::Internal,
        2 => SymbolVisibility::Hidden,
        3 => SymbolVisibility::Protected,
        _ => SymbolVisibility::Unknown,
    };
    let binding = match bind_bits {
        0 => SymbolBinding::Local,
        1 => SymbolBinding::Global,
        2 => SymbolBinding::Weak,
        _ => SymbolBinding::Unknown,
    };
    (visibility, binding)
}

/// A symbol's size, when nonzero.
pub fn nonzero_size(size: u64) -> (out: Option<u64>)
    ensures
        size > 0 ==> out == Some(size),
        size == 0 ==> out is None,
{
    if size > 0 {
        Some(size)
    } else {
        None
    }
}


// ---------------------------------------------------------------------------
// Reading an artifact with the `object` crate
// ---------------------------------------------------------------------------

/// One member of a buffer read as an archive.
#[derive(Debug)]
pub enum MemberRead {
    /// The buffer is not an archive.
    NotArchive,
    /// No member at this position.
    End,
    /// The member header could not be read.
    Failed(String),
    /// The member's data could not be read.
    DataFailed(String),
    /// The member's name and data.
    Member(Vec<u8>, Vec<u8>),
}

/// The kind of object file `object` reports.
#[derive(Debug)]
pub enum ObjectKindTag {
    Unknown,
    Relocatable,
    Executable,
    Dynamic,
    Core,
    Other(String),
}

/// A buffer read as one object file.
#[derive(Debug)]
pub enum ObjectRead {
    Failed(String),
    Parsed(ObjectKindTag),
}

/// The symbol table of an object file.
#[derive(Debug, Clone, Copy, PartialEq, Eq, Structural)]
pub enum SymbolTable {
    Regular,
    Dynamic,
}

/// Whether `object` reports a symbol as executable code.
#[derive(Debug, Clone, Copy, PartialEq, Eq, Structural)]
pub enum SymbolKindTag {
    Text,
    Other,
}

/// The facts of one symbol as `object` reports them.
#[derive(Debug)]
pub struct RawObjectSymbol {
    pub name: Option<String>,
    pub definition: bool,
    pub kind: SymbolKindTag,
    pub elf_flags: Option<(u8, u8)>,
    pub size: u64,
    pub section_index: Option<usize>,
}

/// One entry of a symbol table.
#[derive(Debug)]
pub enum SymbolRead {
    End,
    Entry(RawObjectSymbol),
}

/// What `object` reads as the member at `index` of `data` taken as an archive.
pub uninterp spec fn archive_member_read(data: Seq<u8>, index: int) -> MemberRead;

/// What `object` reads from `data` taken as one object file.
pub uninterp spec fn object_read(data: Seq<u8>) -> ObjectRead;

/// What `object` reads as the entry at `index` of a symbol table of `data`.
pub uninterp spec fn object_symbol_read(data: Seq<u8>, table: SymbolTable, index: int) -> SymbolRead;

/// `object::read::archive::ArchiveFile::parse` on `data`, then the member
/// at `index` of its member iterator and that member's data. The result is
/// a function of the bytes and the index alone; what it is, is not stated.
#[verifier::external_body]
pub(crate) fn read_archive_member(data: &[u8], index: usize) -> (out: MemberRead)
    ensures
        out == archive_member_read(data@, index as int),
{
    match ArchiveFile::parse(data) {
        Err(_) => MemberRead::NotArchive,
        Ok(archive) => match archive.members().nth(index) {
            None => MemberRead::End,
            Some(Err(error)) => MemberRead::Failed(error.to_string()),
            Some(Ok(member)) => match member.data(data) {
                Ok(bytes) => MemberRead::Member(member.name().to_vec(), bytes.to_vec()),
                Err(error) => MemberRead::DataFailed(error.to_string()),
            },
        },
    }
}

/// `object::File::parse` on `data`, then the file's `kind`. The result is a
/// function of the bytes alone; what it is, is not stated.
#[verifier::external_body]
pub(crate) fn read_object(data: &[u8]) -> (out: ObjectRead)
    ensures
        out == object_read(data@),
{
    match object::File::parse(data) {
        Err(error) => ObjectRead::Failed(error.to_string()),
        Ok(file) => ObjectRead::Parsed(match file.kind() {
            object::ObjectKind::Unknown => ObjectKindTag::Unknown,
            object::ObjectKind::Relocatable => ObjectKindTag::Relocatable,
            object::ObjectKind::Executable => ObjectKindTag::Executable,
            object::ObjectKind::Dynamic => ObjectKindTag::Dynamic,
            object::ObjectKind::Core => ObjectKindTag::Core,
            other => ObjectKindTag::Other(format!("{:?}", other)),
        }),
    }
}

/// What `object` reads as the name of section `index` of `data`.
pub uninterp spec fn object_section_name(data: Seq<u8>, index: int) -> Option<String>;

/// `object::File::parse` on `data`, then the name of the section at `index`
/// (`section_by_index`, then `name`). The result is a function of the bytes
/// and the index alone; what it is, is not stated.
#[verifier::external_body]
fn read_section_name(data: &[u8], index: usize) -> (out: Option<String>)
    ensures
        out == object_section_name(data@, index as int),
{
    let file = object::File::parse(data).ok()?;
    let section = file.section_by_index(SectionIndex(index)).ok()?;
    section.name().ok().map(str::to_owned)
}

/// `object::File::parse` on `data`, then the entry at `index` of its regular
/// or dynamic symbol table: name, whether defined, kind, ELF flags, size and
/// section index. The result is a function of its arguments alone; what it
/// is, is not stated.
#[verifier::external_body]
pub(crate) fn read_symbol(data: &[u8], table: SymbolTable, index: usize) -> (out: SymbolRead)
    ensures
        out == object_symbol_read(data@, table, index as int),
{
    let Ok(file) = object::File::parse(data) else { return SymbolRead::End };
    let found = match table {
        SymbolTable::Regular => file.symbols().nth(index),
        SymbolTable::Dynamic => file.dynamic_symbols().nth(index),
    };
    let Some(symbol) = found else { return SymbolRead::End };
    let kind = match symbol.kind() { SymbolKind::Text => SymbolKindTag::Text, _ => SymbolKindTag::Other };
    let elf_flags = match symbol.flags() { SymbolFlags::Elf { st_info, st_other } => Some((st_info, st_other)), _ => None };
    let section_index = symbol.section_index().map(|i| i.0);
    SymbolRead::Entry(RawObjectSymbol { name: symbol.name().ok().map(str::to_owned), definition: symbol.is_definition(), kind, elf_flags, size: symbol.size(), section_index })
}

/// A symbol is listed when it has a nonempty name and is defined.
pub open spec fn listed(raw: RawObjectSymbol) -> bool {
    raw.name matches Some(n) && n@.len() > 0 && raw.definition
}

/// The entry a listed symbol becomes.
pub open spec fn entry_matches(entry: SymbolEntry, raw: RawObjectSymbol, data: Seq<u8>) -> bool {
    &&& raw.name == Some(entry.name)
    &&& entry.is_function == (raw.kind == SymbolKindTag::Text)
    &&& match raw.elf_flags {
        Some((st_info, st_other)) => entry.visibility == visibility_spec(st_other) && entry.binding == binding_spec(st_info),
        None => entry.visibility == SymbolVisibility::Unknown && entry.binding == SymbolBinding::Unknown,
    }
    &&& entry.size == (if raw.size > 0 { Some(raw.size) } else { None::<u64> })
    &&& entry.section == match raw.section_index {
        Some(i) => object_section_name(data, i as int),
        None => None::<String>,
    }
}

/// `entries` lists, in table order, the listed symbols of the entries of
/// `table` in `data` from position `index` on, up to the first position the
/// table lacks or `bound`.
pub open spec fn table_listing(data: Seq<u8>, table: SymbolTable, index: int, bound: int, entries: Seq<SymbolEntry>) -> bool
    decreases bound - index,
{
    if index >= bound {
        entries.len() == 0
    } else {
        match object_symbol_read(data, table, index) {
            SymbolRead::End => entries.len() == 0,
            SymbolRead::Entry(raw) => if listed(raw) {
                entries.len() > 0 && entry_matches(entries[0], raw, data) && table_listing(data, table, index + 1, bound, entries.drop_first())
            } else {
                table_listing(data, table, index + 1, bound, entries)
            },
        }
    }
}

/// The entry for a listed symbol.
fn entry_of(data: &[u8], raw: RawObjectSymbol) -> (out: SymbolEntry)
    requires
        listed(raw),
    ensures
        entry_matches(out, raw, data@),
{
    let (visibility, binding) = match raw.elf_flags {
        Some((st_info, st_other)) => elf_symbol_flags(st_info, st_other),
        None => (SymbolVisibility::Unknown, SymbolBinding::Unknown),
    };
    let name = match raw.name {
        Some(n) => n,
        None => String::new(),
    };
    SymbolEntry {
        name,
        visibility,
        is_function: raw.kind == SymbolKindTag::Text,
        binding,
        size: nonzero_size(raw.size),
        section: match raw.section_index {
            Some(i) => read_section_name(data, i),
            None => None,
        },
    }
}

/// The listed symbols of one table of `data`, in table order.
fn table_symbols(data: &[u8], table: SymbolTable) -> (out: Vec<SymbolEntry>)
    ensures
        table_listing(data@, table, 0, data@.len() as int, out@),
{
    let mut out: Vec<SymbolEntry> = Vec::new();
    let mut index: usize = 0;
    let bound = data.len();
    while index < bound
        invariant
            index <= bound,
            bound == data@.len(),
            forall|rest: Seq<SymbolEntry>|
                table_listing(data@, table, index as int, bound as int, rest) ==> #[trigger] table_listing(
                    data@,
                    table,
                    0,
                    bound as int,
                    out@ + rest,
                ),
        decreases bound - index,
    {
        match read_symbol(data, table, index) {
            SymbolRead::End => {
                proof {
                    assert(table_listing(data@, table, index as int, bound as int, Seq::<SymbolEntry>::empty()));
                    assert(out@ + Seq::<SymbolEntry>::empty() =~= out@);
                }
                return out;
            },
            SymbolRead::Entry(raw) => {
                let keep = match &raw.name {
                    Some(n) => n.as_str().unicode_len() > 0 && raw.definition,
                    None => false,
                };
                if keep {
                    let ghost before = out@;
                    let ghost r = raw;
                    let entry = entry_of(data, raw);
                    out.push(entry);
                    proof {
                        assert forall|rest: Seq<SymbolEntry>|
                            table_listing(data@, table, index + 1, bound as int, rest) implies #[trigger] table_listing(
                                data@,
                                table,
                                0,
                                bound as int,
                                out@ + rest,
                            ) by {
                            let whole = seq![entry] + rest;
                            assert(whole.drop_first() =~= rest);
                            assert(table_listing(data@, table, index as int, bound as int, whole));
                            assert(before + whole =~= out@ + rest);
                        }
                    }
                }
            },
        }
        index = index + 1;
    }
    proof {
        assert(table_listing(data@, table, index as int, bound as int, Seq::<SymbolEntry>::empty()));
        assert(out@ + Seq::<SymbolEntry>::empty() =~= out@);
    }
    out
}

/// `entries` lists the listed symbols of both tables of `data`: the
/// regular table first, then the dynamic one.
pub open spec fn object_listing(data: Seq<u8>, entries: Seq<SymbolEntry>) -> bool {
    exists|regular: Seq<SymbolEntry>, dynamic: Seq<SymbolEntry>|
        table_listing(data, SymbolTable::Regular, 0, data.len() as int, regular) && table_listing(
            data,
            SymbolTable::Dynamic,
            0,
            data.len() as int,
            dynamic,
        ) && #[trigger] (regular + dynamic) == entries
}

/// The listed symbols of both tables of `data` (see `object_listing`).
pub open spec fn object_entries(data: Seq<u8>) -> Seq<SymbolEntry> {
    choose|entries: Seq<SymbolEntry>| object_listing(data, entries)
}

/// A table lists its symbols one way only.
proof fn lemma_table_listing_unique(
    data: Seq<u8>,
    table: SymbolTable,
    index: int,
    bound: int,
    a: Seq<SymbolEntry>,
    b: Seq<SymbolEntry>,
)
    requires
        table_listing(data, table, index, bound, a),
        table_listing(data, table, index, bound, b),
    ensures
        a == b,
    decreases bound - index,
{
    if index < bound {
        match object_symbol_read(data, table, index) {
            SymbolRead::End => {
                assert(a =~= b);
            },
            SymbolRead::Entry(raw) => {
                if listed(raw) {
                    lemma_table_listing_unique(data, table, index + 1, bound, a.drop_first(), b.drop_first());
                    assert(a[0] == b[0]);
                    assert(a =~= seq![a[0]] + a.drop_first());
                    assert(b =~= seq![b[0]] + b.drop_first());
                } else {
                    lemma_table_listing_unique(data, table, index + 1, bound, a, b);
                }
            },
        }
    } else {
        assert(a =~= b);
    }
}

/// An object file lists its symbols one way only.
proof fn lemma_object_entries(data: Seq<u8>, entries: Seq<SymbolEntry>)
    requires
        object_listing(data, entries),
    ensures
        object_entries(data) == entries,
{
    let other = object_entries(data);
    let (r1, d1) = choose|regular: Seq<SymbolEntry>, dynamic: Seq<SymbolEntry>|
        table_listing(data, SymbolTable::Regular, 0, data.len() as int, regular) && table_listing(
            data,
            SymbolTable::Dynamic,
            0,
            data.len() as int,
            dynamic,
        ) && #[trigger] (regular + dynamic) == entries;
    let (r2, d2) = choose|regular: Seq<SymbolEntry>, dynamic: Seq<SymbolEntry>|
        table_listing(data, SymbolTable::Regular, 0, data.len() as int, regular) && table_listing(
            data,
            SymbolTable::Dynamic,
            0,
            data.len() as int,
            dynamic,
        ) && #[trigger] (regular + dynamic) == other;
    lemma_table_listing_unique(data, SymbolTable::Regular, 0, data.len() as int, r1, r2);
    lemma_table_listing_unique(data, SymbolTable::Dynamic, 0, data.len() as int, d1, d2);
}

/// `acc` followed by each entry of `new` whose name neither `acc` nor an
/// earlier entry of `new` already holds.
pub open spec fn add_unseen(acc: Seq<SymbolEntry>, new: Seq<SymbolEntry>) -> Seq<SymbolEntry>
    decreases new.len(),
{
    if new.len() == 0 {
        acc
    } else {
        let next = if has_symbol_spec(acc, new[0].name@) {
            acc
        } else {
            acc.push(new[0])
        };
        add_unseen(next, new.drop_first())
    }
}

/// No two entries share a name.
pub open spec fn names_distinct(s: Seq<SymbolEntry>) -> bool {
    forall|i: int, j: int| 0 <= i < j < s.len() ==> (#[trigger] s[i]).name@ != (#[trigger] s[j]).name@
}

/// Adding the unseen entries keeps what was listed, in front, lists every
/// name of `new`, and adds no name twice.
pub proof fn lemma_add_unseen(acc: Seq<SymbolEntry>, new: Seq<SymbolEntry>)
    requires
        names_distinct(acc),
    ensures
        names_distinct(add_unseen(acc, new)),
        add_unseen(acc, new).len() >= acc.len(),
        add_unseen(acc, new).take(acc.len() as int) == acc,
        forall|k: int| 0 <= k < new.len() ==> has_symbol_spec(add_unseen(acc, new), (#[trigger] new[k]).name@),
    decreases new.len(),
{
    if new.len() > 0 {
        let next = if has_symbol_spec(acc, new[0].name@) { acc } else { acc.push(new[0]) };
        if !has_symbol_spec(acc, new[0].name@) {
            assert forall|i: int, j: int| 0 <= i < j < next.len() implies (#[trigger] next[i]).name@ != (#[trigger] next[j]).name@ by {
                if j == acc.len() {
                    assert(next[i] == acc[i]);
                    assert(acc[i].name@ != new[0].name@);
                }
            }
        }
        assert(has_symbol_spec(next, new[0].name@)) by {
            if !has_symbol_spec(acc, new[0].name@) {
                assert(next[acc.len() as int].name@ == new[0].name@);
            }
        }
        lemma_add_unseen(next, new.drop_first());
        let r = add_unseen(next, new.drop_first());
        assert(r.take(acc.len() as int) =~= acc) by {
            assert(r.take(next.len() as int) == next);
            assert forall|i: int| 0 <= i < acc.len() implies r.take(acc.len() as int)[i] == acc[i] by {
                assert(r.take(next.len() as int)[i] == next[i]);
            }
        }
        assert(has_symbol_spec(r, new[0].name@)) by {
            let i = choose|i: int| 0 <= i < next.len() && #[trigger] next[i].name@ == new[0].name@;
            assert(r.take(next.len() as int)[i] == next[i]);
            assert(r[i] == next[i]);
        }
        assert forall|k: int| 0 <= k < new.len() implies has_symbol_spec(r, (#[trigger] new[k]).name@) by {
            if k > 0 {
                assert(new[k] == new.drop_first()[k - 1]);
            }
        }
    }
}

/// An archive is listed with each symbol name once, whatever its members
/// hold.
pub proof fn lemma_archive_names_once(data: Seq<u8>, index: int, bound: int, acc: Seq<SymbolEntry>, r: Seq<SymbolEntry>)
    requires
        names_distinct(acc),
        archive_listing(data, index, bound, acc, Ok(r)),
    ensures
        names_distinct(r),
    decreases bound - index,
{
    if index < bound {
        match archive_member_read(data, index) {
            MemberRead::Member(_, bytes) => match object_read(bytes@) {
                ObjectRead::Failed(_) => lemma_archive_names_once(data, index + 1, bound, acc, r),
                ObjectRead::Parsed(_) => {
                    lemma_add_unseen(acc, object_entries(bytes@));
                    lemma_archive_names_once(data, index + 1, bound, add_unseen(acc, object_entries(bytes@)), r);
                },
            },
            _ => {},
        }
    }
}

pub const MEMBER_READ_FAILURE: &'static str = "failed to read archive member: ";

pub const MEMBER_DATA_FAILURE: &'static str = "failed to read archive member data: ";

/// `result` is what listing the archive `data` gives from member `index`
/// on, with `acc` listed so far: members that parse as object files add
/// their symbols whose names are new; other members are passed over; a
/// member that cannot be read ends the listing with its error.
pub open spec fn archive_listing(
    data: Seq<u8>,
    index: int,
    bound: int,
    acc: Seq<SymbolEntry>,
    result: Result<Seq<SymbolEntry>, Seq<char>>,
) -> bool
    decreases bound - index,
{
    if index >= bound {
        result == Ok::<Seq<SymbolEntry>, Seq<char>>(acc)
    } else {
        match archive_member_read(data, index) {
            MemberRead::NotArchive => result == Ok::<Seq<SymbolEntry>, Seq<char>>(acc),
            MemberRead::End => result == Ok::<Seq<SymbolEntry>, Seq<char>>(acc),
            MemberRead::Failed(e) => result == Err::<Seq<SymbolEntry>, Seq<char>>(MEMBER_READ_FAILURE@ + e@),
            MemberRead::DataFailed(e) => result == Err::<Seq<SymbolEntry>, Seq<char>>(MEMBER_DATA_FAILURE@ + e@),
            MemberRead::Member(_, bytes) => match object_read(bytes@) {
                ObjectRead::Failed(_) => archive_listing(data, index + 1, bound, acc, result),
                ObjectRead::Parsed(_) => archive_listing(data, index + 1, bound, add_unseen(acc, object_entries(bytes@)), result),
            },
        }
    }
}

/// The format an object file of this kind is.
pub open spec fn format_of(format: ArtifactFormat, kind: ObjectKindTag) -> bool {
    match kind {
        ObjectKindTag::Executable | ObjectKindTag::Dynamic => format == ArtifactFormat::ElfSharedLibrary,
        ObjectKindTag::Relocatable => format == ArtifactFormat::ElfObject,
        ObjectKindTag::Unknown => format matches ArtifactFormat::Unknown(s) && s@ == "Unknown"@,
        ObjectKindTag::Core => format matches ArtifactFormat::Unknown(s) && s@ == "Core"@,
        ObjectKindTag::Other(d) => format matches ArtifactFormat::Unknown(s) && s@ == d@,
    }
}

/// A parsed object file is listed as a shared library exactly when it is a
/// dynamic (`ET_DYN`) or executable object, and as a relocatable object file
/// exactly when it is relocatable; no other kind takes either format.
pub proof fn lemma_object_format_follows_kind(format: ArtifactFormat, kind: ObjectKindTag)
    requires
        format_of(format, kind),
    ensures
        format == ArtifactFormat::ElfSharedLibrary <==> (kind is Dynamic || kind is Executable),
        format == ArtifactFormat::ElfObject <==> kind is Relocatable,
        format != ArtifactFormat::ElfStaticLibrary,
{
}

/// The listed symbols of both tables of one object file.
fn object_symbols(data: &[u8]) -> (out: Vec<SymbolEntry>)
    ensures
        object_listing(data@, out@),
{
    let mut regular = table_symbols(data, SymbolTable::Regular);
    let dynamic = table_symbols(data, SymbolTable::Dynamic);
    let ghost r = regular@;
    let mut dynamic = dynamic;
    regular.append(&mut dynamic);
    proof {
        assert(table_listing(data@, SymbolTable::Regular, 0, data@.len() as int, r));
    }
    regular
}

/// Whether some entry of `acc` is named `name`.
fn holds_name(acc: &Vec<SymbolEntry>, name: &str) -> (out: bool)
    ensures
        out == has_symbol_spec(acc@, name@),
{
    let mut i: usize = 0;
    while i < acc.len()
        invariant
            i <= acc@.len(),
            forall|j: int| 0 <= j < i ==> #[trigger] acc@[j].name@ != name@,
        decreases acc@.len() - i,
    {
        if str_eq(acc[i].name.as_str(), name) {
            return true;
        }
        i = i + 1;
    }
    false
}

/// Appends each entry of `new` whose name `acc` does not hold yet.
fn push_unseen(acc: &mut Vec<SymbolEntry>, new: Vec<SymbolEntry>)
    ensures
        final(acc)@ == add_unseen(old(acc)@, new@),
{
    let ghost start = acc@;
    let mut rest = new;
    while rest.len() > 0
        invariant
            add_unseen(start, new@) == add_unseen(acc@, rest@),
        decreases rest@.len(),
    {
        let ghost before = acc@;
        let ghost r = rest@;
        let entry = rest.remove(0);
        proof {
            assert(rest@ =~= r.drop_first());
            assert(entry == r[0]);
        }
        let seen = holds_name(acc, entry.name.as_str());
        if !seen {
            acc.push(entry);
        }
        proof {
            assert(add_unseen(before, r) == add_unseen(acc@, rest@));
        }
    }
    proof {
        assert(rest@.len() == 0);
    }
}

/// The symbols an object file or static library defines. An archive lists
/// the symbols of its object members, each name once, first occurrence
/// first; a member that is not an object file is passed over. Anything else
/// is read as one object file, regular symbols before dynamic ones.
pub fn inspect_bytes(data: &[u8], artifact_path: String) -> (res: Result<SymbolInventory, String>)
    ensures
        !(archive_member_read(data@, 0) is NotArchive) ==> match res {
            Ok(inv) => inv.artifact_path == artifact_path && inv.format == ArtifactFormat::ElfStaticLibrary
                && archive_listing(data@, 0, data@.len() as int, Seq::empty(), Ok(inv.symbols@)) && names_distinct(inv.symbols@),
            Err(m) => archive_listing(data@, 0, data@.len() as int, Seq::empty(), Err(m@)),
        },
        archive_member_read(data@, 0) is NotArchive ==> match object_read(data@) {
            ObjectRead::Failed(e) => res matches Err(m) && m@ == "failed to parse "@ + artifact_path@ + ": "@ + e@,
            ObjectRead::Parsed(kind) => res matches Ok(inv) && inv.artifact_path == artifact_path && format_of(inv.format, kind)
                && object_listing(data@, inv.symbols@),
        },
        archive_member_read(data@, 0) is NotArchive ==> match object_read(data@) {
            ObjectRead::Parsed(kind) => res matches Ok(inv) && (inv.format == ArtifactFormat::ElfSharedLibrary <==> (
            kind is Dynamic || kind is Executable)) && (inv.format == ArtifactFormat::ElfObject <==> kind is Relocatable),
            ObjectRead::Failed(_) => res is Err,
        },
{
    match read_archive_member(data, 0) {
        MemberRead::NotArchive => {},
        _ => {
            let listed = inspect_archive(data, artifact_path);
            proof {
                if listed is Ok {
                    lemma_archive_names_once(data@, 0, data@.len() as int, Seq::empty(), listed->Ok_0.symbols@);
                }
            }
            return listed;
        },
    }
    match read_object(data) {
        ObjectRead::Failed(e) => Err("failed to parse ".to_owned().concat(artifact_path.as_str()).concat(": ").concat(e.as_str())),
        ObjectRead::Parsed(kind) => {
            let ghost tag = kind;
            let format = match kind {
                ObjectKindTag::Executable | ObjectKindTag::Dynamic => ArtifactFormat::ElfSharedLibrary,
                ObjectKindTag::Relocatable => ArtifactFormat::ElfObject,
                ObjectKindTag::Unknown => ArtifactFormat::Unknown("Unknown".to_owned()),
                ObjectKindTag::Core => ArtifactFormat::Unknown("Core".to_owned()),
                ObjectKindTag::Other(d) => ArtifactFormat::Unknown(d),
            };
            proof {
                lemma_object_format_follows_kind(format, tag);
            }
            let symbols = object_symbols(data);
            Ok(SymbolInventory { artifact_path, format, symbols })
        },
    }
}

/// Lists an archive's members in order.
fn inspect_archive(data: &[u8], artifact_path: String) -> (res: Result<SymbolInventory, String>)
    ensures
        match res {
            Ok(inv) => inv.artifact_path == artifact_path && inv.format == ArtifactFormat::ElfStaticLibrary
                && archive_listing(data@, 0, data@.len() as int, Seq::empty(), Ok(inv.symbols@)),
            Err(m) => archive_listing(data@, 0, data@.len() as int, Seq::empty(), Err(m@)),
        },
{
    let mut symbols: Vec<SymbolEntry> = Vec::new();
    let mut index: usize = 0;
    let bound = data.len();
    while index < bound
        invariant
            index <= bound,
            bound == data@.len(),
            forall|result: Result<Seq<SymbolEntry>, Seq<char>>|
                archive_listing(data@, index as int, bound as int, symbols@, result) ==> #[trigger] archive_listing(
                    data@,
                    0,
                    bound as int,
                    Seq::empty(),
                    result,
                ),
        decreases bound - index,
    {
        let read = read_archive_member(data, index);
        let ghost member = read;
        match read {
            MemberRead::NotArchive | MemberRead::End => {
                assert(archive_listing(data@, index as int, bound as int, symbols@, Ok(symbols@)));
                return Ok(SymbolInventory { artifact_path, format: ArtifactFormat::ElfStaticLibrary, symbols });
            },
            MemberRead::Failed(e) => {
                let m = MEMBER_READ_FAILURE.to_owned().concat(e.as_str());
                assert(archive_listing(data@, index as int, bound as int, symbols@, Err(m@)));
                return Err(m);
            },
            MemberRead::DataFailed(e) => {
                let m = MEMBER_DATA_FAILURE.to_owned().concat(e.as_str());
                assert(archive_listing(data@, index as int, bound as int, symbols@, Err(m@)));
                return Err(m);
            },
            MemberRead::Member(name, bytes) => {
                let parsed = read_object(bytes.as_slice());
                let ghost object = parsed;
                match parsed {
                    ObjectRead::Failed(_) => {},
                    ObjectRead::Parsed(_) => {
                        let ghost before = symbols@;
                        let entries = object_symbols(bytes.as_slice());
                        let ghost listed_entries = entries@;
                        push_unseen(&mut symbols, entries);
                        proof {
                            assert forall|result: Result<Seq<SymbolEntry>, Seq<char>>|
                                archive_listing(data@, index + 1, bound as int, symbols@, result) implies #[trigger] archive_listing(
                                    data@,
                                    0,
                                    bound as int,
                                    Seq::empty(),
                                    result,
                                ) by {
                                assert(member == MemberRead::Member(name, bytes));
                                assert(archive_member_read(data@, index as int) == MemberRead::Member(name, bytes));
                                assert(object is Parsed);
                                assert(object_read(bytes@) is Parsed);
                                assert(index < bound);
                                assert(object_listing(bytes@, listed_entries));
                                assert(archive_listing(data@, index + 1, bound as int, add_unseen(before, listed_entries), result));
                                lemma_object_entries(bytes@, listed_entries);
                            }
                        }
                    },
                }
            },
        }
        index = index + 1;
    }
    assert(archive_listing(data@, index as int, bound as int, symbols@, Ok(symbols@)));
    Ok(SymbolInventory { artifact_path, format: ArtifactFormat::ElfStaticLibrary, symbols })
}

} // verus!
