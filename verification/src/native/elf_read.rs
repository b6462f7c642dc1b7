//! What the `object` crate reads of an ELF file, as plain values: the kind
//! of buffer, the header facts, a section's bytes, and the facts of one
//! symbol that the symbol listing does not carry.
use vstd::prelude::*;

use crate::symbols::SymbolTable;
use object::{FileKind, Object, ObjectSection, ObjectSymbol, SectionIndex, SymbolKind};

verus! {

/// What `object` takes a buffer to be.
#[derive(Debug)]
pub enum FileKindRead {
    Failed(String),
    Archive,
    Elf32,
    Elf64,
    /// Another kind, by the name `object` gives it.
    Other(String),
}

/// The header facts of a buffer read as one object file; the binary format
/// and the architecture by the names `object` gives them.
#[derive(Debug)]
pub struct ObjectHeader {
    pub format: String,
    pub architecture: String,
    pub little_endian: bool,
    pub is_64: bool,
}

/// A buffer read as one object file, for its header.
#[derive(Debug)]
pub enum HeaderRead {
    Failed(String),
    Parsed(ObjectHeader),
}

/// The section of a given name.
#[derive(Debug)]
pub enum SectionRead {
    Absent,
    Failed(String),
    Data(Vec<u8>),
}

/// What `object` says a symbol is.
#[derive(Debug, Clone, Copy, PartialEq, Eq, Structural)]
pub enum SymbolClass {
    Text,
    Data,
    Tls,
    Other,
}

/// The facts of one symbol beside those of the listing: its name as bytes
/// (or why it could not be read), class, whether undefined or weak, its
/// address and its index in its table.
#[derive(Debug)]
pub struct SymbolDetail {
    pub name: Result<Vec<u8>, String>,
    pub class: SymbolClass,
    pub undefined: bool,
    pub weak: bool,
    pub address: u64,
    pub index: usize,
}

/// One entry of a symbol table, for its details.
#[derive(Debug)]
pub enum DetailRead {
    End,
    Entry(SymbolDetail),
}

/// A section found by index: its address and its data (or why the data
/// could not be read); or why it could not be found.
#[derive(Debug)]
pub enum SectionAt {
    Missing(String),
    Found { address: u64, data: Result<Vec<u8>, String> },
}

/// What `object` reads as section `index` of `data`.
pub uninterp spec fn section_at_read(data: Seq<u8>, index: int) -> SectionAt;

/// What `object` takes `data` to be.
pub uninterp spec fn file_kind_read(data: Seq<u8>) -> FileKindRead;

/// What `object` reads of the header of `data` taken as one object file.
pub uninterp spec fn object_header_read(data: Seq<u8>) -> HeaderRead;

/// What `object` reads as the section named `name` of `data`.
pub uninterp spec fn section_data_read(data: Seq<u8>, name: Seq<char>) -> SectionRead;

/// What `object` reads as the details of entry `index` of a symbol table of `data`.
pub uninterp spec fn symbol_detail_read(data: Seq<u8>, table: SymbolTable, index: int) -> DetailRead;

/// What `object` reads as the name bytes of section `index` of `data`.
pub uninterp spec fn section_name_bytes_read(data: Seq<u8>, index: int) -> Option<Seq<u8>>;

/// How many entries `object` reads in the dynamic symbol table of `data`.
pub uninterp spec fn dynamic_symbol_count(data: Seq<u8>) -> usize;

/// `object::FileKind::parse` on `data`. The result is a function of the
/// bytes alone; what it is, is not stated.
#[verifier::external_body]
pub(crate) fn read_file_kind(data: &[u8]) -> (out: FileKindRead)
    ensures
        out == file_kind_read(data@),
{
    match FileKind::parse(data) {
        Err(error) => FileKindRead::Failed(error.to_string()),
        Ok(FileKind::Archive) => FileKindRead::Archive,
        Ok(FileKind::Elf32) => FileKindRead::Elf32,
        Ok(FileKind::Elf64) => FileKindRead::Elf64,
        Ok(other) => FileKindRead::Other(format!("{:?}", other)),
    }
}

/// `object::File::parse` on `data`, then its `format`, `architecture`,
/// `is_little_endian` and `is_64`. The result is a function of the bytes
/// alone; what it is, is not stated.
#[verifier::external_body]
pub(crate) fn read_object_header(data: &[u8]) -> (out: HeaderRead)
    ensures
        out == object_header_read(data@),
{
    match object::File::parse(data) {
        Err(error) => HeaderRead::Failed(error.to_string()),
        Ok(file) => HeaderRead::Parsed(ObjectHeader {
            format: format!("{:?}", file.format()),
            architecture: format!("{:?}", file.architecture()),
            little_endian: file.is_little_endian(),
            is_64: file.is_64(),
        }),
    }
}

/// `object::File::parse` on `data`, then `section_by_name(name)` and that
/// section's `data`. The result is a function of its arguments alone; what
/// it is, is not stated.
#[verifier::external_body]
pub(crate) fn read_section_data(data: &[u8], name: &str) -> (out: SectionRead)
    ensures
        out == section_data_read(data@, name@),
{
    let file = match object::File::parse(data) {
        Ok(file) => file,
        Err(error) => return SectionRead::Failed(error.to_string()),
    };
    match file.section_by_name(name) {
        None => SectionRead::Absent,
        Some(section) => match section.data() {
            Ok(bytes) => SectionRead::Data(bytes.to_vec()),
            Err(error) => SectionRead::Failed(error.to_string()),
        },
    }
}

/// `object::File::parse` on `data`, then entry `index` of its regular or
/// dynamic symbol table: `name_bytes`, `kind`, `is_undefined`, `is_weak`,
/// `address` and `index`. The result is a function of its arguments alone;
/// what it is, is not stated.
#[verifier::external_body]
pub(crate) fn read_symbol_detail(data: &[u8], table: SymbolTable, index: usize) -> (out: DetailRead)
    ensures
        out == symbol_detail_read(data@, table, index as int),
{
    let Ok(file) = object::File::parse(data) else { return DetailRead::End };
    let found = match table { SymbolTable::Regular => file.symbols().nth(index), SymbolTable::Dynamic => file.dynamic_symbols().nth(index) };
    let Some(symbol) = found else { return DetailRead::End };
    let class = match symbol.kind() { SymbolKind::Text => SymbolClass::Text, SymbolKind::Data => SymbolClass::Data, SymbolKind::Tls => SymbolClass::Tls, _ => SymbolClass::Other };
    let name = symbol.name_bytes().map(|n| n.to_vec()).map_err(|e| e.to_string());
    DetailRead::Entry(SymbolDetail { name, class, undefined: symbol.is_undefined(), weak: symbol.is_weak(), address: symbol.address(), index: symbol.index().0 })
}

/// `object::File::parse` on `data`, then `section_by_index(index)` and that
/// section's `name_bytes`. The result is a function of its arguments alone;
/// what it is, is not stated.
#[verifier::external_body]
pub(crate) fn read_section_name_bytes(data: &[u8], index: usize) -> (out: Option<Vec<u8>>)
    ensures
        match out {
            Some(name) => section_name_bytes_read(data@, index as int) == Some(name@),
            None => section_name_bytes_read(data@, index as int) is None,
        },
{
    let file = object::File::parse(data).ok()?;
    let section = file.section_by_index(SectionIndex(index)).ok()?;
    section.name_bytes().ok().map(<[u8]>::to_vec)
}

/// `object::File::parse` on `data`, then the `count` of its dynamic symbol
/// table (zero where the buffer does not parse). The result is a function
/// of the bytes alone; what it is, is not stated.
#[verifier::external_body]
pub(crate) fn count_dynamic_symbols(data: &[u8]) -> (out: usize)
    ensures
        out == dynamic_symbol_count(data@),
{
    object::File::parse(data).map(|file| file.dynamic_symbols().count()).unwrap_or(0)
}

/// `object::File::parse` on `data`, then `section_by_index(index)` and that
/// section's `address` and `data`. The result is a function of its
/// arguments alone; what it is, is not stated.
#[verifier::external_body]
pub(crate) fn read_section_at(data: &[u8], index: usize) -> (out: SectionAt)
    ensures
        out == section_at_read(data@, index as int),
{
    let file = match object::File::parse(data) {
        Ok(file) => file,
        Err(error) => return SectionAt::Missing(error.to_string()),
    };
    match file.section_by_index(SectionIndex(index)) {
        Err(error) => SectionAt::Missing(error.to_string()),
        Ok(section) => SectionAt::Found {
            address: section.address(),
            data: section.data().map(<[u8]>::to_vec).map_err(|e| e.to_string()),
        },
    }
}

} // verus!
