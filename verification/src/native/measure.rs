//! Decoding the measurements a certification probe wrote: the probe's
//! object file is checked to be little-endian x86-64 ELF, its measurement
//! blob symbol is read, and the blob is decoded against the plan of what was
//! measured, record by record and enumeration by enumeration.
use vstd::prelude::*;

use super::certify::{bitfield_offset, bitfield_offset_spec, BlobReader};
use super::elf_inspect::facts_read;
use super::elf_read::{object_header_read, read_object_header, read_section_at, section_at_read, HeaderRead, SectionAt};
use super::error::NativeError;
use super::inspect::slice_at_spec;
use crate::bytes::le_value;
use crate::contract::identity::text_bytes;
use crate::contract::layout::Signedness;
use crate::contract::source::{ChildId, DeclarationId, SourceFingerprint, TargetFingerprint};
use crate::symbols::{object_symbol_read, read_symbol, SymbolRead, SymbolTable};
use super::elf_read::{read_symbol_detail, DetailRead};
use crate::text::str_eq;
use vstd::string::StringExecFns;
use vstd::utf8::encode_utf8;

verus! {

/// The symbol that holds the measurement blob.
pub const BLOB_SYMBOL: &'static str = "linc_certification_blob_v1";

/// The version of the blob layout.
pub const BLOB_VERSION: u64 = 1;

/// The tag of a record measurement.
pub const RECORD_KIND: u64 = 1;

/// The tag of an enumeration measurement.
pub const ENUM_KIND: u64 = 2;

/// The offset a bitfield member reports in place of its bit offset.
pub const BITFIELD_OFFSET_SENTINEL: u64 = 0xffff_ffff_ffff_ffff;

/// The magic bytes that open a blob: `LINCERT1`.
pub open spec fn blob_magic_spec() -> Seq<u8> {
    seq![0x4cu8, 0x49u8, 0x4eu8, 0x43u8, 0x45u8, 0x52u8, 0x54u8, 0x31u8]
}

fn blob_magic() -> (out: Vec<u8>)
    ensures
        out@ == blob_magic_spec(),
{
    let out: Vec<u8> = vec![0x4cu8, 0x49u8, 0x4eu8, 0x43u8, 0x45u8, 0x52u8, 0x54u8, 0x31u8];
    proof {
        assert(out@ =~= blob_magic_spec());
    }
    out
}

/// One measured member of a record plan: its child, and the symbol of its
/// bitfield witness where it is a bitfield.
#[derive(Debug, Clone, PartialEq, Eq)]
pub struct FieldPlan {
    pub child: ChildId,
    pub bitfield_symbol: Option<String>,
}

/// One measured record.
#[derive(Debug, Clone, PartialEq, Eq)]
pub struct RecordPlan {
    pub declaration: DeclarationId,
    pub fields: Vec<FieldPlan>,
}

/// One measured enumeration and how many variants it has.
#[derive(Debug, Clone, Copy, PartialEq, Eq)]
pub struct EnumPlan {
    pub declaration: DeclarationId,
    pub variant_count: usize,
}

/// What a certification probe measured, in the order it wrote it.
#[derive(Debug, Clone, PartialEq, Eq)]
pub struct MeasurementPlan {
    pub source_fingerprint: SourceFingerprint,
    pub target_fingerprint: TargetFingerprint,
    pub records: Vec<RecordPlan>,
    pub enums: Vec<EnumPlan>,
}

/// A member's measured layout.
#[derive(Debug, Clone, Copy, PartialEq, Eq)]
pub struct RawFieldMeasurement {
    pub child: ChildId,
    pub offset_bits: u64,
    pub size_bits: u64,
    pub alignment_bits: u32,
}

/// A record's measured layout.
#[derive(Debug, Clone, PartialEq, Eq)]
pub struct RawRecordMeasurement {
    pub declaration: DeclarationId,
    pub size_bits: u64,
    pub alignment_bits: u32,
    pub fields: Vec<RawFieldMeasurement>,
}

/// An enumeration's measured storage.
#[derive(Debug, Clone, Copy, PartialEq, Eq)]
pub struct RawEnumMeasurement {
    pub declaration: DeclarationId,
    pub storage_bits: u64,
    pub alignment_bits: u32,
    pub signedness: Signedness,
}

/// Everything a probe measured.
#[derive(Debug, Clone, PartialEq, Eq)]
pub struct RawMeasurements {
    pub records: Vec<RawRecordMeasurement>,
    pub enums: Vec<RawEnumMeasurement>,
}

// ---------------------------------------------------------------------------
// Finding a measurement symbol
// ---------------------------------------------------------------------------

/// Entry `i` of the regular symbol table of `data` is a defined symbol named
/// `name`.
pub open spec fn names_symbol(data: Seq<u8>, i: int, name: Seq<u8>) -> bool {
    facts_read(data, SymbolTable::Regular, i) matches Some(Ok(f)) && !f.undefined && f.name == name
}

/// The entries of the regular symbol table from `start` on that are defined
/// symbols named `name`.
pub open spec fn matches_from(data: Seq<u8>, name: Seq<u8>, start: int) -> Seq<int>
    decreases usize::MAX - start,
{
    if start < 0 || start >= usize::MAX {
        Seq::empty()
    } else {
        match facts_read(data, SymbolTable::Regular, start) {
            None => Seq::empty(),
            Some(_) => (if names_symbol(data, start, name) {
                seq![start]
            } else {
                Seq::empty()
            }) + matches_from(data, name, start + 1),
        }
    }
}

proof fn lemma_matches_named(data: Seq<u8>, name: Seq<u8>, start: int, k: int)
    requires
        matches_from(data, name, start).contains(k),
    ensures
        names_symbol(data, k, name),
    decreases usize::MAX - start,
{
    if start < 0 || start >= usize::MAX {
    } else {
        match facts_read(data, SymbolTable::Regular, start) {
            None => {},
            Some(_) => {
                let head = if names_symbol(data, start, name) {
                    seq![start]
                } else {
                    Seq::<int>::empty()
                };
                let rest = matches_from(data, name, start + 1);
                let i = choose|i: int| 0 <= i < matches_from(data, name, start).len() && matches_from(data, name, start)[i] == k;
                if i < head.len() {
                    assert(head[i] == k);
                } else {
                    assert(rest[i - head.len()] == k);
                    lemma_matches_named(data, name, start + 1, k);
                }
            },
        }
    }
}

/// The bytes of the one defined symbol named `name`: it must be unique, lie
/// in a readable section at or after the section's start, be nonempty and
/// end inside the section.
pub open spec fn unique_symbol_bytes(data: Seq<u8>, name: Seq<u8>) -> Option<Seq<u8>> {
    let m = matches_from(data, name, 0);
    if m.len() != 1 {
        None
    } else {
        match (object_symbol_read(data, SymbolTable::Regular, m[0]), facts_read(data, SymbolTable::Regular, m[0])) {
            (SymbolRead::Entry(b), Some(Ok(f))) => match b.section_index {
                None => None,
                Some(si) => match section_at_read(data, si as int) {
                    SectionAt::Found { address, data: Ok(bytes) } => if f.address < address || f.size == 0 || (f.address
                        - address) + f.size > bytes@.len() {
                        None
                    } else {
                        Some(bytes@.subrange((f.address - address) as int, (f.address - address) + f.size))
                    },
                    _ => None,
                },
            },
            _ => None,
        }
    }
}

fn parser_gap(detail: String) -> (out: NativeError)
    ensures
        out is ProbeParserGap,
{
    NativeError::ProbeParserGap { detail }
}

fn symbol_gap(name: &str, what: &str) -> (out: NativeError)
    ensures
        out is ProbeParserGap,
{
    parser_gap("measurement symbol ".to_owned().concat(name).concat(" ").concat(what))
}

/// Reads the bytes of the one defined symbol named `name` in `data`.
pub fn extract_unique_symbol(data: &[u8], name: &str) -> (res: Result<Vec<u8>, NativeError>)
    ensures
        match unique_symbol_bytes(data@, encode_utf8(name@)) {
            Some(bytes) => res matches Ok(v) && v@ == bytes,
            None => res matches Err(e) && e is ProbeParserGap,
        },
{
    let wanted = text_bytes(name);
    let ghost nm = wanted@;
    let mut found: Option<usize> = None;
    let mut count: usize = 0;
    let mut index: usize = 0;
    let ghost mut seen: Seq<int> = Seq::empty();
    proof {
        assert(seen + matches_from(data@, nm, 0) =~= matches_from(data@, nm, 0));
    }
    while index < usize::MAX
        invariant
            nm == wanted@,
            matches_from(data@, nm, 0) == seen + matches_from(data@, nm, index as int),
            count == (if seen.len() >= 2 { 2 } else { seen.len() }),
            seen.len() >= 1 ==> found == Some(seen[0] as usize) && 0 <= seen[0] < usize::MAX,
            seen.len() == 0 ==> found is None,
        ensures
            matches_from(data@, nm, 0) == seen,
            count == (if seen.len() >= 2 { 2 } else { seen.len() }),
            seen.len() >= 1 ==> found == Some(seen[0] as usize) && 0 <= seen[0] < usize::MAX,
            seen.len() == 0 ==> found is None,
        decreases usize::MAX - index,
    {
        let basic = read_symbol(data, SymbolTable::Regular, index);
        let detail = read_symbol_detail(data, SymbolTable::Regular, index);
        let hit = match (&basic, &detail) {
            (SymbolRead::Entry(_), DetailRead::Entry(d)) => match &d.name {
                Ok(n) => !d.undefined && crate::bytes::bytes_equal(n.as_slice(), wanted.as_slice()),
                Err(_) => false,
            },
            _ => {
                proof {
                    assert(matches_from(data@, nm, index as int) =~= Seq::<int>::empty());
                    assert(seen + Seq::<int>::empty() =~= seen);
                }
                break;
            },
        };
        proof {
            assert(hit <==> names_symbol(data@, index as int, nm));
            let rest = matches_from(data@, nm, index + 1);
            assert(matches_from(data@, nm, index as int) == (if hit { seq![index as int] } else { Seq::<int>::empty() }) + rest);
            if hit {
                assert(seen + (seq![index as int] + rest) =~= seen.push(index as int) + rest);
            } else {
                assert(seen + (Seq::<int>::empty() + rest) =~= seen + rest);
            }
        }
        if hit {
            if count == 0 {
                found = Some(index);
            }
            if count < 2 {
                count = count + 1;
            }
            proof {
                seen = seen.push(index as int);
            }
        }
        index = index + 1;
    }
    if count != 1 {
        return Err(symbol_gap(name, "is missing or duplicated"));
    }
    let k = match found {
        Some(k) => k,
        None => {
            return Err(symbol_gap(name, "is missing"));
        },
    };
    proof {
        assert(seen.len() == 1);
        assert(seen[0] == k as int);
        assert(names_symbol(data@, k as int, nm)) by {
            assert(matches_from(data@, nm, 0).contains(k as int));
            lemma_matches_named(data@, nm, 0, k as int);
        }
    }
    let basic = read_symbol(data, SymbolTable::Regular, k);
    let detail = read_symbol_detail(data, SymbolTable::Regular, k);
    let (section_index, size, address) = match (basic, detail) {
        (SymbolRead::Entry(b), DetailRead::Entry(d)) => (b.section_index, b.size, d.address),
        _ => {
            return Err(symbol_gap(name, "cannot be read"));
        },
    };
    let si = match section_index {
        Some(si) => si,
        None => {
            return Err(symbol_gap(name, "has no section"));
        },
    };
    let (section_address, bytes) = match read_section_at(data, si) {
        SectionAt::Found { address, data: Ok(bytes) } => (address, bytes),
        _ => {
            return Err(symbol_gap(name, "has an unreadable section"));
        },
    };
    if address < section_address {
        return Err(symbol_gap(name, "precedes its section"));
    }
    let relative = address - section_address;
    if size == 0 {
        return Err(symbol_gap(name, "is empty"));
    }
    if relative > bytes.len() as u64 || size > bytes.len() as u64 - relative {
        return Err(symbol_gap(name, "extends beyond its section"));
    }
    let start = relative as usize;
    let end = start + size as usize;
    let mut out: Vec<u8> = Vec::new();
    let mut i: usize = start;
    while i < end
        invariant
            start <= i <= end,
            end <= bytes@.len(),
            out@ == bytes@.subrange(start as int, i as int),
        decreases end - i,
    {
        out.push(bytes[i]);
        proof {
            assert(out@ =~= bytes@.subrange(start as int, i + 1));
        }
        i = i + 1;
    }
    proof {
        assert(unique_symbol_bytes(data@, nm) == Some(out@));
    }
    Ok(out)
}


// ---------------------------------------------------------------------------
// Decoding the blob
// ---------------------------------------------------------------------------

/// The little-endian eight-byte value at `off`.
pub open spec fn u64_at(blob: Seq<u8>, off: int) -> Option<nat> {
    match slice_at_spec(blob, off, 8) {
        Some(s) => Some(le_value(s)),
        None => None,
    }
}

/// The bytes at `off` are `expected`.
pub open spec fn bytes_at(blob: Seq<u8>, off: int, expected: Seq<u8>) -> bool {
    slice_at_spec(blob, off, expected.len() as int) == Some(expected)
}

/// The offset of a member: its own where it is no bitfield; where it is,
/// the offset its bitfield witness symbol shows.
pub open spec fn member_offset(f: FieldPlan, encoded: nat, size: nat, record_size: u64, object: Seq<u8>) -> Option<nat> {
    if encoded == BITFIELD_OFFSET_SENTINEL {
        match f.bitfield_symbol {
            None => None,
            Some(sym) => match unique_symbol_bytes(object, encode_utf8(sym@)) {
                None => None,
                Some(w) => match bitfield_offset_spec(w, size as u64, record_size) {
                    Ok(o) => Some((o as u64) as nat),
                    Err(_) => None,
                },
            },
        }
    } else if f.bitfield_symbol is Some {
        None
    } else {
        Some(encoded)
    }
}

/// The measurement of one member at `off`: its child, offset, size and
/// alignment, where the member lies inside its record; and the offset
/// after it.
pub open spec fn field_step(f: FieldPlan, blob: Seq<u8>, off: int, record_size: u64, object: Seq<u8>) -> Option<
    (RawFieldMeasurement, int),
> {
    let o = off + f.child@.len();
    if !bytes_at(blob, off, f.child@) {
        None
    } else {
        match (u64_at(blob, o), u64_at(blob, o + 8), u64_at(blob, o + 16)) {
            (Some(encoded), Some(size), Some(align)) => if align > u32::MAX {
                None
            } else {
                match member_offset(f, encoded, size, record_size, object) {
                    None => None,
                    Some(offset) => if offset + size > u64::MAX || size == 0 || offset + size > record_size {
                        None
                    } else {
                        Some(
                            (
                                RawFieldMeasurement {
                                    child: f.child,
                                    offset_bits: offset as u64,
                                    size_bits: size as u64,
                                    alignment_bits: align as u32,
                                },
                                o + 24,
                            ),
                        )
                    },
                }
            },
            _ => None,
        }
    }
}

/// The members of `plans` from member `k` on, read from `off`.
pub open spec fn fields_from(plans: Seq<FieldPlan>, k: int, blob: Seq<u8>, off: int, record_size: u64, object: Seq<u8>) -> Option<
    (Seq<RawFieldMeasurement>, int),
>
    decreases plans.len() - k,
{
    if k < 0 || k >= plans.len() {
        Some((Seq::empty(), off))
    } else {
        match field_step(plans[k], blob, off, record_size, object) {
            None => None,
            Some((m, next)) => match fields_from(plans, k + 1, blob, next, record_size, object) {
                None => None,
                Some((rest, end)) => Some((seq![m] + rest, end)),
            },
        }
    }
}

/// A record measurement as plain values.
pub open spec fn record_view(r: RawRecordMeasurement) -> (DeclarationId, u64, u32, Seq<RawFieldMeasurement>) {
    (r.declaration, r.size_bits, r.alignment_bits, r.fields@)
}

/// The measurement of one record at `off`, and the offset after it.
pub open spec fn record_step(r: RecordPlan, blob: Seq<u8>, off: int, object: Seq<u8>) -> Option<
    ((DeclarationId, u64, u32, Seq<RawFieldMeasurement>), int),
> {
    let o = off + 8 + r.declaration@.len();
    if u64_at(blob, off) != Some(RECORD_KIND as nat) || !bytes_at(blob, off + 8, r.declaration@) {
        None
    } else {
        match (u64_at(blob, o), u64_at(blob, o + 8), u64_at(blob, o + 16)) {
            (Some(size), Some(align), Some(count)) => if align > u32::MAX || count != r.fields@.len() || size == 0 || size % 8
                != 0 {
                None
            } else {
                match fields_from(r.fields@, 0, blob, o + 24, size as u64, object) {
                    None => None,
                    Some((fields, end)) => Some(((r.declaration, size as u64, align as u32, fields), end)),
                }
            },
            _ => None,
        }
    }
}

/// The records of `plans` from record `k` on, read from `off`.
pub open spec fn records_from(plans: Seq<RecordPlan>, k: int, blob: Seq<u8>, off: int, object: Seq<u8>) -> Option<
    (Seq<(DeclarationId, u64, u32, Seq<RawFieldMeasurement>)>, int),
>
    decreases plans.len() - k,
{
    if k < 0 || k >= plans.len() {
        Some((Seq::empty(), off))
    } else {
        match record_step(plans[k], blob, off, object) {
            None => None,
            Some((m, next)) => match records_from(plans, k + 1, blob, next, object) {
                None => None,
                Some((rest, end)) => Some((seq![m] + rest, end)),
            },
        }
    }
}

/// The measurement of one enumeration at `off`, and the offset after it.
pub open spec fn enum_step(e: EnumPlan, blob: Seq<u8>, off: int) -> Option<(RawEnumMeasurement, int)> {
    let o = off + 8 + e.declaration@.len();
    if u64_at(blob, off) != Some(ENUM_KIND as nat) || !bytes_at(blob, off + 8, e.declaration@) {
        None
    } else {
        match (u64_at(blob, o), u64_at(blob, o + 8), u64_at(blob, o + 16), u64_at(blob, o + 24)) {
            (Some(storage), Some(align), Some(sign), Some(count)) => if align > u32::MAX || sign > 1 || count != e.variant_count {
                None
            } else {
                Some(
                    (
                        RawEnumMeasurement {
                            declaration: e.declaration,
                            storage_bits: storage as u64,
                            alignment_bits: align as u32,
                            signedness: if sign == 0 {
                                Signedness::Unsigned
                            } else {
                                Signedness::Signed
                            },
                        },
                        o + 32,
                    ),
                )
            },
            _ => None,
        }
    }
}

/// The enumerations of `plans` from enumeration `k` on, read from `off`.
pub open spec fn enums_from(plans: Seq<EnumPlan>, k: int, blob: Seq<u8>, off: int) -> Option<(Seq<RawEnumMeasurement>, int)>
    decreases plans.len() - k,
{
    if k < 0 || k >= plans.len() {
        Some((Seq::empty(), off))
    } else {
        match enum_step(plans[k], blob, off) {
            None => None,
            Some((m, next)) => match enums_from(plans, k + 1, blob, next) {
                None => None,
                Some((rest, end)) => Some((seq![m] + rest, end)),
            },
        }
    }
}

/// The offset after a blob's header.
pub open spec fn header_end(plan: MeasurementPlan) -> int {
    (16 + plan.source_fingerprint@.len() + plan.target_fingerprint@.len() + 8) as int
}

/// What a blob holds for `plan`: its magic, version, source and target
/// fingerprints and subject count, then each record and each enumeration
/// in plan order, and nothing after.
pub open spec fn decode_blob_spec(plan: MeasurementPlan, blob: Seq<u8>, object: Seq<u8>) -> Option<
    (Seq<(DeclarationId, u64, u32, Seq<RawFieldMeasurement>)>, Seq<RawEnumMeasurement>),
> {
    let o = (16 + plan.source_fingerprint@.len()) as int;
    if !bytes_at(blob, 0, blob_magic_spec()) || u64_at(blob, 8) != Some(BLOB_VERSION as nat) || !bytes_at(
        blob,
        16,
        plan.source_fingerprint@,
    ) || !bytes_at(blob, o, plan.target_fingerprint@) || plan.records@.len() + plan.enums@.len() > usize::MAX || u64_at(
        blob,
        (o + plan.target_fingerprint@.len()) as int,
    ) != Some((plan.records@.len() + plan.enums@.len()) as nat) {
        None
    } else {
        blob_body(plan, blob, object)
    }
}

/// What a blob holds after its header: the records, then the enumerations,
/// and nothing after.
pub open spec fn blob_body(plan: MeasurementPlan, blob: Seq<u8>, object: Seq<u8>) -> Option<
    (Seq<(DeclarationId, u64, u32, Seq<RawFieldMeasurement>)>, Seq<RawEnumMeasurement>),
> {
    match records_from(plan.records@, 0, blob, header_end(plan), object) {
        None => None,
        Some((records, after)) => match enums_from(plan.enums@, 0, blob, after) {
            None => None,
            Some((enums, end)) => if end == blob.len() {
                Some((records, enums))
            } else {
                None
            },
        },
    }
}

/// What a probe's object file holds for `plan`: it is little-endian
/// x86-64 ELF, and its one measurement blob symbol decodes.
pub open spec fn decode_measurements_spec(plan: MeasurementPlan, object: Seq<u8>) -> Option<
    (Seq<(DeclarationId, u64, u32, Seq<RawFieldMeasurement>)>, Seq<RawEnumMeasurement>),
> {
    match object_header_read(object) {
        HeaderRead::Parsed(h) => if h.format@ == "Elf"@ && h.architecture@ == "X86_64"@ && h.little_endian && h.is_64 {
            match unique_symbol_bytes(object, encode_utf8(BLOB_SYMBOL@)) {
                Some(blob) => decode_blob_spec(plan, blob, object),
                None => None,
            }
        } else {
            None
        },
        HeaderRead::Failed(_) => None,
    }
}

fn read_field(reader: &mut BlobReader, f: &FieldPlan, record_size: u64, object: &[u8]) -> (res: Result<RawFieldMeasurement, NativeError>)
    ensures
        final(reader).spec_bytes() == old(reader).spec_bytes(),
        match field_step(*f, old(reader).spec_bytes(), old(reader).spec_offset() as int, record_size, object@) {
            None => res matches Err(e) && e is ProbeParserGap,
            Some((m, next)) => res == Ok::<RawFieldMeasurement, NativeError>(m) && final(reader).spec_offset() == next,
        },
{
    proof {
        ChildId::lemma_view_len(f.child);
    }
    reader.expect_bytes(f.child.as_bytes().as_slice(), "record child ID")?;
    let encoded = reader.u64("field offset")?;
    let size = reader.u64("field size")?;
    let alignment = reader.u32_from_u64("field alignment")?;
    let offset = if encoded == BITFIELD_OFFSET_SENTINEL {
        let symbol = match &f.bitfield_symbol {
            Some(symbol) => symbol,
            None => {
                return Err(parser_gap("ordinary field carried a bitfield offset sentinel".to_owned()));
            },
        };
        let witness = extract_unique_symbol(object, symbol.as_str())?;
        bitfield_offset(witness.as_slice(), size, record_size)?
    } else {
        if f.bitfield_symbol.is_some() {
            return Err(parser_gap("bitfield did not carry its offset sentinel".to_owned()));
        }
        encoded
    };
    if offset > u64::MAX - size {
        return Err(parser_gap("field extent overflow".to_owned()));
    }
    let end = offset + size;
    if size == 0 || end > record_size {
        return Err(parser_gap("field extent is outside its record".to_owned()));
    }
    Ok(RawFieldMeasurement { child: f.child, offset_bits: offset, size_bits: size, alignment_bits: alignment })
}

fn read_fields(reader: &mut BlobReader, plans: &Vec<FieldPlan>, record_size: u64, object: &[u8]) -> (res: Result<
    Vec<RawFieldMeasurement>,
    NativeError,
>)
    ensures
        final(reader).spec_bytes() == old(reader).spec_bytes(),
        match fields_from(plans@, 0, old(reader).spec_bytes(), old(reader).spec_offset() as int, record_size, object@) {
            None => res matches Err(e) && e is ProbeParserGap,
            Some((fields, end)) => res matches Ok(v) && v@ == fields && final(reader).spec_offset() == end,
        },
{
    let ghost blob = reader.spec_bytes();
    let ghost start = reader.spec_offset() as int;
    let mut out: Vec<RawFieldMeasurement> = Vec::new();
    let mut k: usize = 0;
    while k < plans.len()
        invariant
            k <= plans@.len(),
            blob == old(reader).spec_bytes(),
            start == old(reader).spec_offset() as int,
            reader.spec_bytes() == blob,
            fields_from(plans@, 0, blob, start, record_size, object@) == match fields_from(
                plans@,
                k as int,
                blob,
                reader.spec_offset() as int,
                record_size,
                object@,
            ) {
                None => None,
                Some((rest, end)) => Some((out@ + rest, end)),
            },
        decreases plans@.len() - k,
    {
        let ghost here = reader.spec_offset() as int;
        let m = read_field(reader, &plans[k], record_size, object)?;
        proof {
            match fields_from(plans@, k + 1, blob, reader.spec_offset() as int, record_size, object@) {
                Some((rest, end)) => {
                    assert(out@ + (seq![m] + rest) =~= out@.push(m) + rest);
                },
                None => {},
            }
        }
        out.push(m);
        k = k + 1;
    }
    proof {
        assert(out@ + Seq::<RawFieldMeasurement>::empty() =~= out@);
    }
    Ok(out)
}

fn read_record(reader: &mut BlobReader, r: &RecordPlan, object: &[u8]) -> (res: Result<RawRecordMeasurement, NativeError>)
    ensures
        final(reader).spec_bytes() == old(reader).spec_bytes(),
        match record_step(*r, old(reader).spec_bytes(), old(reader).spec_offset() as int, object@) {
            None => res matches Err(e) && e is ProbeParserGap,
            Some((m, next)) => res matches Ok(v) && record_view(v) == m && final(reader).spec_offset() == next,
        },
{
    proof {
        DeclarationId::lemma_view_len(r.declaration);
    }
    let kind = reader.u64("record kind")?;
    if kind != RECORD_KIND {
        return Err(parser_gap("record measurement kind differs from the plan".to_owned()));
    }
    reader.expect_bytes(r.declaration.as_bytes().as_slice(), "record declaration ID")?;
    let size_bits = reader.u64("record size")?;
    let alignment_bits = reader.u32_from_u64("record alignment")?;
    let count = reader.u64("record field count")?;
    if count != r.fields.len() as u64 {
        return Err(parser_gap("record field count differs from the plan".to_owned()));
    }
    if size_bits == 0 || size_bits % 8 != 0 {
        return Err(parser_gap("record size is zero or not byte-addressable".to_owned()));
    }
    let fields = read_fields(reader, &r.fields, size_bits, object)?;
    Ok(RawRecordMeasurement { declaration: r.declaration, size_bits, alignment_bits, fields })
}

fn read_enum(reader: &mut BlobReader, e: &EnumPlan) -> (res: Result<RawEnumMeasurement, NativeError>)
    ensures
        final(reader).spec_bytes() == old(reader).spec_bytes(),
        match enum_step(*e, old(reader).spec_bytes(), old(reader).spec_offset() as int) {
            None => res matches Err(x) && x is ProbeParserGap,
            Some((m, next)) => res == Ok::<RawEnumMeasurement, NativeError>(m) && final(reader).spec_offset() == next,
        },
{
    proof {
        DeclarationId::lemma_view_len(e.declaration);
    }
    let kind = reader.u64("enum kind")?;
    if kind != ENUM_KIND {
        return Err(parser_gap("enum measurement kind differs from the plan".to_owned()));
    }
    reader.expect_bytes(e.declaration.as_bytes().as_slice(), "enum declaration ID")?;
    let storage_bits = reader.u64("enum storage")?;
    let alignment_bits = reader.u32_from_u64("enum alignment")?;
    let sign = reader.u64("enum signedness")?;
    let signedness = if sign == 0 {
        Signedness::Unsigned
    } else if sign == 1 {
        Signedness::Signed
    } else {
        return Err(parser_gap("enum signedness is not canonical".to_owned()));
    };
    let count = reader.u64("enum variant count")?;
    if count as u128 != e.variant_count as u128 {
        return Err(parser_gap("enum variant count differs from the plan".to_owned()));
    }
    Ok(RawEnumMeasurement { declaration: e.declaration, storage_bits, alignment_bits, signedness })
}

/// Decodes a measurement blob against `plan`; bitfield witnesses are read
/// from `object`.
pub fn decode_blob(plan: &MeasurementPlan, blob: &[u8], object: &[u8]) -> (res: Result<RawMeasurements, NativeError>)
    ensures
        match decode_blob_spec(*plan, blob@, object@) {
            None => res matches Err(e) && e is ProbeParserGap,
            Some((records, enums)) => res matches Ok(m) && m.records@.map_values(|r: RawRecordMeasurement| record_view(r))
                == records && m.enums@ == enums,
        },
{
    proof {
        SourceFingerprint::lemma_view_len(plan.source_fingerprint);
        TargetFingerprint::lemma_view_len(plan.target_fingerprint);
    }
    let mut reader = BlobReader::new(blob);
    let magic = blob_magic();
    reader.expect_bytes(magic.as_slice(), "blob magic")?;
    let version = reader.u64("blob version")?;
    if version != BLOB_VERSION {
        return Err(parser_gap("unsupported measurement blob version".to_owned()));
    }
    reader.expect_bytes(plan.source_fingerprint.as_bytes().as_slice(), "source fingerprint")?;
    reader.expect_bytes(plan.target_fingerprint.as_bytes().as_slice(), "target fingerprint")?;
    if plan.records.len() > usize::MAX - plan.enums.len() {
        return Err(parser_gap("measurement subject count overflow".to_owned()));
    }
    let expected = plan.records.len() + plan.enums.len();
    let count = reader.u64("measurement subject count")?;
    if count as u128 != expected as u128 {
        return Err(parser_gap("measurement subject count differs from the plan".to_owned()));
    }
    let ghost after_header = reader.spec_offset() as int;
    assert(after_header == header_end(*plan));
    assert(decode_blob_spec(*plan, blob@, object@) == blob_body(*plan, blob@, object@));
    let mut records: Vec<RawRecordMeasurement> = Vec::new();
    let mut k: usize = 0;
    while k < plan.records.len()
        invariant
            k <= plan.records@.len(),
            after_header == header_end(*plan),
            decode_blob_spec(*plan, blob@, object@) == blob_body(*plan, blob@, object@),
            reader.spec_bytes() == blob@,
            records_from(plan.records@, 0, blob@, after_header, object@) == match records_from(
                plan.records@,
                k as int,
                blob@,
                reader.spec_offset() as int,
                object@,
            ) {
                None => None,
                Some((rest, end)) => Some((records@.map_values(|r: RawRecordMeasurement| record_view(r)) + rest, end)),
            },
        decreases plan.records@.len() - k,
    {
        let r = read_record(&mut reader, &plan.records[k], object)?;
        proof {
            let done = records@.map_values(|x: RawRecordMeasurement| record_view(x));
            assert(records@.push(r).map_values(|x: RawRecordMeasurement| record_view(x)) =~= done.push(record_view(r)));
            match records_from(plan.records@, k + 1, blob@, reader.spec_offset() as int, object@) {
                Some((rest, end)) => {
                    assert(done + (seq![record_view(r)] + rest) =~= done.push(record_view(r)) + rest);
                },
                None => {},
            }
        }
        records.push(r);
        k = k + 1;
    }
    let ghost rs = records@.map_values(|r: RawRecordMeasurement| record_view(r));
    proof {
        assert(rs + Seq::<(DeclarationId, u64, u32, Seq<RawFieldMeasurement>)>::empty() =~= rs);
    }
    let ghost after_records = reader.spec_offset() as int;
    let mut enums: Vec<RawEnumMeasurement> = Vec::new();
    let mut k: usize = 0;
    while k < plan.enums.len()
        invariant
            k <= plan.enums@.len(),
            decode_blob_spec(*plan, blob@, object@) == blob_body(*plan, blob@, object@),
            records_from(plan.records@, 0, blob@, header_end(*plan), object@) == Some((rs, after_records)),
            records@.map_values(|r: RawRecordMeasurement| record_view(r)) == rs,
            reader.spec_bytes() == blob@,
            enums_from(plan.enums@, 0, blob@, after_records) == match enums_from(
                plan.enums@,
                k as int,
                blob@,
                reader.spec_offset() as int,
            ) {
                None => None,
                Some((rest, end)) => Some((enums@ + rest, end)),
            },
        decreases plan.enums@.len() - k,
    {
        let e = read_enum(&mut reader, &plan.enums[k])?;
        proof {
            match enums_from(plan.enums@, k + 1, blob@, reader.spec_offset() as int) {
                Some((rest, end)) => {
                    assert(enums@ + (seq![e] + rest) =~= enums@.push(e) + rest);
                },
                None => {},
            }
        }
        enums.push(e);
        k = k + 1;
    }
    proof {
        assert(enums@ + Seq::<RawEnumMeasurement>::empty() =~= enums@);
    }
    reader.finish()?;
    Ok(RawMeasurements { records, enums })
}

/// Decodes the measurements a probe's object file holds for `plan`.
pub fn decode_measurements(plan: &MeasurementPlan, object: &[u8]) -> (res: Result<RawMeasurements, NativeError>)
    ensures
        match decode_measurements_spec(*plan, object@) {
            None => res matches Err(e) && e is ProbeParserGap,
            Some((records, enums)) => res matches Ok(m) && m.records@.map_values(|r: RawRecordMeasurement| record_view(r))
                == records && m.enums@ == enums,
        },
{
    let header = match read_object_header(object) {
        HeaderRead::Parsed(h) => h,
        HeaderRead::Failed(error) => {
            return Err(parser_gap("measurement output is not a parseable object: ".to_owned().concat(error.as_str())));
        },
    };
    if !str_eq(header.format.as_str(), "Elf") || !str_eq(header.architecture.as_str(), "X86_64") || !header.little_endian
        || !header.is_64 {
        return Err(parser_gap("measurement object is not little-endian x86-64 ELF".to_owned()));
    }
    let blob = extract_unique_symbol(object, BLOB_SYMBOL)?;
    decode_blob(plan, blob.as_slice(), object)
}

} // verus!
