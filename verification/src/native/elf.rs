//! ELF dynamic metadata read from raw section bytes: symbol-version names
//! (`.gnu.version_d`, `.gnu.version_r`), the per-symbol version table
//! (`.gnu.version`) and the dynamic table (`.dynamic`).
use vstd::prelude::*;

use super::certify::{decimal, decimal_spec};
use super::error::NativeError;
use super::inspect::{c_string, c_string_spec, endian_value, read_u16, read_u32, read_u64, InspectionLimits, NeededLibrary};
use super::resolve::is_utf8;
use crate::bytes::slice_to_vec;
use crate::contract::model::DependencyProvenance;
use crate::contract::Endian;
use vstd::utf8::valid_utf8;
use vstd::string::StringExecFns;

verus! {

/// The value of the `n` bytes at `o` of `s`, in `endian` order.
pub open spec fn uint_at(s: Seq<u8>, o: int, n: int, endian: Endian) -> nat {
    endian_value(s.subrange(o, o + n), endian)
}

/// Version names by version index, each index once.
pub open spec fn names_view(names: Seq<(u16, Vec<u8>)>) -> Seq<(u16, Seq<u8>)> {
    names.map_values(|p: (u16, Vec<u8>)| (p.0, p.1@))
}

/// The name recorded for a version index.
pub open spec fn version_lookup(names: Seq<(u16, Seq<u8>)>, index: u16) -> Option<Seq<u8>>
    decreases names.len(),
{
    if names.len() == 0 {
        None
    } else if names[0].0 == index {
        Some(names[0].1)
    } else {
        version_lookup(names.drop_first(), index)
    }
}

/// Records `name` for `index`: a repeat of the same name changes nothing,
/// a different name for a recorded index is a conflict.
pub open spec fn insert_version(names: Seq<(u16, Seq<u8>)>, index: u16, name: Seq<u8>) -> Result<
    Seq<(u16, Seq<u8>)>,
    u16,
> {
    match version_lookup(names, index) {
        Some(previous) => if previous == name {
            Ok(names)
        } else {
            Err(index)
        },
        None => Ok(names.push((index, name))),
    }
}

/// Why symbol-version metadata was refused.
pub enum VersionFault {
    Malformed,
    Conflict(u16),
}

pub const MALFORMED_VERSIONS: &'static str = "malformed ELF symbol-version metadata";

/// The error a version fault is reported as.
pub open spec fn version_fault_reported(path: Seq<u8>, fault: VersionFault, e: NativeError) -> bool {
    match fault {
        VersionFault::Malformed => e matches NativeError::CorruptArtifact { path: p, detail } && p@ == path && detail@
            == MALFORMED_VERSIONS@,
        VersionFault::Conflict(i) => e matches NativeError::CorruptArtifact { path: p, detail } && p@ == path && detail@
            == "ELF version index "@ + decimal_spec(i as nat) + " has conflicting names"@,
    }
}

fn malformed(path: &[u8]) -> (e: NativeError)
    ensures
        version_fault_reported(path@, VersionFault::Malformed, e),
{
    NativeError::CorruptArtifact { path: slice_to_vec(path), detail: MALFORMED_VERSIONS.to_owned() }
}

fn find_version(names: &Vec<(u16, Vec<u8>)>, index: u16) -> (out: Option<usize>)
    ensures
        match version_lookup(names_view(names@), index) {
            Some(n) => out matches Some(k) && k < names@.len() && names@[k as int].1@ == n,
            None => out is None,
        },
{
    let ghost all = names_view(names@);
    let mut k: usize = 0;
    assert(all.skip(0) =~= all);
    while k < names.len()
        invariant
            k <= names@.len(),
            all == names_view(names@),
            version_lookup(all, index) == version_lookup(all.skip(k as int), index),
        decreases names@.len() - k,
    {
        assert(all.skip(k as int).drop_first() =~= all.skip(k + 1));
        assert(all.skip(k as int)[0] == (names@[k as int].0, names@[k as int].1@));
        if names[k].0 == index {
            return Some(k);
        }
        k = k + 1;
    }
    assert(all.skip(k as int).len() == 0);
    None
}

/// Records the name of a version index, refusing a second, different name.
pub fn insert_version_name(path: &[u8], names: &mut Vec<(u16, Vec<u8>)>, index: u16, name: &[u8]) -> (res: Result<
    (),
    NativeError,
>)
    ensures
        match insert_version(names_view(old(names)@), index, name@) {
            Ok(n) => res is Ok && names_view(final(names)@) == n,
            Err(i) => res matches Err(e) && version_fault_reported(path@, VersionFault::Conflict(i), e),
        },
{
    match find_version(names, index) {
        Some(k) => {
            if crate::bytes::bytes_equal(names[k].1.as_slice(), name) {
                Ok(())
            } else {
                Err(
                    NativeError::CorruptArtifact {
                        path: slice_to_vec(path),
                        detail: "ELF version index ".to_owned().concat(decimal(index as u64).as_str()).concat(
                            " has conflicting names",
                        ),
                    },
                )
            }
        },
        None => {
            let ghost before = names@;
            names.push((index, slice_to_vec(name)));
            proof {
                assert(names_view(names@) =~= names_view(before).push((index, name@)));
            }
            Ok(())
        },
    }
}

/// The walk over `.gnu.version_d`: each 20-byte definition names its index
/// (low 15 bits at byte 4) through its first 8-byte auxiliary entry (at the
/// offset stored at byte 12), whose first word is a `.dynstr` offset; the
/// word at byte 16 is the distance to the next definition, 0 for the last.
/// At most `max_deps` definitions are read.
pub open spec fn verdef_walk(
    data: Seq<u8>,
    strings: Seq<u8>,
    endian: Endian,
    max_name: int,
    max_deps: int,
    offset: int,
    count: int,
    names: Seq<(u16, Seq<u8>)>,
) -> Result<Seq<(u16, Seq<u8>)>, VersionFault>
    decreases max_deps - count,
{
    if offset >= data.len() {
        Ok(names)
    } else if offset + 20 > data.len() {
        Err(VersionFault::Malformed)
    } else {
        let index = (uint_at(data, offset + 4, 2, endian) as u16) & 0x7fffu16;
        let aux_at = offset + uint_at(data, offset + 12, 4, endian);
        let next = uint_at(data, offset + 16, 4, endian);
        if aux_at > usize::MAX || aux_at + 8 > data.len() {
            Err(VersionFault::Malformed)
        } else {
            match c_string_spec(strings, uint_at(data, aux_at, 4, endian) as int, max_name) {
                None => Err(VersionFault::Malformed),
                Some(name) => {
                    let inserted = if index > 1 {
                        insert_version(names, index, name)
                    } else {
                        Ok(names)
                    };
                    match inserted {
                        Err(i) => Err(VersionFault::Conflict(i)),
                        Ok(n2) => if count >= max_deps {
                            Err(VersionFault::Malformed)
                        } else if next == 0 {
                            Ok(n2)
                        } else if offset + next > usize::MAX {
                            Err(VersionFault::Malformed)
                        } else {
                            verdef_walk(data, strings, endian, max_name, max_deps, offset + next, count + 1, n2)
                        },
                    }
                },
            }
        }
    }
}

/// Reads the version names that `.gnu.version_d` defines into `names`.
#[verifier::rlimit(40)]
pub fn parse_version_definitions(
    path: &[u8],
    data: &[u8],
    strings: &[u8],
    endian: Endian,
    limits: InspectionLimits,
    names: &mut Vec<(u16, Vec<u8>)>,
) -> (res: Result<(), NativeError>)
    ensures
        match verdef_walk(
            data@,
            strings@,
            endian,
            limits.max_name_bytes as int,
            limits.max_dependencies as int,
            0,
            0,
            names_view(old(names)@),
        ) {
            Ok(n) => res is Ok && names_view(final(names)@) == n,
            Err(fault) => res matches Err(e) && version_fault_reported(path@, fault, e),
        },
{
    let ghost goal = verdef_walk(
        data@,
        strings@,
        endian,
        limits.max_name_bytes as int,
        limits.max_dependencies as int,
        0,
        0,
        names_view(names@),
    );
    let mut offset: usize = 0;
    let mut count: usize = 0;
    while offset < data.len()
        invariant
            goal == verdef_walk(
                data@,
                strings@,
                endian,
                limits.max_name_bytes as int,
                limits.max_dependencies as int,
                0,
                0,
                names_view(old(names)@),
            ),
            goal == verdef_walk(
                data@,
                strings@,
                endian,
                limits.max_name_bytes as int,
                limits.max_dependencies as int,
                offset as int,
                count as int,
                names_view(names@),
            ),
            count <= limits.max_dependencies,
        decreases limits.max_dependencies - count,
    {
        if data.len() - offset < 20 {
            return Err(malformed(path));
        }
        let raw_index = read_u16(data, offset + 4, endian)?;
        let index = raw_index & 0x7fff;
        let aux_offset = read_u32(data, offset + 12, endian)?;
        let next = read_u32(data, offset + 16, endian)?;
        proof {
            assert(data@.subrange(offset + 4, offset + 6) == data@.subrange(offset + 4, offset + 4 + 2));
        }
        let aux_at = match offset.checked_add(aux_offset as usize) {
            Some(a) => a,
            None => {
                return Err(malformed(path));
            },
        };
        if aux_at > data.len() || data.len() - aux_at < 8 {
            return Err(malformed(path));
        }
        let name_offset = read_u32(data, aux_at, endian)?;
        let name = match c_string(strings, name_offset as usize, limits.max_name_bytes) {
            Some(n) => n,
            None => {
                return Err(malformed(path));
            },
        };
        if index > 1 {
            insert_version_name(path, names, index, name)?;
        }
        if count >= limits.max_dependencies {
            return Err(malformed(path));
        }
        count = count + 1;
        if next == 0 {
            return Ok(());
        }
        offset = match offset.checked_add(next as usize) {
            Some(o) => o,
            None => {
                return Err(malformed(path));
            },
        };
    }
    Ok(())
}

/// The walk over the auxiliary entries of one `.gnu.version_r` record:
/// each 16-byte entry names its index (low 15 bits at byte 6) by the
/// `.dynstr` offset at byte 8; the word at byte 12 is the distance to the
/// next entry, 0 for the last. `total` counts entries over all records.
pub open spec fn vernaux_walk(
    data: Seq<u8>,
    strings: Seq<u8>,
    endian: Endian,
    max_name: int,
    max_deps: int,
    aux_at: int,
    remaining: nat,
    total: int,
    names: Seq<(u16, Seq<u8>)>,
) -> Result<(int, Seq<(u16, Seq<u8>)>), VersionFault>
    decreases remaining,
{
    if remaining == 0 {
        Ok((total, names))
    } else if aux_at + 16 > data.len() {
        Err(VersionFault::Malformed)
    } else {
        let index = (uint_at(data, aux_at + 6, 2, endian) as u16) & 0x7fffu16;
        let name_offset = uint_at(data, aux_at + 8, 4, endian);
        let aux_next = uint_at(data, aux_at + 12, 4, endian);
        match c_string_spec(strings, name_offset as int, max_name) {
            None => Err(VersionFault::Malformed),
            Some(name) => {
                let inserted = if index > 1 {
                    insert_version(names, index, name)
                } else {
                    Ok(names)
                };
                match inserted {
                    Err(i) => Err(VersionFault::Conflict(i)),
                    Ok(n2) => if total >= max_deps {
                        Err(VersionFault::Malformed)
                    } else if aux_next == 0 {
                        Ok((total + 1, n2))
                    } else if aux_at + aux_next > usize::MAX {
                        Err(VersionFault::Malformed)
                    } else {
                        vernaux_walk(
                            data,
                            strings,
                            endian,
                            max_name,
                            max_deps,
                            aux_at + aux_next,
                            (remaining - 1) as nat,
                            total + 1,
                            n2,
                        )
                    },
                }
            },
        }
    }
}

/// The walk over `.gnu.version_r`: each 16-byte record holds its auxiliary
/// count (byte 2), the offset of its first auxiliary entry (byte 8) and the
/// distance to the next record (byte 12, 0 for the last).
pub open spec fn verneed_walk(
    data: Seq<u8>,
    strings: Seq<u8>,
    endian: Endian,
    max_name: int,
    max_deps: int,
    offset: int,
    total: int,
    names: Seq<(u16, Seq<u8>)>,
) -> Result<Seq<(u16, Seq<u8>)>, VersionFault>
    decreases usize::MAX - offset,
{
    if offset >= data.len() {
        Ok(names)
    } else if offset + 16 > data.len() {
        Err(VersionFault::Malformed)
    } else {
        let aux_count = uint_at(data, offset + 2, 2, endian);
        let aux_at = offset + uint_at(data, offset + 8, 4, endian);
        let next = uint_at(data, offset + 12, 4, endian);
        if aux_at > usize::MAX {
            Err(VersionFault::Malformed)
        } else {
            match vernaux_walk(data, strings, endian, max_name, max_deps, aux_at, aux_count, total, names) {
                Err(f) => Err(f),
                Ok((t2, n2)) => if next == 0 {
                    Ok(n2)
                } else if offset + next > usize::MAX {
                    Err(VersionFault::Malformed)
                } else {
                    verneed_walk(data, strings, endian, max_name, max_deps, offset + next, t2, n2)
                },
            }
        }
    }
}

/// Reads the version names that `.gnu.version_r` requires into `names`.
#[verifier::rlimit(40)]
pub fn parse_version_requirements(
    path: &[u8],
    data: &[u8],
    strings: &[u8],
    endian: Endian,
    limits: InspectionLimits,
    names: &mut Vec<(u16, Vec<u8>)>,
) -> (res: Result<(), NativeError>)
    ensures
        match verneed_walk(
            data@,
            strings@,
            endian,
            limits.max_name_bytes as int,
            limits.max_dependencies as int,
            0,
            0,
            names_view(old(names)@),
        ) {
            Ok(n) => res is Ok && names_view(final(names)@) == n,
            Err(fault) => res matches Err(e) && version_fault_reported(path@, fault, e),
        },
{
    let ghost goal = verneed_walk(
        data@,
        strings@,
        endian,
        limits.max_name_bytes as int,
        limits.max_dependencies as int,
        0,
        0,
        names_view(names@),
    );
    let mut offset: usize = 0;
    let mut total: usize = 0;
    while offset < data.len()
        invariant
            goal == verneed_walk(
                data@,
                strings@,
                endian,
                limits.max_name_bytes as int,
                limits.max_dependencies as int,
                0,
                0,
                names_view(old(names)@),
            ),
            goal == verneed_walk(
                data@,
                strings@,
                endian,
                limits.max_name_bytes as int,
                limits.max_dependencies as int,
                offset as int,
                total as int,
                names_view(names@),
            ),
            total <= limits.max_dependencies,
        decreases usize::MAX - offset,
    {
        if data.len() - offset < 16 {
            return Err(malformed(path));
        }
        let aux_count = read_u16(data, offset + 2, endian)?;
        let aux_offset = read_u32(data, offset + 8, endian)?;
        let next = read_u32(data, offset + 12, endian)?;
        let mut aux_at = match offset.checked_add(aux_offset as usize) {
            Some(a) => a,
            None => {
                return Err(malformed(path));
            },
        };
        let ghost record_names = names_view(names@);
        let ghost record_total = total as int;
        let ghost inner = vernaux_walk(
            data@,
            strings@,
            endian,
            limits.max_name_bytes as int,
            limits.max_dependencies as int,
            aux_at as int,
            aux_count as nat,
            total as int,
            names_view(names@),
        );
        let mut k: u16 = 0;
        let mut stopped = false;
        while k < aux_count && !stopped
            invariant
                k <= aux_count,
                total <= limits.max_dependencies,
                offset < data@.len(),
                offset + 16 <= data@.len(),
                goal == verneed_walk(
                    data@,
                    strings@,
                    endian,
                    limits.max_name_bytes as int,
                    limits.max_dependencies as int,
                    0,
                    0,
                    names_view(old(names)@),
                ),
                goal == verneed_walk(
                    data@,
                    strings@,
                    endian,
                    limits.max_name_bytes as int,
                    limits.max_dependencies as int,
                    offset as int,
                    record_total,
                    record_names,
                ),
                inner matches Err(f) ==> goal == Err::<Seq<(u16, Seq<u8>)>, VersionFault>(f),
                !stopped ==> inner == vernaux_walk(
                    data@,
                    strings@,
                    endian,
                    limits.max_name_bytes as int,
                    limits.max_dependencies as int,
                    aux_at as int,
                    (aux_count - k) as nat,
                    total as int,
                    names_view(names@),
                ),
                stopped ==> inner == Ok::<(int, Seq<(u16, Seq<u8>)>), VersionFault>((total as int, names_view(names@))),
            decreases aux_count - k + if stopped {
                0int
            } else {
                1int
            },
        {
            if aux_at > data.len() || data.len() - aux_at < 16 {
                return Err(malformed(path));
            }
            let raw_index = read_u16(data, aux_at + 6, endian)?;
            let index = raw_index & 0x7fff;
            let name_offset = read_u32(data, aux_at + 8, endian)?;
            let aux_next = read_u32(data, aux_at + 12, endian)?;
            let name = match c_string(strings, name_offset as usize, limits.max_name_bytes) {
                Some(n) => n,
                None => {
                    return Err(malformed(path));
                },
            };
            if index > 1 {
                insert_version_name(path, names, index, name)?;
            }
            if total >= limits.max_dependencies {
                return Err(malformed(path));
            }
            total = total + 1;
            if aux_next == 0 {
                stopped = true;
            } else {
                aux_at = match aux_at.checked_add(aux_next as usize) {
                    Some(a) => a,
                    None => {
                        return Err(malformed(path));
                    },
                };
                k = k + 1;
            }
        }
        if next == 0 {
            return Ok(());
        }
        offset = match offset.checked_add(next as usize) {
            Some(o) => o,
            None => {
                return Err(malformed(path));
            },
        };
    }
    Ok(())
}


// ---------------------------------------------------------------------------
// The per-symbol version table
// ---------------------------------------------------------------------------

/// The version of one dynamic symbol.
#[derive(Debug, Clone, PartialEq, Eq)]
pub struct VersionInfo {
    pub name: Vec<u8>,
    pub is_default: bool,
}

pub const MISALIGNED_VERSION_TABLE: &'static str = "misaligned .gnu.version section";

pub const VERSION_TABLE_COUNT: &'static str = "ELF version table count differs from the dynamic symbol table";

/// Checks the shape of `.gnu.version`: two bytes for each dynamic symbol and
/// for the reserved null symbol before them.
pub fn check_version_table(path: &[u8], versym_len: usize, dynamic_symbols: usize) -> (res: Result<(), NativeError>)
    ensures
        versym_len % 2 != 0 ==> (res matches Err(NativeError::CorruptArtifact { path: p, detail }) && p@ == path@
            && detail@ == MISALIGNED_VERSION_TABLE@),
        versym_len % 2 == 0 && versym_len / 2 != (if dynamic_symbols == usize::MAX {
            dynamic_symbols as int
        } else {
            dynamic_symbols + 1
        }) ==> (res matches Err(NativeError::CorruptArtifact { path: p, detail }) && p@ == path@ && detail@
            == VERSION_TABLE_COUNT@),
        versym_len % 2 == 0 && versym_len / 2 == (if dynamic_symbols == usize::MAX {
            dynamic_symbols as int
        } else {
            dynamic_symbols + 1
        }) ==> res is Ok,
{
    if versym_len % 2 != 0 {
        return Err(NativeError::CorruptArtifact { path: slice_to_vec(path), detail: MISALIGNED_VERSION_TABLE.to_owned() });
    }
    if versym_len / 2 != dynamic_symbols.saturating_add(1) {
        return Err(NativeError::CorruptArtifact { path: slice_to_vec(path), detail: VERSION_TABLE_COUNT.to_owned() });
    }
    Ok(())
}

/// The version of entry `i` of `.gnu.version`: none for the indexes 0 and 1
/// (local and global), otherwise the name recorded for the low 15 bits,
/// the default version when bit 15 is clear; an index with no recorded
/// name is refused.
pub open spec fn version_entry(versym: Seq<u8>, i: int, endian: Endian, names: Seq<(u16, Seq<u8>)>) -> Result<
    Option<(Seq<u8>, bool)>,
    u16,
> {
    let raw = uint_at(versym, 2 * i, 2, endian) as u16;
    let index = raw & 0x7fffu16;
    if index <= 1 {
        Ok(None)
    } else {
        match version_lookup(names, index) {
            None => Err(index),
            Some(name) => Ok(Some((name, raw & 0x8000u16 == 0))),
        }
    }
}

/// The version of each entry of `.gnu.version`, by entry index, using the
/// names the version sections recorded.
#[verifier::rlimit(30)]
pub fn symbol_versions(path: &[u8], versym: &[u8], endian: Endian, names: &Vec<(u16, Vec<u8>)>) -> (res: Result<
    Vec<Option<VersionInfo>>,
    NativeError,
>)
    ensures
        res is Ok <==> forall|i: int| 0 <= i < versym@.len() / 2 ==> (#[trigger] version_entry(versym@, i, endian, names_view(names@))) is Ok,
        res matches Ok(v) ==> v@.len() == versym@.len() / 2 && forall|i: int|
            0 <= i < v@.len() ==> match version_entry(versym@, i, endian, names_view(names@)) {
                Ok(None) => (#[trigger] v@[i]) is None,
                Ok(Some((name, default))) => v@[i] matches Some(info) && info.name@ == name && info.is_default == default,
                Err(_) => false,
            },
        res matches Err(e) ==> exists|i: int|
            0 <= i < versym@.len() / 2 && (forall|j: int| 0 <= j < i ==> (#[trigger] version_entry(versym@, j, endian, names_view(names@))) is Ok)
                && ((#[trigger] version_entry(versym@, i, endian, names_view(names@))) matches Err(index) && e matches NativeError::CorruptArtifact { path: p, detail }
                && p@ == path@ && detail@ == "version index "@ + decimal_spec(index as nat) + " has no definition"@),
{
    let ghost nv = names_view(names@);
    let total = versym.len();
    let n = total / 2;
    let mut out: Vec<Option<VersionInfo>> = Vec::new();
    let mut i: usize = 0;
    while i < n
        invariant
            i <= n,
            total == versym@.len(),
            n == versym@.len() / 2,
            nv == names_view(names@),
            out@.len() == i,
            forall|j: int| 0 <= j < i ==> (#[trigger] version_entry(versym@, j, endian, nv)) is Ok,
            forall|j: int|
                0 <= j < i ==> match version_entry(versym@, j, endian, nv) {
                    Ok(None) => (#[trigger] out@[j]) is None,
                    Ok(Some((name, default))) => out@[j] matches Some(info) && info.name@ == name && info.is_default
                        == default,
                    Err(_) => false,
                },
        decreases n - i,
    {
        assert(2 * i + 2 <= total);
        let raw = read_u16(versym, 2 * i, endian)?;
        assert(raw == uint_at(versym@, 2 * i as int, 2, endian) as u16);
        let index = raw & 0x7fff;
        let ghost before = out@;
        if index <= 1 {
            out.push(None);
        } else {
            let k = match find_version(names, index) {
                Some(k) => k,
                None => {
                    proof {
                        assert(version_entry(versym@, i as int, endian, nv) == Err::<Option<(Seq<u8>, bool)>, u16>(index));
                    }
                    return Err(
                        NativeError::CorruptArtifact {
                            path: slice_to_vec(path),
                            detail: "version index ".to_owned().concat(decimal(index as u64).as_str()).concat(
                                " has no definition",
                            ),
                        },
                    );
                },
            };
            out.push(Some(VersionInfo { name: slice_to_vec(names[k].1.as_slice()), is_default: raw & 0x8000 == 0 }));
        }
        proof {
            assert forall|j: int| 0 <= j < i + 1 implies match version_entry(versym@, j, endian, nv) {
                Ok(None) => (#[trigger] out@[j]) is None,
                Ok(Some((name, default))) => out@[j] matches Some(info) && info.name@ == name && info.is_default
                    == default,
                Err(_) => false,
            } by {
                if j < i {
                    assert(out@[j] == before[j]);
                }
            }
        }
        i = i + 1;
    }
    Ok(out)
}

// ---------------------------------------------------------------------------
// The dynamic table
// ---------------------------------------------------------------------------

/// The libraries an artifact needs and the name it answers to.
#[derive(Debug, Clone, PartialEq, Eq)]
pub struct DynamicMetadata {
    pub dependencies: Vec<NeededLibrary>,
    pub soname: Option<Vec<u8>>,
}

/// Why a dynamic table was refused.
pub enum DynamicFault {
    Misaligned,
    OffsetOverflow,
    InvalidString,
    NotUtf8,
    MultipleSoname,
    TooManyDependencies,
}

pub const DT_NULL: u64 = 0;

pub const DT_NEEDED: u64 = 1;

pub const DT_SONAME: u64 = 14;

/// The width of one dynamic entry: two 8-byte words on 64-bit ELF, two
/// 4-byte words otherwise.
pub open spec fn entry_width(is_64: bool) -> nat {
    if is_64 {
        16
    } else {
        8
    }
}

/// The tag and value of dynamic entry `k`.
pub open spec fn dynamic_entry(dynamic: Seq<u8>, k: int, is_64: bool, endian: Endian) -> (nat, nat) {
    if is_64 {
        (uint_at(dynamic, 16 * k, 8, endian), uint_at(dynamic, 16 * k + 8, 8, endian))
    } else {
        (uint_at(dynamic, 8 * k, 4, endian), uint_at(dynamic, 8 * k + 4, 4, endian))
    }
}

/// The walk over the dynamic entries from entry `k`: `DT_NULL` ends the
/// table; each `DT_NEEDED` adds a needed library and each `DT_SONAME` the
/// artifact's own name, both `.dynstr` strings of valid UTF-8; at most
/// `max_deps` libraries and one name.
pub open spec fn dynamic_walk(
    dynamic: Seq<u8>,
    strings: Seq<u8>,
    is_64: bool,
    endian: Endian,
    max_name: int,
    max_deps: int,
    k: int,
    deps: Seq<Seq<u8>>,
    soname: Option<Seq<u8>>,
) -> Result<(Seq<Seq<u8>>, Option<Seq<u8>>), DynamicFault>
    decreases dynamic.len() as int / entry_width(is_64) as int - k,
{
    if k >= dynamic.len() / entry_width(is_64) || k < 0 {
        Ok((deps, soname))
    } else {
        let (tag, value) = dynamic_entry(dynamic, k, is_64, endian);
        if tag == DT_NULL {
            Ok((deps, soname))
        } else if tag != DT_NEEDED && tag != DT_SONAME {
            dynamic_walk(dynamic, strings, is_64, endian, max_name, max_deps, k + 1, deps, soname)
        } else if value > usize::MAX {
            Err(DynamicFault::OffsetOverflow)
        } else {
            match c_string_spec(strings, value as int, max_name) {
                None => Err(DynamicFault::InvalidString),
                Some(name) => if !valid_utf8(name) {
                    Err(DynamicFault::NotUtf8)
                } else if tag == DT_NEEDED {
                    if deps.len() + 1 > max_deps {
                        Err(DynamicFault::TooManyDependencies)
                    } else {
                        dynamic_walk(dynamic, strings, is_64, endian, max_name, max_deps, k + 1, deps.push(name), soname)
                    }
                } else if soname is Some {
                    Err(DynamicFault::MultipleSoname)
                } else {
                    dynamic_walk(dynamic, strings, is_64, endian, max_name, max_deps, k + 1, deps, Some(name))
                },
            }
        }
    }
}

/// The refusal text of a dynamic-table fault.
pub open spec fn dynamic_fault_text(fault: DynamicFault, max_deps: nat) -> Seq<char> {
    match fault {
        DynamicFault::Misaligned => "misaligned ELF dynamic table"@,
        DynamicFault::OffsetOverflow => "DT_NEEDED string offset overflow"@,
        DynamicFault::InvalidString => "invalid DT_NEEDED string"@,
        DynamicFault::NotUtf8 => "DT_NEEDED name is not UTF-8"@,
        DynamicFault::MultipleSoname => "ELF contains multiple DT_SONAME entries"@,
        DynamicFault::TooManyDependencies => "ELF exceeds "@ + decimal_spec(max_deps) + " dynamic dependencies"@,
    }
}

/// The needed libraries, in table order, with dynamic-table provenance.
pub open spec fn needed_from_table(deps: Seq<NeededLibrary>, names: Seq<Seq<u8>>) -> bool {
    &&& deps.len() == names.len()
    &&& forall|i: int|
        0 <= i < deps.len() ==> (#[trigger] deps[i]).spec_name() == names[i] && deps[i].spec_provenance()
            == DependencyProvenance::DynamicTable
}

fn dynamic_error(path: &[u8], detail: String) -> (e: NativeError)
    ensures
        e matches NativeError::CorruptArtifact { path: p, detail: d } && p@ == path@ && d@ == detail@,
{
    NativeError::CorruptArtifact { path: slice_to_vec(path), detail }
}

/// Reads the needed libraries and `DT_SONAME` of an ELF dynamic table.
#[verifier::rlimit(60)]
pub fn parse_dynamic_table(
    path: &[u8],
    dynamic: &[u8],
    strings: &[u8],
    is_64: bool,
    endian: Endian,
    limits: InspectionLimits,
) -> (res: Result<DynamicMetadata, NativeError>)
    ensures
        dynamic@.len() % entry_width(is_64) != 0 ==> (res matches Err(NativeError::CorruptArtifact { path: p, detail })
            && p@ == path@ && detail@ == dynamic_fault_text(DynamicFault::Misaligned, limits.max_dependencies as nat)),
        dynamic@.len() % entry_width(is_64) == 0 ==> match dynamic_walk(
            dynamic@,
            strings@,
            is_64,
            endian,
            limits.max_name_bytes as int,
            limits.max_dependencies as int,
            0,
            Seq::empty(),
            None,
        ) {
            Ok((deps, soname)) => res matches Ok(m) && needed_from_table(m.dependencies@, deps) && match soname {
                Some(s) => m.soname matches Some(o) && o@ == s,
                None => m.soname is None,
            },
            Err(fault) => res matches Err(NativeError::CorruptArtifact { path: p, detail }) && p@ == path@ && detail@
                == dynamic_fault_text(fault, limits.max_dependencies as nat),
        },
{
    let width: usize = if is_64 {
        16
    } else {
        8
    };
    if dynamic.len() % width != 0 {
        return Err(dynamic_error(path, "misaligned ELF dynamic table".to_owned()));
    }
    let ghost goal = dynamic_walk(
        dynamic@,
        strings@,
        is_64,
        endian,
        limits.max_name_bytes as int,
        limits.max_dependencies as int,
        0,
        Seq::empty(),
        None,
    );
    let total = dynamic.len();
    let count = total / width;
    let mut dependencies: Vec<NeededLibrary> = Vec::new();
    let mut soname: Option<Vec<u8>> = None;
    let ghost mut names: Seq<Seq<u8>> = Seq::empty();
    let mut k: usize = 0;
    while k < count
        invariant
            width as int == entry_width(is_64),
            total == dynamic@.len(),
            count == dynamic@.len() / entry_width(is_64),
            dynamic@.len() % entry_width(is_64) == 0,
            k <= count,
            needed_from_table(dependencies@, names),
            goal == dynamic_walk(
                dynamic@,
                strings@,
                is_64,
                endian,
                limits.max_name_bytes as int,
                limits.max_dependencies as int,
                k as int,
                names,
                match soname {
                    Some(s) => Some(s@),
                    None => None,
                },
            ),
            goal == dynamic_walk(
                dynamic@,
                strings@,
                is_64,
                endian,
                limits.max_name_bytes as int,
                limits.max_dependencies as int,
                0,
                Seq::empty(),
                None,
            ),
        decreases count - k,
    {
        proof {
            let len = dynamic@.len() as int;
            let w = width as int;
            assert(k * w + w <= len && k * w <= total) by (nonlinear_arith)
                requires
                    k < count,
                    count == len / w,
                    w > 0,
                    len >= 0,
                    len == total,
            ;
        }
        let at = k * width;
        let (tag, value) = if is_64 {
            (read_u64(dynamic, at, endian)?, read_u64(dynamic, at + 8, endian)?)
        } else {
            (read_u32(dynamic, at, endian)? as u64, read_u32(dynamic, at + 4, endian)? as u64)
        };
        proof {
            assert(dynamic_entry(dynamic@, k as int, is_64, endian) == (tag as nat, value as nat));
        }
        if tag == DT_NULL {
            return Ok(DynamicMetadata { dependencies, soname });
        }
        if tag == DT_NEEDED || tag == DT_SONAME {
            if value > usize::MAX as u64 {
                return Err(dynamic_error(path, "DT_NEEDED string offset overflow".to_owned()));
            }
            let name = match c_string(strings, value as usize, limits.max_name_bytes) {
                Some(n) => n,
                None => {
                    return Err(dynamic_error(path, "invalid DT_NEEDED string".to_owned()));
                },
            };
            if !is_utf8(name) {
                return Err(dynamic_error(path, "DT_NEEDED name is not UTF-8".to_owned()));
            }
            if tag == DT_NEEDED {
                if dependencies.len() >= limits.max_dependencies {
                    return Err(
                        dynamic_error(
                            path,
                            "ELF exceeds ".to_owned().concat(decimal(limits.max_dependencies as u64).as_str()).concat(
                                " dynamic dependencies",
                            ),
                        ),
                    );
                }
                let ghost before = dependencies@;
                dependencies.push(NeededLibrary::new(slice_to_vec(name), DependencyProvenance::DynamicTable));
                proof {
                    names = names.push(name@);
                    assert forall|i: int| 0 <= i < dependencies@.len() implies (#[trigger] dependencies@[i]).spec_name()
                        == names[i] && dependencies@[i].spec_provenance() == DependencyProvenance::DynamicTable by {
                        if i < before.len() {
                            assert(dependencies@[i] == before[i]);
                        }
                    }
                }
            } else {
                if soname.is_some() {
                    return Err(dynamic_error(path, "ELF contains multiple DT_SONAME entries".to_owned()));
                }
                soname = Some(slice_to_vec(name));
            }
        }
        k = k + 1;
    }
    Ok(DynamicMetadata { dependencies, soname })
}

} // verus!
