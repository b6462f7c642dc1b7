//! Bounded ELF byte readers and inspection limits.
use vstd::prelude::*;

use super::error::NativeError;
use super::certify::{decimal, decimal_spec};
use crate::bytes::{be_value, bytes_equal, le_value};
use crate::contract::inventory::{ids_distinct, InspectionProvenance, SymbolInventory};
use super::elf::VersionInfo;
use crate::symbols::ObjectKindTag;
use crate::contract::model::{kind_label_spec, ArtifactKind};
use crate::bytes::slice_to_vec;
use crate::contract::identity::string_from_utf8;
use crate::contract::model::{
    has_byte, is_darwin_family, is_valid_native_string, ArtifactSymbolId, DependencyEdge, DependencyProvenance,
    ResolvedArtifact, SymbolBinding, SymbolDecoration, SymbolDirection, SymbolKind, SymbolRecord, SymbolRecordInput,
    SymbolVisibility, TargetSpec,
};
use crate::contract::{
    Architecture, ContractError, CrtFlavor, Endian, Environment, LinkerFlavor, NativeAbi, ObjectFormat, ObservedTarget,
    ObservedTargetParts, OperatingSystem, ProviderId,
};
use vstd::utf8::{encode_utf8, valid_utf8};
use vstd::string::StringExecFns;

verus! {

/// Resource bounds for inspecting one artifact.
#[derive(Debug, Clone, Copy, PartialEq, Eq)]
pub struct InspectionLimits {
    pub max_artifact_bytes: u64,
    pub max_archive_members: usize,
    pub max_symbols: usize,
    pub max_dependencies: usize,
    pub max_name_bytes: usize,
}

pub open spec fn limits_nonzero(limits: InspectionLimits) -> bool {
    limits.max_artifact_bytes != 0 && limits.max_archive_members != 0 && limits.max_symbols != 0
        && limits.max_dependencies != 0 && limits.max_name_bytes != 0
}

impl InspectionLimits {
    /// 512 MiB artifacts, 16384 archive members, a million symbols, 65536
    /// dependencies and 1 MiB names.
    pub fn default_limits() -> (out: Self)
        ensures
            out.max_artifact_bytes == 536870912,
            out.max_archive_members == 16384,
            out.max_symbols == 1000000,
            out.max_dependencies == 65536,
            out.max_name_bytes == 1048576,
    {
        InspectionLimits {
            max_artifact_bytes: 536870912,
            max_archive_members: 16384,
            max_symbols: 1000000,
            max_dependencies: 65536,
            max_name_bytes: 1048576,
        }
    }

    /// Accepts limits that are all nonzero.
    pub fn validate(self) -> (res: Result<Self, NativeError>)
        ensures
            limits_nonzero(self) ==> res == Ok::<Self, NativeError>(self),
            !limits_nonzero(self) ==> (res matches Err(NativeError::InvalidPolicy { detail })
                && detail@ == "all inspection limits must be nonzero"@),
    {
        if self.max_artifact_bytes == 0 || self.max_archive_members == 0 || self.max_symbols == 0
            || self.max_dependencies == 0 || self.max_name_bytes == 0 {
            return Err(NativeError::InvalidPolicy { detail: "all inspection limits must be nonzero".to_owned() });
        }
        Ok(self)
    }
}

impl Default for InspectionLimits {
    fn default() -> (out: Self)
        ensures
            out.max_artifact_bytes == 536870912,
            out.max_archive_members == 16384,
            out.max_symbols == 1000000,
            out.max_dependencies == 65536,
            out.max_name_bytes == 1048576,
    {
        InspectionLimits::default_limits()
    }
}

/// Inspects native artifacts within fixed limits.
#[derive(Debug)]
pub struct NativeInspector {
    limits: InspectionLimits,
}

impl NativeInspector {
    /// Every inspector's limits are all nonzero.
    #[verifier::type_invariant]
    closed spec fn inv(self) -> bool {
        limits_nonzero(self.limits)
    }

    pub closed spec fn spec_limits(&self) -> InspectionLimits {
        self.limits
    }

    /// An inspector with these limits, which must all be nonzero.
    pub fn new(limits: InspectionLimits) -> (res: Result<Self, NativeError>)
        ensures
            limits_nonzero(limits) ==> (res matches Ok(i) && i.spec_limits() == limits),
            !limits_nonzero(limits) ==> (res matches Err(NativeError::InvalidPolicy { detail })
                && detail@ == "all inspection limits must be nonzero"@),
    {
        match limits.validate() {
            Ok(limits) => Ok(NativeInspector { limits }),
            Err(e) => Err(e),
        }
    }

    /// An inspector with the default limits.
    pub fn with_default_limits() -> (out: Self)
        ensures
            out.spec_limits() == InspectionLimits::default_limits_spec(),
    {
        NativeInspector { limits: InspectionLimits::default_limits() }
    }

    /// The limits, which are all nonzero.
    pub fn limits(&self) -> (out: InspectionLimits)
        ensures
            out == self.spec_limits(),
            limits_nonzero(out),
    {
        proof {
            use_type_invariant(self);
        }
        self.limits
    }
}

impl Clone for NativeInspector {
    fn clone(&self) -> (out: Self)
        ensures
            out.spec_limits() == self.spec_limits(),
    {
        proof {
            use_type_invariant(self);
        }
        NativeInspector { limits: self.limits }
    }
}

impl InspectionLimits {
    pub open spec fn default_limits_spec() -> InspectionLimits {
        InspectionLimits {
            max_artifact_bytes: 536870912,
            max_archive_members: 16384,
            max_symbols: 1000000,
            max_dependencies: 65536,
            max_name_bytes: 1048576,
        }
    }
}

/// The bytes `offset .. offset + len` when they lie inside `data`.
pub open spec fn slice_at_spec(data: Seq<u8>, offset: int, len: int) -> Option<Seq<u8>> {
    if offset + len <= data.len() {
        Some(data.subrange(offset, offset + len))
    } else {
        None
    }
}

/// The bytes `offset .. offset + len` when they lie inside `data`.
pub fn slice_at(data: &[u8], offset: usize, len: usize) -> (out: Option<&[u8]>)
    ensures
        match slice_at_spec(data@, offset as int, len as int) {
            Some(s) => out matches Some(o) && o@ == s,
            None => out is None,
        },
{
    let total = data.len();
    let end = match offset.checked_add(len) {
        Some(end) => end,
        None => {
            return None;
        },
    };
    if end > total {
        return None;
    }
    Some(vstd::slice::slice_subrange(data, offset, end))
}

/// The first NUL after `start` is `e` bytes in.
pub open spec fn nul_at(data: Seq<u8>, start: int, e: int) -> bool {
    &&& 0 <= e
    &&& start + e < data.len()
    &&& data[start + e] == 0
    &&& forall|j: int| 0 <= j < e ==> #[trigger] data[start + j] != 0
}

/// The NUL-terminated string at `offset`: present when its terminator lies
/// inside `data` and it has between 1 and `max` bytes.
pub open spec fn c_string_spec(data: Seq<u8>, offset: int, max: int) -> Option<Seq<u8>> {
    if exists|e: int| 1 <= e <= max && nul_at(data, offset, e) {
        let e = choose|e: int| 1 <= e <= max && nul_at(data, offset, e);
        Some(data.subrange(offset, offset + e))
    } else {
        None
    }
}

pub proof fn lemma_nul_at_unique(data: Seq<u8>, start: int, e1: int, e2: int)
    requires
        nul_at(data, start, e1),
        nul_at(data, start, e2),
    ensures
        e1 == e2,
{
    if e1 < e2 {
        assert(data[start + e1] != 0);
    } else if e2 < e1 {
        assert(data[start + e2] != 0);
    }
}

/// The NUL-terminated string of 1 to `max` bytes at `offset`.
pub fn c_string(data: &[u8], offset: usize, max: usize) -> (out: Option<&[u8]>)
    ensures
        match c_string_spec(data@, offset as int, max as int) {
            Some(s) => out matches Some(o) && o@ == s,
            None => out is None,
        },
{
    if offset > data.len() {
        proof {
            assert forall|e: int| 1 <= e <= max implies !nul_at(data@, offset as int, e) by {}
        }
        return None;
    }
    let mut e: usize = 0;
    while e < data.len() - offset && e <= max
        invariant
            offset <= data.len(),
            e <= data.len() - offset,
            e <= max + 1,
            forall|j: int| 0 <= j < e ==> #[trigger] data@[offset + j] != 0,
        decreases data.len() - offset - e,
    {
        if data[offset + e] == 0 {
            proof {
                assert(nul_at(data@, offset as int, e as int));
                assert forall|f: int| 1 <= f <= max && nul_at(data@, offset as int, f) implies f == e by {
                    lemma_nul_at_unique(data@, offset as int, f, e as int);
                }
            }
            if e == 0 {
                proof {
                    assert forall|f: int| 1 <= f <= max implies !nul_at(data@, offset as int, f) by {
                        if nul_at(data@, offset as int, f) {
                            lemma_nul_at_unique(data@, offset as int, f, 0);
                        }
                    }
                }
                return None;
            }
            return Some(vstd::slice::slice_subrange(data, offset, offset + e));
        }
        e = e + 1;
    }
    proof {
        assert forall|f: int| 1 <= f <= max implies !nul_at(data@, offset as int, f) by {
            if nul_at(data@, offset as int, f) {
                assert(f < e);
                assert(data@[offset + f] == 0);
            }
        }
    }
    None
}

/// The value of `bytes` read in `endian` order.
pub open spec fn endian_value(bytes: Seq<u8>, endian: Endian) -> nat {
    match endian {
        Endian::Little => le_value(bytes),
        Endian::Big => be_value(bytes),
    }
}

pub proof fn lemma_le_value_bound(bytes: Seq<u8>)
    ensures
        le_value(bytes) < vstd::arithmetic::power::pow(256, bytes.len()),
    decreases bytes.len(),
{
    reveal(vstd::arithmetic::power::pow);
    if bytes.len() > 0 {
        lemma_le_value_bound(bytes.drop_first());
        let p = vstd::arithmetic::power::pow(256, (bytes.len() - 1) as nat);
        assert(le_value(bytes) == bytes[0] as nat + 256 * le_value(bytes.drop_first()));
        assert(bytes[0] as nat + 256 * le_value(bytes.drop_first()) < 256 * p) by (nonlinear_arith)
            requires le_value(bytes.drop_first()) < p, bytes[0] < 256;
    }
}

pub proof fn lemma_be_value_bound(bytes: Seq<u8>)
    ensures
        be_value(bytes) < vstd::arithmetic::power::pow(256, bytes.len()),
    decreases bytes.len(),
{
    reveal(vstd::arithmetic::power::pow);
    if bytes.len() > 0 {
        lemma_be_value_bound(bytes.drop_last());
        let p = vstd::arithmetic::power::pow(256, (bytes.len() - 1) as nat);
        assert(256 * be_value(bytes.drop_last()) + bytes.last() < 256 * p) by (nonlinear_arith)
            requires be_value(bytes.drop_last()) < p, bytes.last() < 256;
    }
}

/// The powers of 256 that bound 2-, 4- and 8-byte integers.
proof fn lemma_pow256_widths()
    ensures
        vstd::arithmetic::power::pow(256, 2) == 65536,
        vstd::arithmetic::power::pow(256, 4) == 4294967296,
        vstd::arithmetic::power::pow(256, 8) == 18446744073709551616,
{
    reveal_with_fuel(vstd::arithmetic::power::pow, 9);
}

/// Reads `n` (at most 8) bytes at `offset` as an unsigned integer.
fn read_uint(data: &[u8], offset: usize, n: usize, endian: Endian) -> (res: Option<u64>)
    requires
        1 <= n <= 8,
    ensures
        match slice_at_spec(data@, offset as int, n as int) {
            Some(s) => res == Some(endian_value(s, endian) as u64) && endian_value(s, endian) < vstd::arithmetic::power::pow(256, n as nat),
            None => res is None,
        },
{
    let bytes = match slice_at(data, offset, n) {
        Some(bytes) => bytes,
        None => {
            return None;
        },
    };
    let ghost s = bytes@;
    proof {
        lemma_le_value_bound(s);
        lemma_be_value_bound(s);
        vstd::arithmetic::power::lemma_pow_increases(256, n as nat, 8);
        lemma_pow256_widths();
    }
    let mut value: u64 = 0;
    match endian {
        Endian::Little => {
            let mut i: usize = n;
            proof {
                assert(s.skip(n as int) =~= Seq::<u8>::empty());
                reveal(vstd::arithmetic::power::pow);
            }
            while i > 0
                invariant
                    i <= n <= 8,
                    bytes@ == s,
                    s.len() == n,
                    value as nat == le_value(s.skip(i as int)),
                    le_value(s.skip(i as int)) < vstd::arithmetic::power::pow(256, (n - i) as nat),
                    vstd::arithmetic::power::pow(256, n as nat) <= 18446744073709551616,
                decreases i,
            {
                let ghost tail = s.skip(i as int);
                proof {
                    assert(s.skip(i - 1) =~= seq![s[i - 1]] + tail);
                    assert(s.skip(i - 1).drop_first() =~= tail);
                    lemma_le_value_bound(s.skip(i - 1));
                    vstd::arithmetic::power::lemma_pow_increases(256, (n - i + 1) as nat, n as nat);
                }
                value = bytes[i - 1] as u64 + 256 * value;
                i = i - 1;
            }
            proof {
                assert(s.skip(0) =~= s);
            }
        },
        Endian::Big => {
            let mut i: usize = 0;
            while i < n
                invariant
                    i <= n <= 8,
                    bytes@ == s,
                    s.len() == n,
                    value as nat == be_value(s.take(i as int)),
                    vstd::arithmetic::power::pow(256, n as nat) <= 18446744073709551616,
                decreases n - i,
            {
                proof {
                    assert(s.take(i + 1).drop_last() =~= s.take(i as int));
                    lemma_be_value_bound(s.take(i + 1));
                    vstd::arithmetic::power::lemma_pow_increases(256, (i + 1) as nat, n as nat);
                }
                value = 256 * value + bytes[i] as u64;
                i = i + 1;
            }
            proof {
                assert(s.take(n as int) =~= s);
            }
        },
    }
    Some(value)
}

pub const READ_PATH: &'static str = "<memory>";

/// The refusal of a bounded read: the in-memory pseudo-path and `detail`.
pub open spec fn read_error_spec(e: NativeError, detail: Seq<char>) -> bool {
    e matches NativeError::CorruptArtifact { path, detail: d } && path@ == encode_utf8(READ_PATH@) && d@ == detail
}

fn read_error(detail: &str) -> (out: NativeError)
    ensures
        read_error_spec(out, detail@),
{
    NativeError::CorruptArtifact { path: crate::contract::identity::text_bytes(READ_PATH), detail: detail.to_owned() }
}

/// The 2 bytes at `offset`, read in `endian` order.
pub fn read_u16(data: &[u8], offset: usize, endian: Endian) -> (res: Result<u16, NativeError>)
    ensures
        match slice_at_spec(data@, offset as int, 2) {
            Some(s) => res == Ok::<u16, NativeError>(endian_value(s, endian) as u16) && endian_value(s, endian) < 65536,
            None => res matches Err(e) && read_error_spec(e, "bounded ELF u16 read failed"@),
        },
{
    proof {
        lemma_pow256_widths();
    }
    match read_uint(data, offset, 2, endian) {
        Some(v) => Ok(v as u16),
        None => Err(read_error("bounded ELF u16 read failed")),
    }
}

/// The 4 bytes at `offset`, read in `endian` order.
pub fn read_u32(data: &[u8], offset: usize, endian: Endian) -> (res: Result<u32, NativeError>)
    ensures
        match slice_at_spec(data@, offset as int, 4) {
            Some(s) => res == Ok::<u32, NativeError>(endian_value(s, endian) as u32) && endian_value(s, endian) < 4294967296,
            None => res matches Err(e) && read_error_spec(e, "bounded ELF u32 read failed"@),
        },
{
    proof {
        lemma_pow256_widths();
    }
    match read_uint(data, offset, 4, endian) {
        Some(v) => Ok(v as u32),
        None => Err(read_error("bounded ELF u32 read failed")),
    }
}

/// The 8 bytes at `offset`, read in `endian` order.
pub fn read_u64(data: &[u8], offset: usize, endian: Endian) -> (res: Result<u64, NativeError>)
    ensures
        match slice_at_spec(data@, offset as int, 8) {
            Some(s) => res == Ok::<u64, NativeError>(endian_value(s, endian) as u64) && endian_value(s, endian) < 18446744073709551616,
            None => res matches Err(e) && read_error_spec(e, "bounded ELF u64 read failed"@),
        },
{
    proof {
        lemma_pow256_widths();
    }
    match read_uint(data, offset, 8, endian) {
        Some(v) => Ok(v),
        None => Err(read_error("bounded ELF u64 read failed")),
    }
}


// ---------------------------------------------------------------------------
// Inspection results
// ---------------------------------------------------------------------------

/// A library an artifact needs, by the name its metadata records.
#[derive(Debug, Clone, PartialEq, Eq)]
pub struct NeededLibrary {
    name: Vec<u8>,
    provenance: DependencyProvenance,
}

impl NeededLibrary {
    pub closed spec fn spec_name(&self) -> Seq<u8> {
        self.name@
    }

    pub closed spec fn spec_provenance(&self) -> DependencyProvenance {
        self.provenance
    }

    pub fn new(name: Vec<u8>, provenance: DependencyProvenance) -> (out: Self)
        ensures
            out.spec_name() == name@,
            out.spec_provenance() == provenance,
    {
        NeededLibrary { name, provenance }
    }

    pub fn name(&self) -> (out: &[u8])
        ensures
            out@ == self.spec_name(),
    {
        self.name.as_slice()
    }

    pub fn provenance(&self) -> (out: DependencyProvenance)
        ensures
            out == self.spec_provenance(),
    {
        self.provenance
    }
}

/// Checked parser output before dependency names are bound to providers:
/// the artifact, its symbols and needed libraries, and the names it answers
/// to as a dependency.
#[derive(Debug, Clone, PartialEq, Eq)]
pub struct ArtifactInspection {
    artifact: ResolvedArtifact,
    inspection: InspectionProvenance,
    symbols: Vec<SymbolRecord>,
    dependencies: Vec<NeededLibrary>,
    provided_names: Vec<Vec<u8>>,
}

pub open spec fn names_of(names: Seq<Vec<u8>>) -> Seq<Seq<u8>> {
    names.map_values(|n: Vec<u8>| n@)
}

impl ArtifactInspection {
    pub closed spec fn spec_artifact(&self) -> ResolvedArtifact {
        self.artifact
    }

    pub closed spec fn spec_inspection(&self) -> InspectionProvenance {
        self.inspection
    }

    pub closed spec fn spec_symbols(&self) -> Seq<SymbolRecord> {
        self.symbols@
    }

    pub closed spec fn spec_dependencies(&self) -> Seq<NeededLibrary> {
        self.dependencies@
    }

    pub closed spec fn spec_provided_names(&self) -> Seq<Seq<u8>> {
        names_of(self.provided_names@)
    }

    /// A parsed artifact that answers to no name yet.
    pub fn new(
        artifact: ResolvedArtifact,
        inspection: InspectionProvenance,
        symbols: Vec<SymbolRecord>,
        dependencies: Vec<NeededLibrary>,
    ) -> (out: Self)
        ensures
            out.spec_artifact() == artifact,
            out.spec_inspection() == inspection,
            out.spec_symbols() == symbols@,
            out.spec_dependencies() == dependencies@,
            out.spec_provided_names() == Seq::<Seq<u8>>::empty(),
    {
        let out = ArtifactInspection { artifact, inspection, symbols, dependencies, provided_names: Vec::new() };
        assert(out.spec_provided_names() =~= Seq::<Seq<u8>>::empty());
        out
    }

    pub fn artifact(&self) -> (out: &ResolvedArtifact)
        ensures
            *out == self.spec_artifact(),
    {
        &self.artifact
    }

    pub fn symbols(&self) -> (out: &[SymbolRecord])
        ensures
            out@ == self.spec_symbols(),
    {
        self.symbols.as_slice()
    }

    pub fn inspection(&self) -> (out: &InspectionProvenance)
        ensures
            *out == self.spec_inspection(),
    {
        &self.inspection
    }

    pub fn dependencies(&self) -> (out: &[NeededLibrary])
        ensures
            out@ == self.spec_dependencies(),
    {
        self.dependencies.as_slice()
    }

    /// Whether this artifact answers to the dependency name `requested`:
    /// its file name, an input alias or its ELF `DT_SONAME`, compared as
    /// bytes.
    pub fn provides(&self, requested: &[u8]) -> (out: bool)
        ensures
            out <==> self.spec_provided_names().contains(requested@),
    {
        let mut i: usize = 0;
        while i < self.provided_names.len()
            invariant
                i <= self.provided_names@.len(),
                forall|j: int| 0 <= j < i ==> (#[trigger] self.provided_names@[j])@ != requested@,
            decreases self.provided_names@.len() - i,
        {
            if bytes_equal(self.provided_names[i].as_slice(), requested) {
                assert(self.spec_provided_names()[i as int] == requested@);
                return true;
            }
            i = i + 1;
        }
        proof {
            if self.spec_provided_names().contains(requested@) {
                let j = choose|j: int| 0 <= j < self.spec_provided_names().len() && self.spec_provided_names()[j] == requested@;
                assert(self.provided_names@[j]@ == requested@);
            }
        }
        false
    }

    pub fn provided_names(&self) -> (out: &[Vec<u8>])
        ensures
            names_of(out@) == self.spec_provided_names(),
    {
        self.provided_names.as_slice()
    }

    /// Adds a name the artifact answers to, unless it already does.
    pub fn add_provided_name(&mut self, name: Option<&[u8]>)
        ensures
            final(self).spec_artifact() == old(self).spec_artifact(),
            final(self).spec_inspection() == old(self).spec_inspection(),
            final(self).spec_symbols() == old(self).spec_symbols(),
            final(self).spec_dependencies() == old(self).spec_dependencies(),
            match name {
                Some(n) => if old(self).spec_provided_names().contains(n@) {
                    final(self).spec_provided_names() == old(self).spec_provided_names()
                } else {
                    final(self).spec_provided_names() == old(self).spec_provided_names().push(n@)
                },
                None => final(self).spec_provided_names() == old(self).spec_provided_names(),
            },
    {
        match name {
            Some(n) => {
                if !self.provides(n) {
                    let ghost before = self.provided_names@;
                    self.provided_names.push(crate::bytes::slice_to_vec(n));
                    proof {
                        assert(names_of(self.provided_names@) =~= names_of(before).push(n@));
                    }
                }
            },
            None => {},
        }
    }

    /// The inventory of this artifact with each needed library, in recorded
    /// order, bound to its provider (`None` where none was found).
    pub fn into_inventory(self, providers: &[Option<ProviderId>]) -> (res: Result<SymbolInventory, NativeError>)
        ensures
            providers@.len() != self.spec_dependencies().len() ==> (res matches Err(NativeError::InvalidPolicy { detail })
                && detail@ == "dependency provider count "@ + decimal_spec(providers@.len() as nat)
                + " differs from inspected count "@ + decimal_spec(self.spec_dependencies().len())),
            providers@.len() == self.spec_dependencies().len() && (exists|k: int|
                0 <= k < providers@.len() && !is_valid_native_string(#[trigger] self.spec_dependencies()[k].spec_name()))
                ==> res == Err::<SymbolInventory, NativeError>(
                NativeError::Contract(ContractError::InvalidNativeString { field: "dependency.requested" }),
            ),
            providers@.len() == self.spec_dependencies().len() && (forall|k: int|
                0 <= k < providers@.len() ==> is_valid_native_string(#[trigger] self.spec_dependencies()[k].spec_name()))
                ==> {
                &&& !ids_distinct(self.spec_symbols()) ==> (res matches Err(
                    NativeError::Contract(ContractError::DuplicateArtifactSymbolId { .. }),
                ))
                &&& ids_distinct(self.spec_symbols()) ==> (res matches Ok(inv) && {
                    &&& inv.spec_artifact() == self.spec_artifact()
                    &&& inv.spec_inspection() == self.spec_inspection()
                    &&& inv.spec_symbols().to_multiset() == self.spec_symbols().to_multiset()
                    &&& inv.spec_edges().len() == providers@.len()
                    &&& forall|k: int|
                        0 <= k < providers@.len() ==> (#[trigger] inv.spec_edges()[k]).spec_requested()
                            == self.spec_dependencies()[k].spec_name() && inv.spec_edges()[k].spec_provider()
                            == providers@[k] && inv.spec_edges()[k].spec_provenance()
                            == self.spec_dependencies()[k].spec_provenance()
                })
            },
    {
        if providers.len() != self.dependencies.len() {
            return Err(
                NativeError::InvalidPolicy {
                    detail: "dependency provider count ".to_owned().concat(decimal(providers.len() as u64).as_str()).concat(
                        " differs from inspected count ",
                    ).concat(decimal(self.dependencies.len() as u64).as_str()),
                },
            );
        }
        let ghost deps = self.spec_dependencies();
        let ghost syms = self.spec_symbols();
        let ArtifactInspection { artifact, inspection, symbols, dependencies, provided_names: _ } = self;
        let mut edges: Vec<DependencyEdge> = Vec::new();
        let mut k: usize = 0;
        while k < dependencies.len()
            invariant
                k <= dependencies@.len(),
                providers@.len() == dependencies@.len(),
                dependencies@ == deps,
                deps == self.spec_dependencies(),
                edges@.len() == k,
                forall|j: int| 0 <= j < k ==> is_valid_native_string(#[trigger] dependencies@[j].spec_name()),
                forall|j: int|
                    0 <= j < k ==> (#[trigger] edges@[j]).spec_requested() == dependencies@[j].spec_name()
                        && edges@[j].spec_provider() == providers@[j] && edges@[j].spec_provenance()
                        == dependencies@[j].spec_provenance(),
            decreases dependencies@.len() - k,
        {
            let dependency = &dependencies[k];
            let requested = crate::bytes::slice_to_vec(dependency.name());
            match DependencyEdge::try_new(requested, providers[k], dependency.provenance()) {
                Ok(edge) => edges.push(edge),
                Err(e) => {
                    return Err(NativeError::Contract(e));
                },
            }
            k = k + 1;
        }
        match SymbolInventory::try_new(artifact, inspection, symbols, edges) {
            Ok(inventory) => Ok(inventory),
            Err(e) => Err(NativeError::Contract(e)),
        }
    }
}


// ---------------------------------------------------------------------------
// Target facts
// ---------------------------------------------------------------------------

/// What an ELF header states of the target it was built for.
#[derive(Debug, Clone, Copy, PartialEq, Eq)]
pub struct TargetFacts {
    pub architecture: Architecture,
    pub endian: Endian,
    pub pointer_width: u16,
}

/// The certified native ABI of an architecture at a pointer width, on
/// Windows or elsewhere.
pub open spec fn native_abi_spec(windows: bool, architecture: Architecture, pointer_width: u16) -> Option<NativeAbi> {
    match architecture {
        Architecture::X86 => if pointer_width == 32 {
            Some(
                if windows {
                    NativeAbi::Win32
                } else {
                    NativeAbi::SysV32
                },
            )
        } else {
            None
        },
        Architecture::X86_64 => if pointer_width == 64 {
            Some(
                if windows {
                    NativeAbi::Win64
                } else {
                    NativeAbi::SysV64
                },
            )
        } else {
            None
        },
        Architecture::Arm => if pointer_width == 32 {
            Some(NativeAbi::Aapcs)
        } else {
            None
        },
        Architecture::Aarch64 => if pointer_width == 64 {
            Some(NativeAbi::Aapcs64)
        } else {
            None
        },
        Architecture::RiscV32 => if pointer_width == 32 {
            Some(NativeAbi::RiscV32)
        } else {
            None
        },
        Architecture::RiscV64 => if pointer_width == 64 {
            Some(NativeAbi::RiscV64)
        } else {
            None
        },
        Architecture::PowerPc => if pointer_width == 32 {
            Some(NativeAbi::PowerPc32SysV)
        } else {
            None
        },
        Architecture::PowerPc64 => if pointer_width == 64 {
            Some(NativeAbi::PowerPc64ElfV2)
        } else {
            None
        },
        Architecture::S390x => if pointer_width == 64 {
            Some(NativeAbi::S390x)
        } else {
            None
        },
        Architecture::Mips => if pointer_width == 32 {
            Some(NativeAbi::MipsO32)
        } else {
            None
        },
        Architecture::Mips64 => if pointer_width == 64 {
            Some(NativeAbi::MipsN64)
        } else {
            None
        },
        Architecture::Wasm32 => if pointer_width == 32 {
            Some(NativeAbi::Wasm32)
        } else {
            None
        },
        Architecture::Wasm64 => if pointer_width == 64 {
            Some(NativeAbi::Wasm64)
        } else {
            None
        },
        Architecture::Sparc64 => None,
    }
}

/// The name of an architecture as its variant is spelled.
pub fn architecture_name(architecture: Architecture) -> (out: &'static str)
    ensures
        out@ == architecture_name_spec(architecture),
{
    match architecture {
        Architecture::X86 => "X86",
        Architecture::X86_64 => "X86_64",
        Architecture::Arm => "Arm",
        Architecture::Aarch64 => "Aarch64",
        Architecture::RiscV32 => "RiscV32",
        Architecture::RiscV64 => "RiscV64",
        Architecture::PowerPc => "PowerPc",
        Architecture::PowerPc64 => "PowerPc64",
        Architecture::S390x => "S390x",
        Architecture::Mips => "Mips",
        Architecture::Mips64 => "Mips64",
        Architecture::Sparc64 => "Sparc64",
        Architecture::Wasm32 => "Wasm32",
        Architecture::Wasm64 => "Wasm64",
    }
}

pub open spec fn architecture_name_spec(architecture: Architecture) -> Seq<char> {
    match architecture {
        Architecture::X86 => "X86"@,
        Architecture::X86_64 => "X86_64"@,
        Architecture::Arm => "Arm"@,
        Architecture::Aarch64 => "Aarch64"@,
        Architecture::RiscV32 => "RiscV32"@,
        Architecture::RiscV64 => "RiscV64"@,
        Architecture::PowerPc => "PowerPc"@,
        Architecture::PowerPc64 => "PowerPc64"@,
        Architecture::S390x => "S390x"@,
        Architecture::Mips => "Mips"@,
        Architecture::Mips64 => "Mips64"@,
        Architecture::Sparc64 => "Sparc64"@,
        Architecture::Wasm32 => "Wasm32"@,
        Architecture::Wasm64 => "Wasm64"@,
    }
}

pub const NO_TARGET_PATH: &'static str = "<target>";

/// The native ABI the target's system uses for an architecture at a
/// pointer width; a combination without a certified ABI is refused.
pub fn native_abi(target: &TargetSpec, architecture: Architecture, pointer_width: u16) -> (res: Result<NativeAbi, NativeError>)
    ensures
        match native_abi_spec(target.operating_system == OperatingSystem::Windows, architecture, pointer_width) {
            Some(abi) => res == Ok::<NativeAbi, NativeError>(abi),
            None => res matches Err(NativeError::UnsupportedArtifact { path, detail }) && path@ == encode_utf8(
                NO_TARGET_PATH@,
            ) && detail@ == "no certified native ABI for "@ + architecture_name_spec(architecture) + "/"@
                + decimal_spec(pointer_width as nat),
        },
{
    let windows = target.operating_system == OperatingSystem::Windows;
    let abi = match architecture {
        Architecture::X86 if pointer_width == 32 => if windows {
            NativeAbi::Win32
        } else {
            NativeAbi::SysV32
        },
        Architecture::X86_64 if pointer_width == 64 => if windows {
            NativeAbi::Win64
        } else {
            NativeAbi::SysV64
        },
        Architecture::Arm if pointer_width == 32 => NativeAbi::Aapcs,
        Architecture::Aarch64 if pointer_width == 64 => NativeAbi::Aapcs64,
        Architecture::RiscV32 if pointer_width == 32 => NativeAbi::RiscV32,
        Architecture::RiscV64 if pointer_width == 64 => NativeAbi::RiscV64,
        Architecture::PowerPc if pointer_width == 32 => NativeAbi::PowerPc32SysV,
        Architecture::PowerPc64 if pointer_width == 64 => NativeAbi::PowerPc64ElfV2,
        Architecture::S390x if pointer_width == 64 => NativeAbi::S390x,
        Architecture::Mips if pointer_width == 32 => NativeAbi::MipsO32,
        Architecture::Mips64 if pointer_width == 64 => NativeAbi::MipsN64,
        Architecture::Wasm32 if pointer_width == 32 => NativeAbi::Wasm32,
        Architecture::Wasm64 if pointer_width == 64 => NativeAbi::Wasm64,
        _ => {
            return Err(
                NativeError::UnsupportedArtifact {
                    path: crate::contract::identity::text_bytes(NO_TARGET_PATH),
                    detail: "no certified native ABI for ".to_owned().concat(architecture_name(architecture)).concat(
                        "/",
                    ).concat(decimal(pointer_width as u64).as_str()),
                },
            );
        },
    };
    Ok(abi)
}

/// The linker flavor a target's object format and environment call for.
pub open spec fn linker_for(format: ObjectFormat, environment: Environment) -> LinkerFlavor {
    match format {
        ObjectFormat::Elf => LinkerFlavor::Gnu,
        ObjectFormat::MachO => LinkerFlavor::Darwin,
        ObjectFormat::Coff => if environment == Environment::Msvc {
            LinkerFlavor::Msvc
        } else {
            LinkerFlavor::Gnu
        },
        ObjectFormat::Wasm => LinkerFlavor::WasmLd,
        ObjectFormat::Xcoff => LinkerFlavor::Lld,
    }
}

/// The C runtime a target's environment and system call for.
pub open spec fn crt_for(environment: Environment, os: OperatingSystem) -> CrtFlavor {
    match environment {
        Environment::Gnu | Environment::GnuAbi64 => CrtFlavor::Glibc,
        Environment::Musl => CrtFlavor::Musl,
        Environment::Msvc => CrtFlavor::Msvc,
        _ => if is_darwin_family(os) {
            CrtFlavor::Darwin
        } else {
            CrtFlavor::Freestanding
        },
    }
}

/// The observed target of an ELF artifact: its header's architecture,
/// width and byte order with the requested target's system and
/// environment, and the ABI, linker and C runtime these call for.
pub fn target_from_facts(target: &TargetSpec, facts: TargetFacts) -> (res: Result<ObservedTarget, NativeError>)
    ensures
        match native_abi_spec(target.operating_system == OperatingSystem::Windows, facts.architecture, facts.pointer_width) {
            None => res matches Err(NativeError::UnsupportedArtifact { .. }),
            Some(abi) => {
                let parts = ObservedTargetParts {
                    target_fingerprint: target.fingerprint,
                    architecture: facts.architecture,
                    operating_system: target.operating_system,
                    environment: target.environment,
                    object_format: ObjectFormat::Elf,
                    endian: facts.endian,
                    pointer_width: facts.pointer_width,
                    abi,
                    linker: linker_for(target.object_format, target.environment),
                    crt: crt_for(target.environment, target.operating_system),
                };
                if crate::contract::model::valid_pointer_width(facts.pointer_width) {
                    res matches Ok(t) && t.spec_parts() == parts
                } else {
                    res == Err::<ObservedTarget, NativeError>(
                        NativeError::Contract(ContractError::InvalidPointerWidth { bits: facts.pointer_width }),
                    )
                }
            },
        },
{
    let abi = native_abi(target, facts.architecture, facts.pointer_width)?;
    let linker = match target.object_format {
        ObjectFormat::Elf => LinkerFlavor::Gnu,
        ObjectFormat::MachO => LinkerFlavor::Darwin,
        ObjectFormat::Coff => if target.environment == Environment::Msvc {
            LinkerFlavor::Msvc
        } else {
            LinkerFlavor::Gnu
        },
        ObjectFormat::Wasm => LinkerFlavor::WasmLd,
        ObjectFormat::Xcoff => LinkerFlavor::Lld,
    };
    let os = target.operating_system;
    let crt = match target.environment {
        Environment::Gnu | Environment::GnuAbi64 => CrtFlavor::Glibc,
        Environment::Musl => CrtFlavor::Musl,
        Environment::Msvc => CrtFlavor::Msvc,
        _ => if os == OperatingSystem::Darwin || os == OperatingSystem::MacOs || os == OperatingSystem::Ios || os
            == OperatingSystem::TvOs || os == OperatingSystem::WatchOs {
            CrtFlavor::Darwin
        } else {
            CrtFlavor::Freestanding
        },
    };
    match ObservedTarget::try_new(
        ObservedTargetParts {
            target_fingerprint: target.fingerprint,
            architecture: facts.architecture,
            operating_system: os,
            environment: target.environment,
            object_format: ObjectFormat::Elf,
            endian: facts.endian,
            pointer_width: facts.pointer_width,
            abi,
            linker,
            crt,
        },
    ) {
        Ok(t) => Ok(t),
        Err(e) => Err(NativeError::Contract(e)),
    }
}

// ---------------------------------------------------------------------------
// Symbols
// ---------------------------------------------------------------------------

/// ELF symbol binding and visibility: from `st_info` (binding in the high
/// nibble: 0 local, 2 weak, otherwise global) and `st_other` (visibility in
/// the low two bits: 1 internal, 2 hidden, 3 protected, 0 default) when the
/// parser reports them, else from the weak flag alone.
pub open spec fn binding_visibility_spec(elf_flags: Option<(u8, u8)>, weak: bool) -> (SymbolBinding, SymbolVisibility) {
    match elf_flags {
        Some((st_info, st_other)) => (
            if st_info >> 4u8 == 0 {
                SymbolBinding::Local
            } else if st_info >> 4u8 == 2 {
                SymbolBinding::Weak
            } else {
                SymbolBinding::Global
            },
            if st_other & 3u8 == 1 {
                SymbolVisibility::Internal
            } else if st_other & 3u8 == 2 {
                SymbolVisibility::Hidden
            } else if st_other & 3u8 == 3 {
                SymbolVisibility::Protected
            } else {
                SymbolVisibility::Default
            },
        ),
        None => (
            if weak {
                SymbolBinding::Weak
            } else {
                SymbolBinding::Global
            },
            SymbolVisibility::Default,
        ),
    }
}

pub fn symbol_binding_visibility(elf_flags: Option<(u8, u8)>, weak: bool) -> (out: (SymbolBinding, SymbolVisibility))
    ensures
        out == binding_visibility_spec(elf_flags, weak),
{
    match elf_flags {
        Some((st_info, st_other)) => {
            let bind = st_info >> 4u8;
            let binding = if bind == 0 {
                SymbolBinding::Local
            } else if bind == 2 {
                SymbolBinding::Weak
            } else {
                SymbolBinding::Global
            };
            let vis = st_other & 3u8;
            let visibility = if vis == 1 {
                SymbolVisibility::Internal
            } else if vis == 2 {
                SymbolVisibility::Hidden
            } else if vis == 3 {
                SymbolVisibility::Protected
            } else {
                SymbolVisibility::Default
            };
            (binding, visibility)
        },
        None => (
            if weak {
                SymbolBinding::Weak
            } else {
                SymbolBinding::Global
            },
            SymbolVisibility::Default,
        ),
    }
}

/// Text whose UTF-8 encoding is nonempty and NUL-free is nonempty and
/// NUL-free itself.
proof fn lemma_encoded_text(chars: Seq<char>)
    ensures
        chars.len() > 0 ==> encode_utf8(chars).len() > 0,
        chars.contains('\0') ==> has_byte(encode_utf8(chars), 0),
    decreases chars.len(),
{
    if chars.len() > 0 {
        let first = vstd::utf8::encode_scalar(chars[0] as u32);
        let rest = encode_utf8(chars.drop_first());
        assert(encode_utf8(chars) == first + rest);
        assert(first.len() > 0);
        lemma_encoded_text(chars.drop_first());
        if chars.contains('\0') {
            if chars[0] == '\0' {
                assert(chars[0] as u32 == 0);
                assert((0u32 & 0x7Fu32) as u8 == 0u8) by (bit_vector);
                assert(first[0] == 0u8);
                assert(encode_utf8(chars)[0] == 0u8);
            } else {
                let k = choose|k: int| 0 <= k < chars.len() && chars[k] == '\0';
                assert(chars.drop_first()[k - 1] == '\0');
                assert(chars.drop_first().contains('\0'));
                let j = choose|j: int| 0 <= j < rest.len() && rest[j] == 0u8;
                assert(encode_utf8(chars)[first.len() + j] == 0u8);
            }
        }
    }
}

/// The facts a parser reports of one symbol, as plain values.
#[derive(Debug, Clone, PartialEq, Eq)]
pub struct RawSymbol {
    pub name: Vec<u8>,
    pub kind: SymbolKind,
    pub undefined: bool,
    pub elf_flags: Option<(u8, u8)>,
    pub weak: bool,
    pub size: u64,
    pub address: u64,
    pub section: Option<Vec<u8>>,
    pub index: usize,
}

pub const INVALID_SYMBOL_NAME: &'static str = "symbol name is invalid or oversized";

pub const NON_UTF8_SYMBOL_NAME: &'static str = "ELF symbol name is not UTF-8; raw bytes were not discarded";

pub const SYMBOL_INDEX_OVERFLOW: &'static str = "symbol index does not fit the contract";

/// The facts of one symbol as read from an object file.
pub struct SymbolFacts {
    pub name: Seq<u8>,
    pub kind: SymbolKind,
    pub undefined: bool,
    pub elf_flags: Option<(u8, u8)>,
    pub weak: bool,
    pub size: u64,
    pub address: u64,
    pub section: Option<Seq<u8>>,
    pub index: usize,
}

/// The facts a parsed symbol carries.
pub open spec fn facts_of(raw: RawSymbol) -> SymbolFacts {
    SymbolFacts {
        name: raw.name@,
        kind: raw.kind,
        undefined: raw.undefined,
        elf_flags: raw.elf_flags,
        weak: raw.weak,
        size: raw.size,
        address: raw.address,
        section: match raw.section {
            Some(s) => Some(s@),
            None => None,
        },
        index: raw.index,
    }
}

/// A symbol with these facts is accepted: it has no name (and is passed
/// over), or its name is within the limit, has no NUL and is UTF-8, and its
/// index fits the contract.
pub open spec fn record_valid(f: SymbolFacts, limits: InspectionLimits) -> bool {
    f.name.len() == 0 || (f.name.len() <= limits.max_name_bytes && !has_byte(f.name, 0) && valid_utf8(f.name) && f.index
        <= u64::MAX)
}

/// The archive member a symbol was read from, as bytes.
pub open spec fn member_view(member: Option<&[u8]>) -> Option<Seq<u8>> {
    match member {
        Some(m) => Some(m@),
        None => None,
    }
}

/// A symbol version: its name and whether it is the default one.
pub open spec fn version_view(version: Option<&VersionInfo>) -> Option<(Seq<u8>, bool)> {
    match version {
        Some(v) => Some((v.name@, v.is_default)),
        None => None,
    }
}

/// `r` is the record of the named symbol with facts `f`, read from symbol
/// table `table_index`, from archive member `member`, with version
/// `version`.
pub open spec fn record_matches(
    r: SymbolRecord,
    f: SymbolFacts,
    table_index: u32,
    member: Option<Seq<u8>>,
    version: Option<(Seq<u8>, bool)>,
) -> bool {
    let i = r.spec_input();
    let (binding, visibility) = binding_visibility_spec(f.elf_flags, f.weak);
    &&& i.id.spec_table() == table_index && i.id.spec_symbol() == f.index as u64
    &&& encode_utf8(i.name@) == f.name
    &&& i.raw_name@ == f.name
    &&& (match version {
        Some((name, default)) => (i.version matches Some(x) && x@ == name) && (i.decoration matches SymbolDecoration::Versioned {
            version: y,
            is_default,
        } && y@ == name && is_default == default),
        None => i.version is None && i.decoration is Undecorated,
    })
    &&& i.direction == (if f.undefined {
        SymbolDirection::Imported
    } else {
        SymbolDirection::Exported
    })
    &&& i.kind == f.kind
    &&& i.binding == binding
    &&& i.visibility == visibility
    &&& i.size == f.size
    &&& i.address == (if f.undefined {
        None
    } else {
        Some(f.address)
    })
    &&& (match f.section {
        Some(sec) => i.section matches Some(x) && x@ == sec,
        None => i.section is None,
    })
    &&& (match member {
        Some(m) => i.archive_member matches Some(x) && x@ == m,
        None => i.archive_member is None,
    })
}

/// The record of a parsed symbol: none for an unnamed symbol; a name over
/// the limit, with a NUL, or not UTF-8 is refused; an undefined symbol is an
/// import without an address; a versioned one carries its version.
pub fn symbol_record(
    path: &[u8],
    raw: RawSymbol,
    table_index: u32,
    archive_member: Option<&[u8]>,
    version: Option<&VersionInfo>,
    limits: InspectionLimits,
) -> (res: Result<Option<SymbolRecord>, NativeError>)
    ensures
        res is Ok <==> record_valid(facts_of(raw), limits),
        res matches Ok(Some(r)) ==> raw.name@.len() > 0 && record_matches(
            r,
            facts_of(raw),
            table_index,
            member_view(archive_member),
            version_view(version),
        ),
        raw.name@.len() == 0 ==> res == Ok::<Option<SymbolRecord>, NativeError>(None),
        raw.name@.len() > 0 && (raw.name@.len() > limits.max_name_bytes || has_byte(raw.name@, 0)) ==> (res matches Err(
            NativeError::InvalidSymbol { path: p, detail },
        ) && p@ == path@ && detail@ == INVALID_SYMBOL_NAME@),
        raw.name@.len() > 0 && raw.name@.len() <= limits.max_name_bytes && !has_byte(raw.name@, 0) && !valid_utf8(raw.name@)
            ==> (res matches Err(NativeError::InvalidSymbol { path: p, detail }) && p@ == path@ && detail@
            == NON_UTF8_SYMBOL_NAME@),
        raw.name@.len() > 0 && raw.name@.len() <= limits.max_name_bytes && !has_byte(raw.name@, 0) && valid_utf8(raw.name@)
            ==> {
            let (binding, visibility) = binding_visibility_spec(raw.elf_flags, raw.weak);
            if raw.index > u64::MAX {
                res matches Err(NativeError::InvalidSymbol { path: p, detail }) && p@ == path@ && detail@
                    == SYMBOL_INDEX_OVERFLOW@
            } else {
                res matches Ok(Some(r)) && {
                    let i = r.spec_input();
                    &&& i.id.spec_table() == table_index && i.id.spec_symbol() == raw.index as u64
                    &&& encode_utf8(i.name@) == raw.name@
                    &&& i.raw_name@ == raw.name@
                    &&& (match version {
                        Some(v) => (i.version matches Some(x) && x@ == v.name@) && (i.decoration matches SymbolDecoration::Versioned {
                            version: y,
                            is_default,
                        } && y@ == v.name@ && is_default == v.is_default),
                        None => i.version is None && i.decoration is Undecorated,
                    })
                    &&& i.direction == (if raw.undefined {
                        SymbolDirection::Imported
                    } else {
                        SymbolDirection::Exported
                    })
                    &&& i.kind == raw.kind
                    &&& i.binding == binding
                    &&& i.visibility == visibility
                    &&& i.size == raw.size
                    &&& i.address == (if raw.undefined {
                        None
                    } else {
                        Some(raw.address)
                    })
                    &&& (match raw.section {
                        Some(sec) => i.section matches Some(x) && x@ == sec@,
                        None => i.section is None,
                    })
                    &&& (match archive_member {
                        Some(m) => i.archive_member matches Some(x) && x@ == m@,
                        None => i.archive_member is None,
                    })
                }
            }
        },
{
    if raw.name.len() == 0 {
        return Ok(None);
    }
    if raw.name.len() > limits.max_name_bytes || crate::contract::model::contains_byte(raw.name.as_slice(), 0) {
        return Err(NativeError::InvalidSymbol { path: slice_to_vec(path), detail: INVALID_SYMBOL_NAME.to_owned() });
    }
    let name = match string_from_utf8(slice_to_vec(raw.name.as_slice())) {
        Some(name) => name,
        None => {
            return Err(NativeError::InvalidSymbol { path: slice_to_vec(path), detail: NON_UTF8_SYMBOL_NAME.to_owned() });
        },
    };
    proof {
        lemma_encoded_text(name@);
        if name@.len() == 0 {
            assert(encode_utf8(name@) =~= Seq::<u8>::empty());
        }
    }
    let (binding, visibility) = symbol_binding_visibility(raw.elf_flags, raw.weak);
    let direction = if raw.undefined {
        SymbolDirection::Imported
    } else {
        SymbolDirection::Exported
    };
    if raw.index as u128 > u64::MAX as u128 {
        return Err(NativeError::InvalidSymbol { path: slice_to_vec(path), detail: SYMBOL_INDEX_OVERFLOW.to_owned() });
    }
    let (decoration, version_name) = match version {
        Some(v) => (
            SymbolDecoration::Versioned { version: slice_to_vec(v.name.as_slice()), is_default: v.is_default },
            Some(slice_to_vec(v.name.as_slice())),
        ),
        None => (SymbolDecoration::Undecorated, None),
    };
    let address = if raw.undefined {
        None
    } else {
        Some(raw.address)
    };
    let input = SymbolRecordInput {
        id: ArtifactSymbolId::new(table_index, raw.index as u64),
        name,
        raw_name: raw.name,
        version: version_name,
        direction,
        kind: raw.kind,
        binding,
        visibility,
        decoration,
        size: raw.size,
        address,
        section: raw.section,
        archive_member: match archive_member {
            Some(m) => Some(slice_to_vec(m)),
            None => None,
        },
    };
    match SymbolRecord::try_new(input) {
        Ok(r) => Ok(Some(r)),
        Err(e) => Err(NativeError::Contract(e)),
    }
}


// ---------------------------------------------------------------------------
// Admitting what was read
// ---------------------------------------------------------------------------

pub const SIZE_CHANGED: &'static str = "artifact size changed during inspection";

pub const MEMBER_COUNT_OVERFLOW: &'static str = "archive member count overflow";

pub const MEMBER_NAME_REFUSAL: &'static str = "archive member name is invalid or oversized";

pub const MEMBER_TABLE_OVERFLOW: &'static str = "archive symbol-table identity overflow";

/// Refuses, before reading, an artifact whose stated size exceeds the limit.
pub fn admit_stated_size(path: &[u8], stated: u64, limits: InspectionLimits) -> (res: Result<(), NativeError>)
    ensures
        stated > limits.max_artifact_bytes ==> (res matches Err(NativeError::ArtifactTooLarge { path: p, limit })
            && p@ == path@ && limit == limits.max_artifact_bytes),
        stated <= limits.max_artifact_bytes ==> res is Ok,
{
    if stated > limits.max_artifact_bytes {
        return Err(NativeError::ArtifactTooLarge { path: slice_to_vec(path), limit: limits.max_artifact_bytes });
    }
    Ok(())
}

/// Admits the bytes read for an artifact of stated size `stated`: more than
/// the limit is too large, none is empty, and a count other than the stated
/// size means the file changed while it was read.
pub fn admit_read(path: &[u8], stated: u64, read: usize, limits: InspectionLimits) -> (res: Result<(), NativeError>)
    ensures
        read > limits.max_artifact_bytes ==> (res matches Err(NativeError::ArtifactTooLarge { path: p, limit })
            && p@ == path@ && limit == limits.max_artifact_bytes),
        read <= limits.max_artifact_bytes && read == 0 ==> (res matches Err(NativeError::EmptyArtifact { path: p }) && p@
            == path@),
        read <= limits.max_artifact_bytes && read != 0 && read != stated ==> (res matches Err(
            NativeError::CorruptArtifact { path: p, detail },
        ) && p@ == path@ && detail@ == SIZE_CHANGED@),
        read <= limits.max_artifact_bytes && read != 0 && read == stated ==> res is Ok,
{
    if read as u64 > limits.max_artifact_bytes {
        return Err(NativeError::ArtifactTooLarge { path: slice_to_vec(path), limit: limits.max_artifact_bytes });
    }
    if read == 0 {
        return Err(NativeError::EmptyArtifact { path: slice_to_vec(path) });
    }
    if read as u64 != stated {
        return Err(NativeError::CorruptArtifact { path: slice_to_vec(path), detail: SIZE_CHANGED.to_owned() });
    }
    Ok(())
}

/// The member-count message of an archive over the member limit.
pub open spec fn member_limit_detail(max: usize) -> Seq<char> {
    "archive exceeds "@ + decimal_spec(max as nat) + " members"@
}

/// Admits the next member of an archive after `previous` members: the count
/// must stay within the limit, the name within the name limit and free of
/// NUL bytes, and the member's symbol-table identities, twice its position,
/// must fit in 32 bits. Gives the new count and the member's table base.
pub fn admit_archive_member(path: &[u8], previous: usize, name: &[u8], limits: InspectionLimits) -> (res: Result<
    (usize, u32),
    NativeError,
>)
    ensures
        previous == usize::MAX ==> (res matches Err(NativeError::CorruptArtifact { path: p, detail }) && p@ == path@
            && detail@ == MEMBER_COUNT_OVERFLOW@),
        previous < usize::MAX && previous + 1 > limits.max_archive_members ==> (res matches Err(
            NativeError::CorruptArtifact { path: p, detail },
        ) && p@ == path@ && detail@ == member_limit_detail(limits.max_archive_members)),
        previous < usize::MAX && previous + 1 <= limits.max_archive_members && (name@.len() > limits.max_name_bytes
            || name@.contains(0u8)) ==> (res matches Err(NativeError::CorruptArtifact { path: p, detail }) && p@ == path@
            && detail@ == MEMBER_NAME_REFUSAL@),
        previous < usize::MAX && previous + 1 <= limits.max_archive_members && !(name@.len() > limits.max_name_bytes
            || name@.contains(0u8)) ==> if previous * 2 <= u32::MAX {
            res == Ok::<(usize, u32), NativeError>(((previous + 1) as usize, (previous * 2) as u32))
        } else {
            res matches Err(NativeError::CorruptArtifact { path: p, detail }) && p@ == path@ && detail@ == MEMBER_TABLE_OVERFLOW@
        },
{
    if previous == usize::MAX {
        return Err(NativeError::CorruptArtifact { path: slice_to_vec(path), detail: MEMBER_COUNT_OVERFLOW.to_owned() });
    }
    let members = previous + 1;
    if members > limits.max_archive_members {
        let detail = "archive exceeds ".to_owned().concat(decimal(limits.max_archive_members as u64).as_str()).concat(" members");
        return Err(NativeError::CorruptArtifact { path: slice_to_vec(path), detail });
    }
    let mut has_nul = false;
    let mut i: usize = 0;
    while i < name.len()
        invariant
            i <= name@.len(),
            has_nul <==> exists|j: int| 0 <= j < i && name@[j] == 0u8,
        decreases name@.len() - i,
    {
        if name[i] == 0 {
            has_nul = true;
        }
        i = i + 1;
    }
    proof {
        if name@.contains(0u8) {
            let j = choose|j: int| 0 <= j < name@.len() && name@[j] == 0u8;
            assert(name@[j] == 0u8);
        }
        if has_nul {
            let j = choose|j: int| 0 <= j < name@.len() && name@[j] == 0u8;
            assert(name@[j] == 0u8);
        }
    }
    if name.len() > limits.max_name_bytes || has_nul {
        return Err(NativeError::CorruptArtifact { path: slice_to_vec(path), detail: MEMBER_NAME_REFUSAL.to_owned() });
    }
    if previous > 0x7fff_ffff {
        return Err(NativeError::CorruptArtifact { path: slice_to_vec(path), detail: MEMBER_TABLE_OVERFLOW.to_owned() });
    }
    Ok((members, (previous * 2) as u32))
}


/// Two records describe the same physical symbol: their raw names,
/// directions, kinds, bindings, visibilities, sizes, addresses and archive
/// members agree.
pub open spec fn same_physical(a: SymbolRecord, b: SymbolRecord) -> bool {
    let x = a.spec_input();
    let y = b.spec_input();
    &&& x.raw_name@ == y.raw_name@
    &&& x.direction == y.direction
    &&& x.kind == y.kind
    &&& x.binding == y.binding
    &&& x.visibility == y.visibility
    &&& x.size == y.size
    &&& x.address == y.address
    &&& match (x.archive_member, y.archive_member) {
        (Some(p), Some(q)) => p@ == q@,
        (None, None) => true,
        _ => false,
    }
}

fn same_physical_exec(a: &SymbolRecord, b: &SymbolRecord) -> (out: bool)
    ensures
        out == same_physical(*a, *b),
{
    let members = match (a.archive_member(), b.archive_member()) {
        (Some(p), Some(q)) => bytes_equal(p, q),
        (None, None) => true,
        _ => false,
    };
    bytes_equal(a.raw_name(), b.raw_name()) && a.direction() == b.direction() && a.kind() == b.kind() && a.binding()
        == b.binding() && a.visibility() == b.visibility() && a.size() == b.size() && a.address() == b.address() && members
}

/// Whether a regular-table symbol is kept beside the dynamic symbols: only
/// when no dynamic symbol is the same physical symbol.
pub fn admit_static_symbol(dynamic: &[SymbolRecord], record: &SymbolRecord) -> (out: bool)
    ensures
        out <==> forall|i: int| 0 <= i < dynamic@.len() ==> !same_physical(#[trigger] dynamic@[i], *record),
{
    let mut i: usize = 0;
    while i < dynamic.len()
        invariant
            i <= dynamic@.len(),
            forall|j: int| 0 <= j < i ==> !same_physical(#[trigger] dynamic@[j], *record),
        decreases dynamic@.len() - i,
    {
        if same_physical_exec(&dynamic[i], record) {
            return false;
        }
        i = i + 1;
    }
    true
}


/// The name `object` gives an object kind that is no link provider.
pub open spec fn object_kind_name(kind: ObjectKindTag) -> Seq<char> {
    match kind {
        ObjectKindTag::Unknown => "Unknown"@,
        ObjectKindTag::Relocatable => "Relocatable"@,
        ObjectKindTag::Executable => "Executable"@,
        ObjectKindTag::Dynamic => "Dynamic"@,
        ObjectKindTag::Core => "Core"@,
        ObjectKindTag::Other(name) => name@,
    }
}

/// The provider kind an inspected artifact is: an archive is a static
/// library, a relocatable ELF file an object and a dynamic one a dynamic
/// library; any other ELF kind is refused. The kind must be the one the
/// artifact was asked for as.
pub fn provider_kind(path: &[u8], archive: bool, kind: ObjectKindTag, expected: ArtifactKind) -> (res: Result<
    ArtifactKind,
    NativeError,
>)
    ensures
        ({
            let observed = if archive {
                Some(ArtifactKind::StaticLibrary)
            } else {
                match kind {
                    ObjectKindTag::Relocatable => Some(ArtifactKind::Object),
                    ObjectKindTag::Dynamic => Some(ArtifactKind::DynamicLibrary),
                    _ => None,
                }
            };
            match observed {
                None => res matches Err(NativeError::UnsupportedArtifact { path: p, detail }) && p@ == path@ && detail@
                    == "ELF object kind "@ + object_kind_name(kind) + " is not a link provider"@,
                Some(o) => if o == expected {
                    res == Ok::<ArtifactKind, NativeError>(o)
                } else {
                    res matches Err(NativeError::ArtifactKindMismatch { path: p, expected: e, observed: x }) && p@ == path@
                        && e == kind_label_spec(expected) && x == kind_label_spec(o)
                },
            }
        }),
{
    let observed = if archive {
        ArtifactKind::StaticLibrary
    } else {
        match kind {
            ObjectKindTag::Relocatable => ArtifactKind::Object,
            ObjectKindTag::Dynamic => ArtifactKind::DynamicLibrary,
            other => {
                let name = match other {
                    ObjectKindTag::Unknown => "Unknown".to_owned(),
                    ObjectKindTag::Executable => "Executable".to_owned(),
                    ObjectKindTag::Core => "Core".to_owned(),
                    ObjectKindTag::Other(name) => name,
                    ObjectKindTag::Relocatable => "Relocatable".to_owned(),
                    ObjectKindTag::Dynamic => "Dynamic".to_owned(),
                };
                let detail = "ELF object kind ".to_owned().concat(name.as_str()).concat(" is not a link provider");
                return Err(NativeError::UnsupportedArtifact { path: slice_to_vec(path), detail });
            },
        }
    };
    if observed != expected {
        return Err(
            NativeError::ArtifactKindMismatch {
                path: slice_to_vec(path),
                expected: super::resolve::kind_label(expected),
                observed: super::resolve::kind_label(observed),
            },
        );
    }
    Ok(observed)
}


pub const ARCHIVE_MEMBER_KIND_REFUSAL: &'static str = "static archives may contain only relocatable ELF members";

/// How a byte order is named in target labels.
pub open spec fn endian_name(endian: Endian) -> Seq<char> {
    match endian {
        Endian::Little => "Little"@,
        Endian::Big => "Big"@,
    }
}

/// The label of ELF target facts: format, architecture, width and byte order.
pub open spec fn facts_label_spec(facts: TargetFacts) -> Seq<char> {
    "ELF/"@ + architecture_name_spec(facts.architecture) + "/"@ + decimal_spec(facts.pointer_width as nat) + "-bit/"@
        + endian_name(facts.endian)
}

fn facts_label(facts: TargetFacts) -> (out: String)
    ensures
        out@ == facts_label_spec(facts),
{
    let endian = match facts.endian {
        Endian::Little => "Little",
        Endian::Big => "Big",
    };
    "ELF/".to_owned().concat(architecture_name(facts.architecture)).concat("/").concat(
        decimal(facts.pointer_width as u64).as_str(),
    ).concat("-bit/").concat(endian)
}

/// Two sets of target facts agree field by field.
pub open spec fn same_facts(a: TargetFacts, b: TargetFacts) -> bool {
    a.architecture == b.architecture && a.endian == b.endian && a.pointer_width == b.pointer_width
}

/// Admits one member of a static archive: it must be a relocatable object,
/// and its target facts must agree with those of the members before it.
/// Gives the archive's target facts so far.
pub fn admit_member_facts(path: &[u8], so_far: Option<TargetFacts>, member: TargetFacts, kind: ObjectKindTag) -> (res:
    Result<TargetFacts, NativeError>)
    ensures
        !(kind is Relocatable) ==> (res matches Err(NativeError::UnsupportedArtifact { path: p, detail }) && p@ == path@
            && detail@ == ARCHIVE_MEMBER_KIND_REFUSAL@),
        kind is Relocatable ==> match so_far {
            None => res == Ok::<TargetFacts, NativeError>(member),
            Some(first) => if same_facts(first, member) {
                res == Ok::<TargetFacts, NativeError>(first)
            } else {
                res matches Err(NativeError::TargetMismatch { path: p, requested, observed }) && p@ == path@ && requested@
                    == facts_label_spec(first) && observed@ == facts_label_spec(member)
            },
        },
{
    match kind {
        ObjectKindTag::Relocatable => {},
        _ => {
            return Err(
                NativeError::UnsupportedArtifact { path: slice_to_vec(path), detail: ARCHIVE_MEMBER_KIND_REFUSAL.to_owned() },
            );
        },
    }
    match so_far {
        None => Ok(member),
        Some(first) => {
            if first.architecture == member.architecture && first.endian == member.endian && first.pointer_width
                == member.pointer_width {
                Ok(first)
            } else {
                Err(
                    NativeError::TargetMismatch {
                        path: slice_to_vec(path),
                        requested: facts_label(first),
                        observed: facts_label(member),
                    },
                )
            }
        },
    }
}

} // verus!
