//! Deterministic provider-resolution rules: library file names, search-path
//! sets and the resolver's configuration.
use vstd::prelude::*;

use super::error::NativeError;
use super::inspect::{InspectionLimits, NativeInspector};
use crate::bytes::{bytes_equal, slice_to_vec};
use crate::contract::identity::{string_from_utf8, text_bytes};
use crate::contract::graph::{acyclic, edges_in_range, first_unranked, graph_view, on_cycle};
use crate::contract::identity::ProviderId;
use crate::contract::inventory::SymbolInventory;
use crate::contract::canonical::{keys_sorted, sort_by_key};
use crate::contract::link::{plan_valid, LinkAtom, ResolvedLinkPlan};
use crate::contract::request::{AnalysisRequest, ResolutionPolicy};
use crate::native::certify::{decimal, decimal_spec};
use crate::native::validate::{atom_provider, plan_links};
use vstd::string::StringExecFns;
use crate::contract::model::{kind_label_spec, ArtifactKind};
use crate::contract::request::WeakSymbolPolicy;
use crate::contract::{SourceFingerprint, TargetFingerprint};
use vstd::utf8::{encode_utf8, valid_utf8};

verus! {

#[derive(Debug, Clone, Copy, PartialEq, Eq, Hash, Structural)]
pub enum LibraryPreference {
    StaticOnly,
    DynamicOnly,
    PreferStatic,
    PreferDynamic,
}

/// Where the resolver may look beyond declared search paths, which library
/// kinds a bare dependency name may resolve to, and how many providers
/// dependency resolution may add.
#[derive(Debug, PartialEq, Eq)]
pub struct ResolverConfiguration {
    toolchain_search_paths: Vec<Vec<u8>>,
    library_preference: LibraryPreference,
    max_transitive_dependencies: usize,
}

pub const DEFAULT_MAX_TRANSITIVE_DEPENDENCIES: usize = 4096;

impl Clone for ResolverConfiguration {
    /// The same search paths, preference and limit.
    fn clone(&self) -> (out: Self)
        ensures
            out.spec_search_paths() == self.spec_search_paths(),
            out.spec_preference() == self.spec_preference(),
            out.spec_max_transitive() == self.spec_max_transitive(),
    {
        let mut paths: Vec<Vec<u8>> = Vec::new();
        let mut i: usize = 0;
        while i < self.toolchain_search_paths.len()
            invariant
                i <= self.toolchain_search_paths@.len(),
                paths@.len() == i,
                forall|k: int| 0 <= k < i ==> (#[trigger] paths@[k])@ == self.toolchain_search_paths@[k]@,
            decreases self.toolchain_search_paths@.len() - i,
        {
            paths.push(slice_to_vec(self.toolchain_search_paths[i].as_slice()));
            i = i + 1;
        }
        let out = ResolverConfiguration {
            toolchain_search_paths: paths,
            library_preference: self.library_preference,
            max_transitive_dependencies: self.max_transitive_dependencies,
        };
        assert(out.spec_search_paths() =~= self.spec_search_paths());
        out
    }
}

impl ResolverConfiguration {
    pub closed spec fn spec_search_paths(&self) -> Seq<Seq<u8>> {
        self.toolchain_search_paths@.map_values(|p: Vec<u8>| p@)
    }

    pub closed spec fn spec_preference(&self) -> LibraryPreference {
        self.library_preference
    }

    pub closed spec fn spec_max_transitive(&self) -> usize {
        self.max_transitive_dependencies
    }

    /// A configuration; the transitive dependency limit must be nonzero.
    pub fn new(
        toolchain_search_paths: Vec<Vec<u8>>,
        library_preference: LibraryPreference,
        max_transitive_dependencies: usize,
    ) -> (res: Result<Self, NativeError>)
        ensures
            max_transitive_dependencies != 0 ==> (res matches Ok(c) && c.spec_search_paths()
                == toolchain_search_paths@.map_values(|p: Vec<u8>| p@) && c.spec_preference() == library_preference
                && c.spec_max_transitive() == max_transitive_dependencies),
            max_transitive_dependencies == 0 ==> res matches Err(NativeError::InvalidPolicy { .. }),
    {
        if max_transitive_dependencies == 0 {
            return Err(NativeError::InvalidPolicy { detail: "transitive dependency limit must be nonzero".to_owned() });
        }
        Ok(ResolverConfiguration { toolchain_search_paths, library_preference, max_transitive_dependencies })
    }

    pub fn toolchain_search_paths(&self) -> (out: &[Vec<u8>])
        ensures
            out@.map_values(|p: Vec<u8>| p@) == self.spec_search_paths(),
    {
        self.toolchain_search_paths.as_slice()
    }

    pub fn library_preference(&self) -> (out: LibraryPreference)
        ensures
            out == self.spec_preference(),
    {
        self.library_preference
    }

    pub fn max_transitive_dependencies(&self) -> (out: usize)
        ensures
            out == self.spec_max_transitive(),
    {
        self.max_transitive_dependencies
    }
}

impl Default for ResolverConfiguration {
    /// No toolchain search paths, dynamic libraries only, and at most 4096
    /// transitive providers.
    fn default() -> (out: Self)
        ensures
            out.spec_search_paths() == Seq::<Seq<u8>>::empty(),
            out.spec_preference() == LibraryPreference::DynamicOnly,
            out.spec_max_transitive() == DEFAULT_MAX_TRANSITIVE_DEPENDENCIES,
    {
        let out = ResolverConfiguration {
            toolchain_search_paths: Vec::new(),
            library_preference: LibraryPreference::DynamicOnly,
            max_transitive_dependencies: DEFAULT_MAX_TRANSITIVE_DEPENDENCIES,
        };
        assert(out.spec_search_paths() =~= Seq::<Seq<u8>>::empty());
        out
    }
}

/// The outcome of resolution: the link plan and one inventory per provider,
/// bound to the source and target they were resolved against.
#[derive(Debug)]
pub struct NativeResolution {
    source_fingerprint: SourceFingerprint,
    target_fingerprint: TargetFingerprint,
    weak_symbol_policy: WeakSymbolPolicy,
    plan: ResolvedLinkPlan,
    inventories: Vec<SymbolInventory>,
}

impl NativeResolution {
    pub closed spec fn spec_source_fingerprint(&self) -> SourceFingerprint {
        self.source_fingerprint
    }

    pub closed spec fn spec_target_fingerprint(&self) -> TargetFingerprint {
        self.target_fingerprint
    }

    pub closed spec fn spec_weak_symbol_policy(&self) -> WeakSymbolPolicy {
        self.weak_symbol_policy
    }

    pub closed spec fn spec_plan(&self) -> ResolvedLinkPlan {
        self.plan
    }

    pub closed spec fn spec_inventories(&self) -> Seq<SymbolInventory> {
        self.inventories@
    }

    /// A resolution made of its parts, as the resolver assembles it.
    pub fn new(
        source_fingerprint: SourceFingerprint,
        target_fingerprint: TargetFingerprint,
        weak_symbol_policy: WeakSymbolPolicy,
        plan: ResolvedLinkPlan,
        inventories: Vec<SymbolInventory>,
    ) -> (out: Self)
        ensures
            out.spec_source_fingerprint() == source_fingerprint,
            out.spec_target_fingerprint() == target_fingerprint,
            out.spec_weak_symbol_policy() == weak_symbol_policy,
            out.spec_plan() == plan,
            out.spec_inventories() == inventories@,
    {
        NativeResolution { source_fingerprint, target_fingerprint, weak_symbol_policy, plan, inventories }
    }

    /// The source package this resolution was produced for.
    pub fn source_fingerprint(&self) -> (out: SourceFingerprint)
        ensures
            out == self.spec_source_fingerprint(),
    {
        self.source_fingerprint
    }

    /// The requested target every provider was inspected against.
    pub fn target_fingerprint(&self) -> (out: TargetFingerprint)
        ensures
            out == self.spec_target_fingerprint(),
    {
        self.target_fingerprint
    }

    /// The weak-provider policy taken from the analysis request.
    pub fn weak_symbol_policy(&self) -> (out: WeakSymbolPolicy)
        ensures
            out == self.spec_weak_symbol_policy(),
    {
        self.weak_symbol_policy
    }

    pub fn plan(&self) -> (out: &ResolvedLinkPlan)
        ensures
            *out == self.spec_plan(),
    {
        &self.plan
    }

    pub fn inventories(&self) -> (out: &[SymbolInventory])
        ensures
            out@ == self.spec_inventories(),
    {
        self.inventories.as_slice()
    }

    pub fn into_parts(self) -> (out: (ResolvedLinkPlan, Vec<SymbolInventory>))
        ensures
            out.0 == self.spec_plan(),
            out.1@ == self.spec_inventories(),
    {
        (self.plan, self.inventories)
    }
}

/// Resolves native inputs to inspected providers.
#[derive(Debug)]
pub struct NativeResolver {
    inspector: NativeInspector,
    configuration: ResolverConfiguration,
}

impl Clone for NativeResolver {
    /// The same inspector limits and configuration.
    fn clone(&self) -> (out: Self)
        ensures
            out.spec_inspector().spec_limits() == self.spec_inspector().spec_limits(),
            out.spec_configuration().spec_search_paths() == self.spec_configuration().spec_search_paths(),
            out.spec_configuration().spec_preference() == self.spec_configuration().spec_preference(),
            out.spec_configuration().spec_max_transitive() == self.spec_configuration().spec_max_transitive(),
    {
        NativeResolver { inspector: self.inspector.clone(), configuration: self.configuration.clone() }
    }
}

impl NativeResolver {
    pub closed spec fn spec_inspector(&self) -> NativeInspector {
        self.inspector
    }

    pub closed spec fn spec_configuration(&self) -> ResolverConfiguration {
        self.configuration
    }

    /// A resolver; the configuration's transitive limit must be nonzero.
    pub fn new(inspector: NativeInspector, configuration: ResolverConfiguration) -> (res: Result<Self, NativeError>)
        ensures
            configuration.spec_max_transitive() != 0 ==> (res matches Ok(r) && r.spec_inspector() == inspector
                && r.spec_configuration() == configuration),
            configuration.spec_max_transitive() == 0 ==> res matches Err(NativeError::InvalidPolicy { .. }),
    {
        if configuration.max_transitive_dependencies() == 0 {
            return Err(NativeError::InvalidPolicy { detail: "transitive dependency limit must be nonzero".to_owned() });
        }
        Ok(NativeResolver { inspector, configuration })
    }

    /// A resolver with the default inspector and configuration.
    pub fn with_defaults() -> (out: Self)
        ensures
            out.spec_inspector().spec_limits() == InspectionLimits::default_limits_spec(),
            out.spec_configuration().spec_search_paths() == Seq::<Seq<u8>>::empty(),
            out.spec_configuration().spec_max_transitive() == DEFAULT_MAX_TRANSITIVE_DEPENDENCIES,
            out.spec_configuration().spec_preference() == LibraryPreference::DynamicOnly,
    {
        NativeResolver { inspector: NativeInspector::with_default_limits(), configuration: ResolverConfiguration::default() }
    }

    pub fn inspector(&self) -> (out: &NativeInspector)
        ensures
            *out == self.spec_inspector(),
    {
        &self.inspector
    }

    pub fn configuration(&self) -> (out: &ResolverConfiguration)
        ensures
            *out == self.spec_configuration(),
    {
        &self.configuration
    }
}

/// The stable label of an artifact kind in resolution errors.
pub fn kind_label(kind: ArtifactKind) -> (out: &'static str)
    ensures
        out == kind_label_spec(kind),
{
    match kind {
        ArtifactKind::Object => "object",
        ArtifactKind::StaticLibrary => "static_library",
        ArtifactKind::DynamicLibrary => "dynamic_library",
        ArtifactKind::ImportLibrary => "import_library",
        ArtifactKind::Framework => "framework",
    }
}

/// Appends `path` unless an equal path is already present.
pub fn push_distinct(paths: &mut Vec<Vec<u8>>, path: Vec<u8>)
    ensures
        (exists|i: int| 0 <= i < old(paths)@.len() && #[trigger] old(paths)@[i]@ == path@) ==> final(paths)@ == old(
            paths,
        )@,
        !(exists|i: int| 0 <= i < old(paths)@.len() && #[trigger] old(paths)@[i]@ == path@) ==> final(paths)@ == old(
            paths,
        )@.push(path),
{
    let mut i: usize = 0;
    while i < paths.len()
        invariant
            i <= paths@.len(),
            paths@ == old(paths)@,
            forall|j: int| 0 <= j < i ==> #[trigger] paths@[j]@ != path@,
        decreases paths@.len() - i,
    {
        if bytes_equal(paths[i].as_slice(), path.as_slice()) {
            return;
        }
        i = i + 1;
    }
    paths.push(path);
}


// ---------------------------------------------------------------------------
// Library file names
// ---------------------------------------------------------------------------

pub open spec fn lib_bytes() -> Seq<u8> {
    seq![108u8, 105u8, 98u8]
}

pub open spec fn dot_a_bytes() -> Seq<u8> {
    seq![46u8, 97u8]
}

pub open spec fn dot_so_bytes() -> Seq<u8> {
    seq![46u8, 115u8, 111u8]
}

pub open spec fn dot_so_dot_bytes() -> Seq<u8> {
    seq![46u8, 115u8, 111u8, 46u8]
}

pub open spec fn has_prefix(b: Seq<u8>, p: Seq<u8>) -> bool {
    p.len() <= b.len() && b.take(p.len() as int) == p
}

pub open spec fn has_suffix(b: Seq<u8>, p: Seq<u8>) -> bool {
    p.len() <= b.len() && b.skip(b.len() - p.len()) == p
}

pub open spec fn contains_sub(b: Seq<u8>, p: Seq<u8>) -> bool {
    exists|i: int| 0 <= i && i + p.len() <= b.len() && #[trigger] b.subrange(i, i + p.len()) == p
}

/// `b` without a leading `lib`.
pub open spec fn strip_lib(b: Seq<u8>) -> Seq<u8> {
    if has_prefix(b, lib_bytes()) {
        b.skip(3)
    } else {
        b
    }
}

/// `b` without a trailing `.a`.
pub open spec fn strip_dot_a(b: Seq<u8>) -> Seq<u8> {
    if has_suffix(b, dot_a_bytes()) {
        b.take(b.len() - 2)
    } else {
        b
    }
}

pub const NON_UTF8_LIBRARY_NAME: &'static str =
    "ELF library names must be UTF-8; non-UTF8 input is never normalized lossily";

pub const NON_UTF8_DEPENDENCY_NAME: &'static str =
    "ELF dependency names must be UTF-8; non-UTF8 input is never normalized lossily";

pub const BAD_STATIC_NAME: &'static str = "static-library name is oversized or carries a dynamic-library suffix";

pub const BAD_DYNAMIC_NAME: &'static str = "dynamic-library name is oversized or carries a static-library suffix";

/// The static-library file for `name`: `lib<stem>.a`, where the stem drops a
/// leading `lib` and a trailing `.a`; or which check refuses it.
pub open spec fn static_filename_spec(name: Seq<u8>) -> Result<Seq<u8>, &'static str> {
    if !valid_utf8(name) {
        Err(NON_UTF8_LIBRARY_NAME)
    } else if name.len() > 4096 || contains_sub(name, dot_so_bytes()) {
        Err(BAD_STATIC_NAME)
    } else {
        Ok(lib_bytes() + strip_dot_a(strip_lib(name)) + dot_a_bytes())
    }
}

/// The dynamic-library file for `name`: `lib<stem>`, where the stem drops a
/// leading `lib` and gains `.so` unless it already has a shared-object
/// suffix; or which check refuses it.
pub open spec fn dynamic_filename_spec(name: Seq<u8>) -> Result<Seq<u8>, &'static str> {
    if !valid_utf8(name) {
        Err(NON_UTF8_LIBRARY_NAME)
    } else if name.len() > 4096 || has_suffix(name, dot_a_bytes()) {
        Err(BAD_DYNAMIC_NAME)
    } else if has_suffix(strip_lib(name), dot_so_bytes()) || contains_sub(strip_lib(name), dot_so_dot_bytes()) {
        Ok(lib_bytes() + strip_lib(name))
    } else {
        Ok(lib_bytes() + strip_lib(name) + dot_so_bytes())
    }
}

fn starts_with_bytes(b: &[u8], p: &[u8]) -> (out: bool)
    ensures
        out == has_prefix(b@, p@),
{
    if p.len() > b.len() {
        return false;
    }
    let mut i: usize = 0;
    while i < p.len()
        invariant
            i <= p@.len() <= b@.len(),
            forall|j: int| 0 <= j < i ==> b@[j] == p@[j],
        decreases p@.len() - i,
    {
        if b[i] != p[i] {
            assert(b@.take(p@.len() as int)[i as int] != p@[i as int]);
            return false;
        }
        i = i + 1;
    }
    assert(b@.take(p@.len() as int) =~= p@);
    true
}

fn ends_with_bytes(b: &[u8], p: &[u8]) -> (out: bool)
    ensures
        out == has_suffix(b@, p@),
{
    if p.len() > b.len() {
        return false;
    }
    let n = b.len();
    let off = n - p.len();
    let mut i: usize = 0;
    while i < p.len()
        invariant
            i <= p@.len() <= b@.len(),
            n == b@.len(),
            off == b@.len() - p@.len(),
            forall|j: int| 0 <= j < i ==> b@[off + j] == p@[j],
        decreases p@.len() - i,
    {
        if b[off + i] != p[i] {
            assert(b@.skip(off as int)[i as int] != p@[i as int]);
            return false;
        }
        i = i + 1;
    }
    assert(b@.skip(off as int) =~= p@);
    true
}

fn contains_bytes(b: &[u8], p: &[u8]) -> (out: bool)
    requires
        p@.len() > 0,
    ensures
        out == contains_sub(b@, p@),
{
    if p.len() > b.len() {
        proof {
            assert forall|i: int| 0 <= i && i + p@.len() <= b@.len() implies #[trigger] b@.subrange(i, i + p@.len())
                != p@ by {}
        }
        return false;
    }
    let n = b.len();
    let last = n - p.len();
    let mut i: usize = 0;
    while i <= last
        invariant
            n == b@.len(),
            p@.len() > 0,
            last == b@.len() - p@.len(),
            i <= last + 1,
            forall|k: int| 0 <= k < i ==> #[trigger] b@.subrange(k, k + p@.len()) != p@,
        decreases last + 1 - i,
    {
        let mut j: usize = 0;
        let mut matched = true;
        while j < p.len()
            invariant
                j <= p@.len(),
                n == b@.len(),
                i <= last,
                last == b@.len() - p@.len(),
                matched == (forall|m: int| 0 <= m < j ==> b@[i + m] == p@[m]),
            decreases p@.len() - j,
        {
            if b[i + j] != p[j] {
                matched = false;
            }
            j = j + 1;
        }
        if matched {
            assert(b@.subrange(i as int, i + p@.len()) =~= p@);
            return true;
        }
        proof {
            let m = choose|m: int| 0 <= m < p@.len() && b@[i + m] != p@[m];
            assert(b@.subrange(i as int, i + p@.len())[m] != p@[m]);
        }
        i = i + 1;
    }
    false
}

fn unsupported(detail: &str) -> (out: NativeError)
    ensures
        out matches NativeError::UnsupportedInput { detail: d } && d@ == detail@,
{
    NativeError::UnsupportedInput { detail: detail.to_owned() }
}

/// Whether `bytes` are valid UTF-8.
pub(crate) fn is_utf8(bytes: &[u8]) -> (out: bool)
    ensures
        out == valid_utf8(bytes@),
{
    string_from_utf8(slice_to_vec(bytes)).is_some()
}

/// The stem of a library name: without a leading `lib`.
fn strip_lib_exec(name: &[u8]) -> (out: Vec<u8>)
    ensures
        out@ == strip_lib(name@),
{
    let lib: [u8; 3] = [108, 105, 98];
    proof {
        assert(lib@ =~= lib_bytes());
    }
    if starts_with_bytes(name, lib.as_slice()) {
        slice_to_vec(vstd::slice::slice_subrange(name, 3, name.len()))
    } else {
        slice_to_vec(name)
    }
}

/// The file name of the static library `name` (see `static_filename_spec`).
pub fn static_filename(name: &[u8]) -> (res: Result<Vec<u8>, NativeError>)
    ensures
        match static_filename_spec(name@) {
            Ok(f) => res matches Ok(r) && r@ == f,
            Err(detail) => res matches Err(NativeError::UnsupportedInput { detail: d }) && d@ == detail@,
        },
{
    if !is_utf8(name) {
        return Err(unsupported(NON_UTF8_LIBRARY_NAME));
    }
    let so: [u8; 3] = [46, 115, 111];
    let dot_a: [u8; 2] = [46, 97];
    proof {
        assert(so@ =~= dot_so_bytes());
        assert(dot_a@ =~= dot_a_bytes());
    }
    if name.len() > 4096 || contains_bytes(name, so.as_slice()) {
        return Err(unsupported(BAD_STATIC_NAME));
    }
    let stem = strip_lib_exec(name);
    let stem = if ends_with_bytes(stem.as_slice(), dot_a.as_slice()) {
        slice_to_vec(vstd::slice::slice_subrange(stem.as_slice(), 0, stem.len() - 2))
    } else {
        stem
    };
    let mut out: Vec<u8> = vec![108, 105, 98];
    let mut tail = stem;
    out.append(&mut tail);
    out.push(46);
    out.push(97);
    proof {
        assert(out@ =~= lib_bytes() + strip_dot_a(strip_lib(name@)) + dot_a_bytes());
    }
    Ok(out)
}

/// The file name of the dynamic library `name` (see `dynamic_filename_spec`).
pub fn dynamic_filename(name: &[u8]) -> (res: Result<Vec<u8>, NativeError>)
    ensures
        match dynamic_filename_spec(name@) {
            Ok(f) => res matches Ok(r) && r@ == f,
            Err(detail) => res matches Err(NativeError::UnsupportedInput { detail: d }) && d@ == detail@,
        },
{
    if !is_utf8(name) {
        return Err(unsupported(NON_UTF8_LIBRARY_NAME));
    }
    let so: [u8; 3] = [46, 115, 111];
    let so_dot: [u8; 4] = [46, 115, 111, 46];
    let dot_a: [u8; 2] = [46, 97];
    proof {
        assert(so@ =~= dot_so_bytes());
        assert(so_dot@ =~= dot_so_dot_bytes());
        assert(dot_a@ =~= dot_a_bytes());
    }
    if name.len() > 4096 || ends_with_bytes(name, dot_a.as_slice()) {
        return Err(unsupported(BAD_DYNAMIC_NAME));
    }
    let stem = strip_lib_exec(name);
    let versioned = ends_with_bytes(stem.as_slice(), so.as_slice()) || contains_bytes(
        stem.as_slice(),
        so_dot.as_slice(),
    );
    let mut out: Vec<u8> = vec![108, 105, 98];
    let mut tail = stem;
    out.append(&mut tail);
    if !versioned {
        out.push(46);
        out.push(115);
        out.push(111);
    }
    proof {
        if versioned {
            assert(out@ =~= lib_bytes() + strip_lib(name@));
        } else {
            assert(out@ =~= lib_bytes() + strip_lib(name@) + dot_so_bytes());
        }
    }
    Ok(out)
}

/// Whether a dependency name already names a library file.
pub open spec fn names_library_file(name: Seq<u8>) -> bool {
    has_suffix(name, dot_a_bytes()) || has_suffix(name, dot_so_bytes()) || contains_sub(name, dot_so_dot_bytes())
}

/// The candidate file names for a dependency, in the order the preference
/// tries them; or which check refuses the name.
pub open spec fn dependency_filenames_spec(name: Seq<u8>, preference: LibraryPreference) -> Result<
    Seq<Seq<u8>>,
    &'static str,
> {
    if !valid_utf8(name) {
        Err(NON_UTF8_DEPENDENCY_NAME)
    } else if names_library_file(name) {
        Ok(seq![name])
    } else {
        match static_filename_spec(name) {
            Err(e) => Err(e),
            Ok(s) => match dynamic_filename_spec(name) {
                Err(e) => Err(e),
                Ok(d) => Ok(
                    match preference {
                        LibraryPreference::StaticOnly => seq![s],
                        LibraryPreference::DynamicOnly => seq![d],
                        LibraryPreference::PreferStatic => seq![s, d],
                        LibraryPreference::PreferDynamic => seq![d, s],
                    },
                ),
            },
        }
    }
}

/// The four preferences list the same candidates: the two "prefer" orders
/// are each other's reverse, each "only" preference keeps the first of its
/// "prefer" order, and a name refused under one preference is refused with
/// the same reason under all.
pub proof fn lemma_dependency_preferences_agree(name: Seq<u8>)
    ensures
        match dependency_filenames_spec(name, LibraryPreference::PreferStatic) {
            Ok(fs) => (fs.len() == 1 && dependency_filenames_spec(name, LibraryPreference::PreferDynamic) == Ok::<Seq<Seq<u8>>, &'static str>(fs)
                && dependency_filenames_spec(name, LibraryPreference::StaticOnly) == Ok::<Seq<Seq<u8>>, &'static str>(fs)
                && dependency_filenames_spec(name, LibraryPreference::DynamicOnly) == Ok::<Seq<Seq<u8>>, &'static str>(fs)) || (fs.len() == 2
                && dependency_filenames_spec(name, LibraryPreference::PreferDynamic) == Ok::<Seq<Seq<u8>>, &'static str>(seq![fs[1], fs[0]])
                && dependency_filenames_spec(name, LibraryPreference::StaticOnly) == Ok::<Seq<Seq<u8>>, &'static str>(seq![fs[0]])
                && dependency_filenames_spec(name, LibraryPreference::DynamicOnly) == Ok::<Seq<Seq<u8>>, &'static str>(seq![fs[1]])),
            Err(e) => dependency_filenames_spec(name, LibraryPreference::PreferDynamic) == Err::<Seq<Seq<u8>>, &'static str>(e)
                && dependency_filenames_spec(name, LibraryPreference::StaticOnly) == Err::<Seq<Seq<u8>>, &'static str>(e)
                && dependency_filenames_spec(name, LibraryPreference::DynamicOnly) == Err::<Seq<Seq<u8>>, &'static str>(e),
        },
{
}

/// A bare library name is searched as `lib...` files: the static candidate
/// ends in `.a` and the dynamic one names a shared object (ending in `.so`
/// or carrying a `.so.` version) and never ends in `.a`.
pub proof fn lemma_bare_names_become_library_files(name: Seq<u8>)
    requires
        dependency_filenames_spec(name, LibraryPreference::PreferStatic) is Ok,
        !names_library_file(name),
    ensures
        ({
            let fs = dependency_filenames_spec(name, LibraryPreference::PreferStatic)->Ok_0;
            &&& fs.len() == 2
            &&& has_prefix(fs[0], seq![108u8, 105u8, 98u8]) && has_suffix(fs[0], seq![46u8, 97u8])
            &&& has_prefix(fs[1], seq![108u8, 105u8, 98u8])
            &&& has_suffix(fs[1], seq![46u8, 115u8, 111u8]) || contains_sub(fs[1], seq![46u8, 115u8, 111u8, 46u8])
            &&& !has_suffix(fs[1], seq![46u8, 97u8])
        }),
{
    let st = lib_bytes() + strip_dot_a(strip_lib(name)) + dot_a_bytes();
    assert(st.take(3) =~= lib_bytes());
    assert(st.skip(st.len() - 2) =~= dot_a_bytes());
    let x = strip_lib(name);
    let base = lib_bytes() + x;
    assert(base.take(3) =~= lib_bytes());
    if has_suffix(x, dot_so_bytes()) {
        assert(base.skip(base.len() - 3) =~= x.skip(x.len() - 3));
        assert(base.skip(base.len() - 2) =~= x.skip(x.len() - 2));
        assert(x.skip(x.len() - 2) =~= x.skip(x.len() - 3).skip(1));
        assert(base.skip(base.len() - 2) != dot_a_bytes()) by {
            assert(base.skip(base.len() - 2)[1] == 111u8);
        }
    } else if contains_sub(x, dot_so_dot_bytes()) {
        let i = choose|i: int| 0 <= i && i + dot_so_dot_bytes().len() <= x.len() && #[trigger] x.subrange(i, i + dot_so_dot_bytes().len())
            == dot_so_dot_bytes();
        let j = i + 3;
        assert(base.subrange(j, j + dot_so_dot_bytes().len()) =~= x.subrange(i, i + 4));
        assert(base.subrange(j, j + dot_so_dot_bytes().len()) == dot_so_dot_bytes());
        assert(contains_sub(base, dot_so_dot_bytes()));
        if x.len() >= 2 {
            assert(base.skip(base.len() - 2) =~= x.skip(x.len() - 2));
        }
        assert(!has_suffix(base, dot_a_bytes())) by {
            if has_suffix(base, dot_a_bytes()) {
                if x.len() >= 2 {
                    assert(has_suffix(x, dot_a_bytes()));
                    assert(x.len() == name.len() || x == name.skip(3));
                    if x == name.skip(3) {
                        assert(name.skip(name.len() - 2) =~= x.skip(x.len() - 2));
                    }
                    assert(has_suffix(name, dot_a_bytes()));
                } else {
                    assert(false);
                }
            }
        }
    } else {
        let dy = base + dot_so_bytes();
        assert(dy.take(3) =~= lib_bytes());
        assert(dy.skip(dy.len() - 3) =~= dot_so_bytes());
        assert(dy.skip(dy.len() - 2) =~= seq![115u8, 111u8]);
    }
}

/// A UTF-8 dependency name that already names a library file (ending in
/// `.so` or `.a`, or carrying a `.so.` version) is its own sole candidate,
/// under every preference.
pub proof fn lemma_library_file_names_searched_as_is(name: Seq<u8>, preference: LibraryPreference, i: int)
    requires
        valid_utf8(name),
        (name.len() >= 3 && name.subrange(name.len() - 3, name.len() as int) == seq![46u8, 115u8, 111u8])
            || (name.len() >= 2 && name.subrange(name.len() - 2, name.len() as int) == seq![46u8, 97u8])
            || (0 <= i && i + 4 <= name.len() && name.subrange(i, i + 4) == seq![46u8, 115u8, 111u8, 46u8]),
    ensures
        dependency_filenames_spec(name, preference) == Ok::<Seq<Seq<u8>>, &'static str>(seq![name]),
{
    if name.len() >= 3 && name.subrange(name.len() - 3, name.len() as int) == seq![46u8, 115u8, 111u8] {
        assert(name.skip(name.len() - 3) =~= name.subrange(name.len() - 3, name.len() as int));
        assert(has_suffix(name, dot_so_bytes()));
    } else if name.len() >= 2 && name.subrange(name.len() - 2, name.len() as int) == seq![46u8, 97u8] {
        assert(name.skip(name.len() - 2) =~= name.subrange(name.len() - 2, name.len() as int));
        assert(has_suffix(name, dot_a_bytes()));
    } else {
        assert(name.subrange(i, i + dot_so_dot_bytes().len()) == dot_so_dot_bytes());
        assert(contains_sub(name, dot_so_dot_bytes()));
    }
}

/// The candidate file names for a dependency (see `dependency_filenames_spec`).
pub fn dependency_filenames(name: &[u8], preference: LibraryPreference) -> (res: Result<Vec<Vec<u8>>, NativeError>)
    ensures
        match dependency_filenames_spec(name@, preference) {
            Ok(fs) => res matches Ok(r) && r@.map_values(|f: Vec<u8>| f@) == fs,
            Err(detail) => res matches Err(NativeError::UnsupportedInput { detail: d }) && d@ == detail@,
        },
{
    if !is_utf8(name) {
        return Err(unsupported(NON_UTF8_DEPENDENCY_NAME));
    }
    let so: [u8; 3] = [46, 115, 111];
    let so_dot: [u8; 4] = [46, 115, 111, 46];
    let dot_a: [u8; 2] = [46, 97];
    proof {
        assert(so@ =~= dot_so_bytes());
        assert(so_dot@ =~= dot_so_dot_bytes());
        assert(dot_a@ =~= dot_a_bytes());
    }
    if ends_with_bytes(name, dot_a.as_slice()) || ends_with_bytes(name, so.as_slice()) || contains_bytes(
        name,
        so_dot.as_slice(),
    ) {
        let out = vec![slice_to_vec(name)];
        assert(out@.map_values(|f: Vec<u8>| f@) =~= seq![name@]);
        return Ok(out);
    }
    let static_name = static_filename(name)?;
    let dynamic_name = dynamic_filename(name)?;
    let out = match preference {
        LibraryPreference::StaticOnly => vec![static_name],
        LibraryPreference::DynamicOnly => vec![dynamic_name],
        LibraryPreference::PreferStatic => vec![static_name, dynamic_name],
        LibraryPreference::PreferDynamic => vec![dynamic_name, static_name],
    };
    proof {
        let fs = dependency_filenames_spec(name@, preference);
        assert(out@.map_values(|f: Vec<u8>| f@) =~= fs->Ok_0);
    }
    Ok(out)
}

// ---------------------------------------------------------------------------
// Candidate selection
// ---------------------------------------------------------------------------

/// `s` with later repeats (by bytes) dropped, first occurrences kept in order.
pub open spec fn dedup_paths(s: Seq<Seq<u8>>) -> Seq<Seq<u8>>
    decreases s.len(),
{
    if s.len() == 0 {
        s
    } else {
        let prefix = dedup_paths(s.drop_last());
        if prefix.contains(s.last()) {
            prefix
        } else {
            prefix.push(s.last())
        }
    }
}

/// The outcome of choosing among candidate files, tried one file name at a
/// time in priority order.
pub enum CandidateChoice {
    Found(Seq<u8>),
    Ambiguous(Seq<Seq<u8>>),
    Missing,
}

/// The first file name (in priority order) with any existing candidate
/// decides: one distinct candidate is the provider, several are ambiguous.
pub open spec fn choose_candidate_spec(found: Seq<Seq<Seq<u8>>>) -> CandidateChoice
    decreases found.len(),
{
    if found.len() == 0 {
        CandidateChoice::Missing
    } else {
        let first = dedup_paths(found[0]);
        if first.len() == 0 {
            choose_candidate_spec(found.drop_first())
        } else if first.len() == 1 {
            CandidateChoice::Found(first[0])
        } else {
            CandidateChoice::Ambiguous(first)
        }
    }
}

pub const EMPTY_CANDIDATE_SET: &'static str = "<empty candidate set>";

fn dedup_exec(paths: &Vec<Vec<u8>>) -> (out: Vec<Vec<u8>>)
    ensures
        out@.map_values(|p: Vec<u8>| p@) == dedup_paths(paths@.map_values(|p: Vec<u8>| p@)),
{
    let ghost view = paths@.map_values(|p: Vec<u8>| p@);
    let mut out: Vec<Vec<u8>> = Vec::new();
    let mut i: usize = 0;
    while i < paths.len()
        invariant
            i <= paths@.len(),
            view == paths@.map_values(|p: Vec<u8>| p@),
            out@.map_values(|p: Vec<u8>| p@) == dedup_paths(view.take(i as int)),
        decreases paths@.len() - i,
    {
        let ghost before = out@.map_values(|p: Vec<u8>| p@);
        proof {
            assert(view.take(i + 1).drop_last() =~= view.take(i as int));
            assert(view.take(i + 1).last() == paths@[i as int]@);
        }
        let path = slice_to_vec(paths[i].as_slice());
        let ghost before_vec = out@;
        let ghost x = paths@[i as int]@;
        push_distinct(&mut out, path);
        proof {
            let after = out@.map_values(|p: Vec<u8>| p@);
            if before.contains(x) {
                let k = choose|k: int| 0 <= k < before.len() && before[k] == x;
                assert(before_vec[k]@ == x);
                assert(out@ == before_vec);
            } else {
                assert forall|j: int| 0 <= j < before_vec.len() implies #[trigger] before_vec[j]@ != x by {
                    assert(before[j] == before_vec[j]@);
                }
                assert(out@ == before_vec.push(path));
            }
            assert(after =~= dedup_paths(view.take(i + 1)));
        }
        i = i + 1;
    }
    proof {
        assert(view.take(paths@.len() as int) =~= view);
    }
    out
}

/// Picks the provider file among the canonical paths found for each
/// candidate file name (`found[k]` for `filenames[k]`, in search-path order).
/// Only the first name with any candidate is considered; a name that matches
/// two distinct files is ambiguous, and no match at all is a missing provider
/// reported under the first requested name.
pub fn unique_candidate_by_priority(filenames: &[Vec<u8>], found: &[Vec<Vec<u8>>]) -> (res: Result<Vec<u8>, NativeError>)
    requires
        filenames@.len() == found@.len(),
    ensures
        match choose_candidate_spec(found@.map_values(|c: Vec<Vec<u8>>| c@.map_values(|p: Vec<u8>| p@))) {
            CandidateChoice::Found(p) => res matches Ok(r) && r@ == p,
            CandidateChoice::Ambiguous(cs) => res matches Err(NativeError::AmbiguousProvider { requested, candidates })
                && requested@ == filenames@[0]@ && candidates@.map_values(|p: Vec<u8>| p@) == cs,
            CandidateChoice::Missing => res matches Err(NativeError::MissingProvider { requested }) && (if filenames@.len()
                > 0 {
                requested@ == filenames@[0]@
            } else {
                requested@ == encode_utf8(EMPTY_CANDIDATE_SET@)
            }),
        },
{
    let ghost all = found@.map_values(|c: Vec<Vec<u8>>| c@.map_values(|p: Vec<u8>| p@));
    assert(all.skip(0) =~= all);
    let mut k: usize = 0;
    while k < found.len()
        invariant
            k <= found@.len(),
            filenames@.len() == found@.len(),
            all == found@.map_values(|c: Vec<Vec<u8>>| c@.map_values(|p: Vec<u8>| p@)),
            choose_candidate_spec(all) == choose_candidate_spec(all.skip(k as int)),
        decreases found@.len() - k,
    {
        let candidates = dedup_exec(&found[k]);
        proof {
            assert(all.skip(k as int)[0] == found@[k as int]@.map_values(|p: Vec<u8>| p@));
            assert(all.skip(k as int).drop_first() =~= all.skip(k + 1));
        }
        if candidates.len() == 1 {
            let mut candidates = candidates;
            let path = candidates.remove(0);
            return Ok(path);
        }
        if candidates.len() > 1 {
            let requested = slice_to_vec(filenames[0].as_slice());
            return Err(NativeError::AmbiguousProvider { requested, candidates });
        }
        k = k + 1;
    }
    proof {
        assert(all.skip(found@.len() as int) =~= Seq::<Seq<Seq<u8>>>::empty());
    }
    if filenames.len() > 0 {
        Err(NativeError::MissingProvider { requested: slice_to_vec(filenames[0].as_slice()) })
    } else {
        Err(NativeError::MissingProvider { requested: text_bytes(EMPTY_CANDIDATE_SET) })
    }
}

// ---------------------------------------------------------------------------
// Dependency cycles
// ---------------------------------------------------------------------------

/// The first position of `p` among `providers`.
pub open spec fn provider_index(providers: Seq<ProviderId>, p: ProviderId) -> Option<int> {
    if exists|i: int| 0 <= i < providers.len() && providers[i] == p {
        Some(choose|i: int| 0 <= i < providers.len() && providers[i] == p && forall|j: int| 0 <= j < i ==> providers[j] != p)
    } else {
        None
    }
}

/// The node indices of the providers bound in `row`, skipping unbound
/// dependencies and providers that are not among `providers`.
pub open spec fn children_of(providers: Seq<ProviderId>, row: Seq<Option<ProviderId>>) -> Seq<usize>
    decreases row.len(),
{
    if row.len() == 0 {
        Seq::empty()
    } else {
        let rest = children_of(providers, row.drop_last());
        match row.last() {
            Some(p) => match provider_index(providers, p) {
                Some(i) => rest.push(i as usize),
                None => rest,
            },
            None => rest,
        }
    }
}

/// Every bound dependency provider is among `providers`.
pub open spec fn all_bound(providers: Seq<ProviderId>, bindings: Seq<Seq<Option<ProviderId>>>) -> bool {
    forall|i: int, k: int|
        0 <= i < bindings.len() && i < providers.len() && 0 <= k < bindings[i].len() ==> (
        #[trigger] bindings[i][k] matches Some(p) ==> provider_index(providers, p) is Some)
}

/// The dependency graph over the inspections, by node index.
pub open spec fn index_graph(providers: Seq<ProviderId>, bindings: Seq<Seq<Option<ProviderId>>>) -> Seq<Seq<usize>> {
    Seq::new(
        providers.len(),
        |i: int|
            if i < bindings.len() {
                children_of(providers, bindings[i])
            } else {
                Seq::empty()
            },
    )
}

pub open spec fn bindings_view(bindings: Seq<Vec<Option<ProviderId>>>) -> Seq<Seq<Option<ProviderId>>> {
    bindings.map_values(|b: Vec<Option<ProviderId>>| b@)
}

fn index_of(providers: &Vec<ProviderId>, p: &ProviderId) -> (out: Option<usize>)
    ensures
        match out {
            Some(i) => i < providers@.len() && providers@[i as int] == *p && forall|j: int| 0 <= j < i ==> providers@[j] != *p,
            None => forall|j: int| 0 <= j < providers@.len() ==> providers@[j] != *p,
        },
{
    let mut i: usize = 0;
    while i < providers.len()
        invariant
            i <= providers@.len(),
            forall|j: int| 0 <= j < i ==> providers@[j] != *p,
        decreases providers@.len() - i,
    {
        if providers[i].same(p) {
            return Some(i);
        }
        i = i + 1;
    }
    None
}

proof fn lemma_provider_index(providers: Seq<ProviderId>, p: ProviderId)
    ensures
        match provider_index(providers, p) {
            Some(i) => 0 <= i < providers.len() && providers[i] == p,
            None => forall|j: int| 0 <= j < providers.len() ==> providers[j] != p,
        },
{
    if exists|i: int| 0 <= i < providers.len() && providers[i] == p {
        let w = choose|i: int| 0 <= i < providers.len() && providers[i] == p;
        lemma_first_occurrence(providers, p, w);
    }
}

proof fn lemma_first_occurrence(providers: Seq<ProviderId>, p: ProviderId, w: int)
    requires
        0 <= w < providers.len(),
        providers[w] == p,
    ensures
        exists|i: int| 0 <= i < providers.len() && providers[i] == p && forall|j: int| 0 <= j < i ==> providers[j] != p,
    decreases w,
{
    if exists|j: int| 0 <= j < w && providers[j] == p {
        let j = choose|j: int| 0 <= j < w && providers[j] == p;
        lemma_first_occurrence(providers, p, j);
    } else {
        assert(forall|j: int| 0 <= j < w ==> providers[j] != p);
    }
}

proof fn lemma_children_in_range(providers: Seq<ProviderId>, row: Seq<Option<ProviderId>>)
    ensures
        forall|k: int| 0 <= k < children_of(providers, row).len() ==> (#[trigger] children_of(providers, row)[k]) < providers.len(),
    decreases row.len(),
{
    if row.len() > 0 {
        let rest = children_of(providers, row.drop_last());
        lemma_children_in_range(providers, row.drop_last());
        match row.last() {
            Some(p) => {
                lemma_provider_index(providers, p);
                match provider_index(providers, p) {
                    Some(i) => {
                        assert(children_of(providers, row) == rest.push(i as usize));
                        assert forall|k: int| 0 <= k < children_of(providers, row).len() implies (#[trigger] children_of(
                            providers,
                            row,
                        )[k]) < providers.len() by {
                            if k < rest.len() {
                                assert(children_of(providers, row)[k] == rest[k]);
                            }
                        }
                    },
                    None => {},
                }
            },
            None => {},
        }
    }
}

#[verifier::rlimit(40)]
/// The dependency graph by node index, when every bound dependency provider
/// is among `providers`.
pub fn dependency_index_graph(providers: &Vec<ProviderId>, bindings: &Vec<Vec<Option<ProviderId>>>) -> (out: Option<
    Vec<Vec<usize>>,
>)
    ensures
        out is None <==> !all_bound(providers@, bindings_view(bindings@)),
        out matches Some(g) ==> graph_view(g@) == index_graph(providers@, bindings_view(bindings@)) && edges_in_range(
            graph_view(g@),
        ),
{
    let ghost bv = bindings_view(bindings@);
    let ghost target = index_graph(providers@, bv);
    let n = providers.len();
    let mut graph: Vec<Vec<usize>> = Vec::new();
    let mut i: usize = 0;
    while i < n
        invariant
            i <= n,
            n == providers@.len(),
            bv == bindings_view(bindings@),
            target == index_graph(providers@, bv),
            graph@.len() == i,
            forall|x: int| 0 <= x < i ==> (#[trigger] graph@[x])@ == target[x],
            forall|x: int, k: int|
                0 <= x < i && x < bv.len() && 0 <= k < bv[x].len() ==> (#[trigger] bv[x][k] matches Some(p)
                    ==> provider_index(providers@, p) is Some),
        decreases n - i,
    {
        let mut row: Vec<usize> = Vec::new();
        if i < bindings.len() {
            let entries = &bindings[i];
            assert(entries@ == bv[i as int]);
            let mut k: usize = 0;
            while k < entries.len()
                invariant
                    k <= entries@.len(),
                    entries@ == bv[i as int],
                    i < bv.len(),
                    i < n,
                    n == providers@.len(),
                    bv == bindings_view(bindings@),
                    row@ == children_of(providers@, entries@.take(k as int)),
                    forall|j: int| 0 <= j < k ==> (#[trigger] entries@[j] matches Some(p) ==> provider_index(
                        providers@,
                        p,
                    ) is Some),
                decreases entries@.len() - k,
            {
                proof {
                    assert(entries@.take(k + 1).drop_last() =~= entries@.take(k as int));
                }
                match &entries[k] {
                    Some(p) => {
                        match index_of(providers, p) {
                            Some(index) => {
                                proof {
                                    assert(exists|j: int| 0 <= j < providers@.len() && providers@[j] == *p);
                                    let c = choose|j: int|
                                        0 <= j < providers@.len() && providers@[j] == *p && forall|m: int|
                                            0 <= m < j ==> providers@[m] != *p;
                                    if c < index {
                                        assert(providers@[c] != *p);
                                    } else if index < c {
                                        assert(providers@[index as int] != *p);
                                    }
                                }
                                row.push(index);
                            },
                            None => {
                                proof {
                                    assert(bv[i as int][k as int] == Some(*p));
                                    assert(!all_bound(providers@, bv));
                                }
                                return None;
                            },
                        }
                    },
                    None => {},
                }
                k = k + 1;
            }
            proof {
                assert(entries@.take(entries@.len() as int) =~= entries@);
            }
        } else {
            assert(row@ =~= Seq::<usize>::empty());
        }
        graph.push(row);
        i = i + 1;
    }
    proof {
        assert(graph_view(graph@) =~= target);
        assert forall|x: int, k: int| 0 <= x < target.len() && 0 <= k < target[x].len() implies (#[trigger] target[x][k]) < target.len() by {
            if x < bv.len() {
                lemma_children_in_range(providers@, bv[x]);
            }
        }
        assert(all_bound(providers@, bv));
    }
    Some(graph)
}

#[verifier::rlimit(40)]
/// Checks that the bound dependency providers form no cycle. The node of an
/// inspection is its position in `providers`; `paths` names the artifact
/// reported in a cycle.
pub fn ensure_acyclic(
    paths: &Vec<Vec<u8>>,
    providers: &Vec<ProviderId>,
    bindings: &Vec<Vec<Option<ProviderId>>>,
) -> (res: Result<(), NativeError>)
    requires
        paths@.len() == providers@.len(),
    ensures
        !all_bound(providers@, bindings_view(bindings@)) ==> res matches Err(NativeError::InvalidPolicy { .. }),
        all_bound(providers@, bindings_view(bindings@)) ==> (res is Ok <==> acyclic(
            index_graph(providers@, bindings_view(bindings@)),
        )),
        res matches Err(NativeError::DependencyCycle { path }) ==> exists|u: int|
            0 <= u < paths@.len() && path@ == paths@[u]@ && on_cycle(index_graph(providers@, bindings_view(bindings@)), u),
{
    let graph = match dependency_index_graph(providers, bindings) {
        Some(graph) => graph,
        None => {
            return Err(NativeError::InvalidPolicy { detail: "dependency provider has no inspection".to_owned() });
        },
    };
    match first_unranked(&graph) {
        None => Ok(()),
        Some(u) => {
            proof {
                assert(graph_view(graph@).len() == graph@.len());
                assert(index_graph(providers@, bindings_view(bindings@)).len() == providers@.len());
            }
            let path = slice_to_vec(paths[u].as_slice());
            assert(path@ == paths@[u as int]@);
            Err(NativeError::DependencyCycle { path })
        },
    }
}

// ---------------------------------------------------------------------------
// Search paths, plan order and the assembled resolution
// ---------------------------------------------------------------------------

/// `base` followed by the paths of `extra` that are not already present.
pub open spec fn merge_paths(base: Seq<Seq<u8>>, extra: Seq<Seq<u8>>) -> Seq<Seq<u8>>
    decreases extra.len(),
{
    if extra.len() == 0 {
        base
    } else {
        let merged = merge_paths(base, extra.drop_last());
        if merged.contains(extra.last()) {
            merged
        } else {
            merged.push(extra.last())
        }
    }
}

pub open spec fn path_views(paths: Seq<Vec<u8>>) -> Seq<Seq<u8>> {
    paths.map_values(|p: Vec<u8>| p@)
}

pub const NO_DECLARED_SEARCH_PATH: &'static str = "<no declared search path>";

/// The directories a name lookup searches: the declared search paths, then,
/// under toolchain search, the toolchain's directories (already
/// canonicalized) that are not declared. Exact-path resolution performs no
/// lookup, and a lookup needs at least one directory.
pub fn effective_search_paths(policy: ResolutionPolicy, declared: &[Vec<u8>], toolchain: &[Vec<u8>]) -> (res: Result<
    Vec<Vec<u8>>,
    NativeError,
>)
    ensures
        policy == ResolutionPolicy::ExactPathsOnly ==> (res matches Err(NativeError::InvalidPolicy { detail }) && detail@
            == "exact-path policy cannot perform provider lookup"@),
        policy != ResolutionPolicy::ExactPathsOnly ==> {
            let paths = if policy == ResolutionPolicy::ToolchainSearch {
                merge_paths(path_views(declared@), path_views(toolchain@))
            } else {
                path_views(declared@)
            };
            if paths.len() == 0 {
                (res matches Err(NativeError::MissingProvider { requested }) && requested@ == encode_utf8(
                    NO_DECLARED_SEARCH_PATH@,
                ))
            } else {
                (res matches Ok(out) && path_views(out@) == paths)
            }
        },
{
    if policy == ResolutionPolicy::ExactPathsOnly {
        return Err(NativeError::InvalidPolicy { detail: "exact-path policy cannot perform provider lookup".to_owned() });
    }
    let mut paths: Vec<Vec<u8>> = Vec::new();
    let mut i: usize = 0;
    while i < declared.len()
        invariant
            i <= declared@.len(),
            path_views(paths@) == path_views(declared@).take(i as int),
        decreases declared@.len() - i,
    {
        let ghost before = paths@;
        paths.push(slice_to_vec(declared[i].as_slice()));
        proof {
            assert(path_views(paths@) =~= path_views(before).push(declared@[i as int]@));
            assert(path_views(declared@).take(i + 1) =~= path_views(declared@).take(i as int).push(declared@[i as int]@));
        }
        i = i + 1;
    }
    proof {
        assert(path_views(declared@).take(declared@.len() as int) =~= path_views(declared@));
    }
    if policy == ResolutionPolicy::ToolchainSearch {
        let ghost base = path_views(declared@);
        let ghost extra = path_views(toolchain@);
        let mut k: usize = 0;
        while k < toolchain.len()
            invariant
                k <= toolchain@.len(),
                extra == path_views(toolchain@),
                path_views(paths@) == merge_paths(base, extra.take(k as int)),
            decreases toolchain@.len() - k,
        {
            let ghost before_vec = paths@;
            let ghost before = path_views(paths@);
            let ghost x = toolchain@[k as int]@;
            proof {
                assert(extra.take(k + 1).drop_last() =~= extra.take(k as int));
                assert(extra.take(k + 1).last() == x);
            }
            let path = slice_to_vec(toolchain[k].as_slice());
            push_distinct(&mut paths, path);
            proof {
                if before.contains(x) {
                    let j = choose|j: int| 0 <= j < before.len() && before[j] == x;
                    assert(before_vec[j]@ == x);
                    assert(paths@ == before_vec);
                } else {
                    assert forall|j: int| 0 <= j < before_vec.len() implies #[trigger] before_vec[j]@ != x by {
                        assert(before[j] == before_vec[j]@);
                    }
                    assert(path_views(paths@) =~= before.push(x));
                }
            }
            k = k + 1;
        }
        proof {
            assert(extra.take(toolchain@.len() as int) =~= extra);
        }
    }
    if paths.len() == 0 {
        return Err(NativeError::MissingProvider { requested: text_bytes(NO_DECLARED_SEARCH_PATH) });
    }
    Ok(paths)
}

/// `k` is the first position of the plan that links provider `p`.
pub open spec fn is_first_position(atoms: Seq<LinkAtom>, p: ProviderId, k: int) -> bool {
    &&& 0 <= k < atoms.len()
    &&& atom_provider(atoms[k]) == Some(p)
    &&& forall|m: int| 0 <= m < k ==> atom_provider(#[trigger] atoms[m]) != Some(p)
}

/// A dependency binding is placed after its parent in the plan.
pub open spec fn child_follows(atoms: Seq<LinkAtom>, parent: ProviderId, binding: Option<ProviderId>) -> bool {
    match binding {
        None => true,
        Some(c) => plan_links(atoms, c) && forall|pp: int, cp: int|
            is_first_position(atoms, parent, pp) && is_first_position(atoms, c, cp) ==> pp < cp,
    }
}

/// Every provider appears in the plan, and every provider it binds as a
/// dependency first appears after it.
pub open spec fn plan_order_ok(
    atoms: Seq<LinkAtom>,
    providers: Seq<ProviderId>,
    bindings: Seq<Seq<Option<ProviderId>>>,
) -> bool {
    forall|i: int|
        0 <= i < providers.len() ==> {
            &&& plan_links(atoms, #[trigger] providers[i])
            &&& i < bindings.len() ==> forall|j: int|
                0 <= j < bindings[i].len() ==> child_follows(atoms, providers[i], #[trigger] bindings[i][j])
        }
}

proof fn lemma_first_position_unique(atoms: Seq<LinkAtom>, p: ProviderId, a: int, b: int)
    requires
        is_first_position(atoms, p, a),
        is_first_position(atoms, p, b),
    ensures
        a == b,
{
    if a < b {
        assert(atom_provider(atoms[a]) != Some(p));
    } else if b < a {
        assert(atom_provider(atoms[b]) != Some(p));
    }
}

fn position_of(atoms: &[LinkAtom], p: ProviderId) -> (out: Option<usize>)
    ensures
        match out {
            Some(k) => is_first_position(atoms@, p, k as int),
            None => !plan_links(atoms@, p),
        },
{
    let mut i: usize = 0;
    while i < atoms.len()
        invariant
            i <= atoms@.len(),
            forall|m: int| 0 <= m < i ==> atom_provider(#[trigger] atoms@[m]) != Some(p),
        decreases atoms@.len() - i,
    {
        match atoms[i].artifact() {
            Some(artifact) => {
                if artifact.provider_id().same(&p) {
                    assert(atom_provider(atoms@[i as int]) == Some(p));
                    return Some(i);
                }
            },
            None => {},
        }
        i = i + 1;
    }
    None
}

/// Checks that every inspected provider (`providers[i]`, with the providers
/// its dependencies bound to in `bindings[i]`) is in the plan and that each
/// bound dependency first appears after its parent, so that dependencies
/// never reorder explicit inputs.
pub fn ensure_dependency_plan_order(
    atoms: &[LinkAtom],
    providers: &Vec<ProviderId>,
    bindings: &Vec<Vec<Option<ProviderId>>>,
) -> (res: Result<(), NativeError>)
    ensures
        res is Ok <==> plan_order_ok(atoms@, providers@, bindings_view(bindings@)),
        res matches Err(e) ==> e is InvalidPolicy,
{
    let ghost bv = bindings_view(bindings@);
    let mut i: usize = 0;
    while i < providers.len()
        invariant
            i <= providers@.len(),
            bv == bindings_view(bindings@),
            bv.len() == bindings@.len(),
            forall|t: int| 0 <= t < bindings@.len() ==> #[trigger] bv[t] == bindings@[t]@,
            forall|t: int|
                0 <= t < i ==> {
                    &&& plan_links(atoms@, #[trigger] providers@[t])
                    &&& t < bv.len() ==> forall|j: int|
                        0 <= j < bv[t].len() ==> child_follows(atoms@, providers@[t], #[trigger] bv[t][j])
                },
        decreases providers@.len() - i,
    {
        let parent = providers[i];
        let parent_position = match position_of(atoms, parent) {
            Some(k) => k,
            None => {
                return Err(
                    NativeError::InvalidPolicy {
                        detail: "provider ".to_owned().concat(parent.to_string().as_str()).concat(
                            " is absent from the resolved plan",
                        ),
                    },
                );
            },
        };
        if i < bindings.len() {
            let row = &bindings[i];
            assert(bindings_view(bindings@)[i as int] == bindings@[i as int]@);
            let mut j: usize = 0;
            while j < row.len()
                invariant
                    j <= row@.len(),
                    i < bindings@.len(),
                    i < providers@.len(),
                    *row == bindings@[i as int],
                    bindings_view(bindings@)[i as int] == row@,
                    parent == providers@[i as int],
                    is_first_position(atoms@, parent, parent_position as int),
                    forall|m: int| 0 <= m < j ==> child_follows(atoms@, parent, #[trigger] row@[m]),
                decreases row@.len() - j,
            {
                match row[j] {
                    Some(child) => {
                        let child_position = match position_of(atoms, child) {
                            Some(k) => k,
                            None => {
                                proof {
                                    assert(!child_follows(atoms@, parent, row@[j as int]));
                                    assert(bindings_view(bindings@)[i as int][j as int] == row@[j as int]);
                                }
                                return Err(
                                    NativeError::InvalidPolicy {
                                        detail: "dependency ".to_owned().concat(child.to_string().as_str()).concat(
                                            " is absent from the resolved plan",
                                        ),
                                    },
                                );
                            },
                        };
                        if parent_position >= child_position {
                            proof {
                                assert(!child_follows(atoms@, parent, row@[j as int]));
                                assert(bindings_view(bindings@)[i as int][j as int] == row@[j as int]);
                            }
                            return Err(
                                NativeError::InvalidPolicy {
                                    detail: "dependency provider ".to_owned().concat(child.to_string().as_str()).concat(
                                        " must follow parent ",
                                    ).concat(parent.to_string().as_str()).concat(" without reordering explicit inputs"),
                                },
                            );
                        }
                        proof {
                            assert forall|pp: int, cp: int|
                                is_first_position(atoms@, parent, pp) && is_first_position(
                                    atoms@,
                                    child,
                                    cp,
                                ) implies pp < cp by {
                                lemma_first_position_unique(atoms@, parent, pp, parent_position as int);
                                lemma_first_position_unique(atoms@, child, cp, child_position as int);
                            }
                            assert(child_follows(atoms@, parent, row@[j as int]));
                        }
                    },
                    None => {},
                }
                j = j + 1;
            }
            proof {
                assert(bv[i as int] == row@);
            }
        }
        i = i + 1;
    }
    Ok(())
}

/// Assembles a resolution from the plan's atoms, in order, and the provider
/// inventories, which it orders by provider identity.
pub fn finish_resolution(request: &AnalysisRequest, atoms: Vec<LinkAtom>, inventories: Vec<SymbolInventory>) -> (res:
    Result<NativeResolution, NativeError>)
    ensures
        plan_valid(atoms@) ==> (res matches Ok(r) && {
            &&& r.spec_source_fingerprint() == request.spec_source().fingerprint
            &&& r.spec_target_fingerprint() == request.spec_source().target.fingerprint
            &&& r.spec_weak_symbol_policy() == request.spec_policy().spec_input().weak_symbols
            &&& r.spec_plan()@ == atoms@
            &&& keys_sorted(r.spec_inventories())
            &&& r.spec_inventories().to_multiset() == inventories@.to_multiset()
        }),
        !plan_valid(atoms@) ==> res matches Err(NativeError::Contract(_)),
{
    let inventories = sort_by_key(inventories);
    let plan = match ResolvedLinkPlan::try_new(atoms) {
        Ok(plan) => plan,
        Err(e) => {
            return Err(NativeError::Contract(e));
        },
    };
    let source = request.source();
    Ok(
        NativeResolution::new(
            source.fingerprint,
            source.target.fingerprint,
            request.policy().weak_symbols(),
            plan,
            inventories,
        ),
    )
}

/// How one dependency of an inspected provider is bound.
#[derive(Debug, Clone, Copy, PartialEq, Eq)]
pub enum DependencyBinding {
    /// To the one already inspected provider that provides its name.
    Existing(usize),
    /// To a provider found by searching the dependency search paths.
    Search,
}

/// Binds a dependency named `requested`, given the positions (`providing`)
/// of the inspected providers that provide that name and the canonical
/// paths of all inspected providers: one provider binds it, several are
/// ambiguous, and none means a search, which exact-path resolution refuses.
pub fn bind_dependency(
    requested: &[u8],
    providing: &[usize],
    paths: &[Vec<u8>],
    policy: ResolutionPolicy,
) -> (res: Result<DependencyBinding, NativeError>)
    requires
        forall|k: int| 0 <= k < providing@.len() ==> #[trigger] providing@[k] < paths@.len(),
    ensures
        providing@.len() == 1 ==> res == Ok::<DependencyBinding, NativeError>(DependencyBinding::Existing(providing@[0])),
        providing@.len() > 1 ==> (res matches Err(NativeError::AmbiguousProvider { requested: r, candidates }) && r@
            == requested@ && path_views(candidates@) == providing@.map_values(|k: usize| paths@[k as int]@)),
        providing@.len() == 0 && policy == ResolutionPolicy::ExactPathsOnly ==> (res matches Err(
            NativeError::MissingProvider { requested: r },
        ) && r@ == requested@),
        providing@.len() == 0 && policy != ResolutionPolicy::ExactPathsOnly ==> res == Ok::<
            DependencyBinding,
            NativeError,
        >(DependencyBinding::Search),
{
    if providing.len() == 1 {
        return Ok(DependencyBinding::Existing(providing[0]));
    }
    if providing.len() > 1 {
        let ghost wanted = providing@.map_values(|k: usize| paths@[k as int]@);
        let mut candidates: Vec<Vec<u8>> = Vec::new();
        let mut i: usize = 0;
        while i < providing.len()
            invariant
                i <= providing@.len(),
                forall|k: int| 0 <= k < providing@.len() ==> #[trigger] providing@[k] < paths@.len(),
                wanted == providing@.map_values(|k: usize| paths@[k as int]@),
                path_views(candidates@) == wanted.take(i as int),
            decreases providing@.len() - i,
        {
            let ghost before = candidates@;
            candidates.push(slice_to_vec(paths[providing[i]].as_slice()));
            proof {
                assert(path_views(candidates@) =~= path_views(before).push(paths@[providing@[i as int] as int]@));
                assert(wanted.take(i + 1) =~= wanted.take(i as int).push(wanted[i as int]));
            }
            i = i + 1;
        }
        proof {
            assert(wanted.take(providing@.len() as int) =~= wanted);
        }
        return Err(NativeError::AmbiguousProvider { requested: slice_to_vec(requested), candidates });
    }
    if policy == ResolutionPolicy::ExactPathsOnly {
        return Err(NativeError::MissingProvider { requested: slice_to_vec(requested) });
    }
    Ok(DependencyBinding::Search)
}

/// Counts one more transitive provider, refusing more than `max`.
pub fn admit_transitive(count: usize, max: usize) -> (res: Result<usize, NativeError>)
    ensures
        count == usize::MAX ==> (res matches Err(NativeError::InvalidPolicy { detail }) && detail@
            == "transitive dependency count overflow"@),
        count < usize::MAX && count + 1 > max ==> (res matches Err(NativeError::InvalidPolicy { detail }) && detail@
            == "resolution exceeds "@ + decimal_spec(max as nat) + " transitive providers"@),
        count < usize::MAX && count + 1 <= max ==> res == Ok::<usize, NativeError>((count + 1) as usize),
{
    if count == usize::MAX {
        return Err(NativeError::InvalidPolicy { detail: "transitive dependency count overflow".to_owned() });
    }
    let next = count + 1;
    if next > max {
        return Err(
            NativeError::InvalidPolicy {
                detail: "resolution exceeds ".to_owned().concat(decimal(max as u64).as_str()).concat(
                    " transitive providers",
                ),
            },
        );
    }
    Ok(next)
}

} // verus!
