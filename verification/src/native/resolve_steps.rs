//! Provider resolution as a sequence of decisions. The library decides what
//! happens next; the caller canonicalizes paths, lists candidate files and
//! inspects artifacts, and hands each result back as an event.
use vstd::prelude::*;

use super::error::NativeError;
use super::inspect::ArtifactInspection;
use super::resolve::{
    admit_transitive, all_bound, bind_dependency, bindings_view, dependency_filenames, index_graph, plan_order_ok, dynamic_filename, effective_search_paths, ensure_acyclic,
    ensure_dependency_plan_order, finish_resolution, kind_label, push_distinct, static_filename,
    unique_candidate_by_priority, DependencyBinding, LibraryPreference, NativeResolution,
};
use crate::bytes::{bytes_equal, slice_to_vec};
use crate::contract::graph::acyclic;
use crate::contract::identity::ProviderId;
use crate::contract::inventory::{ids_distinct, SymbolInventory};
use crate::contract::link::plan_valid;
use crate::contract::model::is_valid_native_string;
use crate::contract::canonical::keys_sorted;
use crate::contract::link::LinkAtom;
use crate::contract::model::{kind_label_spec, ArtifactKind, NativeInput, ProviderProvenance, ProviderResolution, ResolvedArtifact};
use crate::contract::request::{AnalysisRequest, ResolutionPolicy};

verus! {

pub const IMPORT_LIBRARY_REFUSAL: &'static str = "ELF certification does not accept import libraries";

pub const FRAMEWORK_REFUSAL: &'static str = "frameworks are outside the Linux ELF inspection tier";

pub const UNEXPECTED_EVENT: &'static str = "resolution step received an event it did not ask for";

pub const INPUT_INDEX_OVERFLOW: &'static str = "native input index exceeds the contract";

/// The work the caller performs next.
#[derive(Debug)]
pub enum ResolveAction {
    /// Nothing outside is needed: answer with `ResolveEvent::Continue`.
    Continue,
    /// Canonicalize a declared search directory.
    CanonicalizeDirectory { path: Vec<u8> },
    /// Canonicalize a provider path.
    CanonicalizeProvider { path: Vec<u8> },
    /// For each file name, the canonical paths of the existing files of that
    /// name in the search directories, in directory order.
    FindCandidates { filenames: Vec<Vec<u8>>, search_paths: Vec<Vec<u8>> },
    /// Inspect the artifact at `path`.
    Inspect { path: Vec<u8>, kind: ArtifactKind, resolution: ProviderResolution, provenance: ProviderProvenance },
    /// Every input and dependency is resolved: call `finish_steps`.
    Done,
}

/// The caller's answer to an action.
#[derive(Debug)]
pub enum ResolveEvent {
    Continue,
    /// The canonical form of the path asked for, and the file name of the
    /// path as given.
    Canonical { path: Vec<u8>, file_name: Option<Vec<u8>> },
    Candidates(Vec<Vec<Vec<u8>>>),
    Inspected(ArtifactInspection),
}

/// What the state waits for.
#[derive(Debug)]
pub enum Pending {
    Ready,
    Directory,
    Provider { kind: ArtifactKind, resolution: ProviderResolution },
    NewProvider { kind: ArtifactKind, file_name: Option<Vec<u8>> },
    InputCandidates { filenames: Vec<Vec<u8>>, kind: ArtifactKind, index: u32 },
    DependencyCandidates { filenames: Vec<Vec<u8>> },
    Transitive,
    Finished,
}

/// A resolution in progress: the inputs still to take, the inspected
/// providers in discovery order, the plan so far and the dependency
/// bindings of the providers before `cursor`.
#[derive(Debug)]
pub struct ResolveState {
    pub policy: ResolutionPolicy,
    pub inputs: Vec<NativeInput>,
    pub toolchain: Vec<Vec<u8>>,
    pub preference: LibraryPreference,
    pub max_transitive: usize,
    pub search_paths: Vec<Vec<u8>>,
    pub inspections: Vec<ArtifactInspection>,
    pub atoms: Vec<LinkAtom>,
    pub bindings: Vec<Vec<Option<ProviderId>>>,
    pub row: Vec<Option<ProviderId>>,
    pub next_input: usize,
    pub cursor: usize,
    pub transitive: usize,
    pub pending: Pending,
}

/// The index of the first inspection of the artifact at `path`.
pub open spec fn inspection_at(inspections: Seq<ArtifactInspection>, path: Seq<u8>) -> Option<int> {
    if exists|i: int| 0 <= i < inspections.len() && (#[trigger] inspections[i]).spec_artifact().spec_path() == path {
        Some(
            choose|i: int|
                0 <= i < inspections.len() && inspections[i].spec_artifact().spec_path() == path && forall|j: int|
                    0 <= j < i ==> (#[trigger] inspections[j]).spec_artifact().spec_path() != path,
        )
    } else {
        None
    }
}

/// The artifact kind a path input names.
pub open spec fn path_input_kind(input: NativeInput) -> Option<ArtifactKind> {
    match input {
        NativeInput::ObjectPath(_) => Some(ArtifactKind::Object),
        NativeInput::StaticLibraryPath(_) => Some(ArtifactKind::StaticLibrary),
        NativeInput::DynamicLibraryPath(_) => Some(ArtifactKind::DynamicLibrary),
        _ => None,
    }
}

/// The plan atom that links an artifact of `kind`.
pub open spec fn atom_kind_matches(atom: LinkAtom, kind: ArtifactKind) -> bool {
    match kind {
        ArtifactKind::Object => atom is Object,
        ArtifactKind::StaticLibrary => atom is StaticLibrary,
        _ => atom is DynamicLibrary,
    }
}

impl ResolveState {
    /// The indices the steps move through stay within their sequences, and
    /// the providers before the cursor each have their bindings.
    pub open spec fn wf(&self) -> bool {
        &&& self.next_input <= self.inputs@.len()
        &&& self.cursor <= self.inspections@.len()
        &&& self.bindings@.len() == self.cursor
        &&& self.cursor > 0 ==> self.next_input == self.inputs@.len()
        &&& (self.pending is DependencyCandidates || self.pending is Transitive) ==> self.cursor < self.inspections@.len()
        &&& self.pending is Finished ==> self.cursor == self.inspections@.len()
        &&& (self.pending is Directory || self.pending is Provider || self.pending is NewProvider
            || self.pending is InputCandidates) ==> self.next_input < self.inputs@.len()
    }

    /// A resolution that has taken nothing yet. `toolchain` holds the
    /// canonical toolchain directories.
    pub fn start(
        policy: ResolutionPolicy,
        inputs: Vec<NativeInput>,
        toolchain: Vec<Vec<u8>>,
        preference: LibraryPreference,
        max_transitive: usize,
    ) -> (out: Self)
        ensures
            out.wf(),
            out.policy == policy,
            out.inputs@ == inputs@,
            out.toolchain@ == toolchain@,
            out.preference == preference,
            out.max_transitive == max_transitive,
            out.search_paths@.len() == 0,
            out.inspections@.len() == 0,
            out.atoms@.len() == 0,
            out.next_input == 0,
            out.cursor == 0,
            out.transitive == 0,
            out.pending is Ready,
    {
        ResolveState {
            policy,
            inputs,
            toolchain,
            preference,
            max_transitive,
            search_paths: Vec::new(),
            inspections: Vec::new(),
            atoms: Vec::new(),
            bindings: Vec::new(),
            row: Vec::new(),
            next_input: 0,
            cursor: 0,
            transitive: 0,
            pending: Pending::Ready,
        }
    }
}

/// The first inspection of the artifact at `path`.
pub fn find_inspection(inspections: &Vec<ArtifactInspection>, path: &[u8]) -> (out: Option<usize>)
    ensures
        inspection_at(inspections@, path@) == match out {
            Some(j) => Some(j as int),
            None => None::<int>,
        },
        out matches Some(i) ==> i < inspections@.len() && inspections@[i as int].spec_artifact().spec_path() == path@,
{
    let mut i: usize = 0;
    while i < inspections.len()
        invariant
            i <= inspections@.len(),
            forall|j: int| 0 <= j < i ==> (#[trigger] inspections@[j]).spec_artifact().spec_path() != path@,
        decreases inspections@.len() - i,
    {
        if bytes_equal(inspections[i].artifact().canonical_path(), path) {
            proof {
                let k = choose|k: int|
                    0 <= k < inspections@.len() && inspections@[k].spec_artifact().spec_path() == path@ && forall|j: int|
                        0 <= j < k ==> (#[trigger] inspections@[j]).spec_artifact().spec_path() != path@;
                if k < i {
                    assert(false);
                }
                if k > i {
                    assert(inspections@[i as int].spec_artifact().spec_path() == path@);
                }
            }
            return Some(i);
        }
        i = i + 1;
    }
    None
}

fn atom_for(kind: ArtifactKind, artifact: ResolvedArtifact) -> (out: LinkAtom)
    ensures
        atom_kind_matches(out, kind),
{
    match kind {
        ArtifactKind::Object => LinkAtom::Object(artifact),
        ArtifactKind::StaticLibrary => LinkAtom::StaticLibrary(artifact),
        _ => LinkAtom::DynamicLibrary(artifact),
    }
}

fn unexpected() -> (out: NativeError)
    ensures
        out matches NativeError::InvalidPolicy { detail } && detail@ == UNEXPECTED_EVENT@,
{
    NativeError::InvalidPolicy { detail: UNEXPECTED_EVENT.to_owned() }
}

/// Takes the next input, whose index is `state.next_input`.
fn input_step(state: ResolveState) -> (res: Result<(ResolveState, ResolveAction), NativeError>)
    requires
        state.wf(),
        state.pending is Ready,
        state.next_input < state.inputs@.len(),
    ensures
        res matches Ok((s, _)) ==> s.wf() && s.inputs@ == state.inputs@ && s.policy == state.policy && s.inspections@
            == state.inspections@ && s.cursor == state.cursor,
        state.inputs@[state.next_input as int] is ImportLibraryPath
            || state.inputs@[state.next_input as int] is ImportLibraryName ==> (res matches Err(
            NativeError::UnsupportedInput { detail },
        ) && detail@ == IMPORT_LIBRARY_REFUSAL@),
        state.inputs@[state.next_input as int] is FrameworkPath
            || state.inputs@[state.next_input as int] is FrameworkName ==> (res matches Err(
            NativeError::UnsupportedInput { detail },
        ) && detail@ == FRAMEWORK_REFUSAL@),
        state.inputs@[state.next_input as int] matches NativeInput::SearchNative(p) ==> (res matches Ok((s, a)) && (a matches ResolveAction::CanonicalizeDirectory { path } && path@ == p@) && s.pending is Directory),
        path_input_kind(state.inputs@[state.next_input as int]) matches Some(kind) ==> (res matches Ok((s, a)) && (a matches ResolveAction::CanonicalizeProvider { path: _ }) && s.pending == (Pending::Provider { kind, resolution: ProviderResolution::Explicit })),
        state.inputs@[state.next_input as int] is GroupStart ==> (res matches Ok((s, a)) && a is Continue && s.next_input == state.next_input + 1 && s.atoms@ == state.atoms@.push(LinkAtom::GroupStart)),
        state.inputs@[state.next_input as int] is GroupEnd ==> (res matches Ok((s, a)) && a is Continue && s.next_input == state.next_input + 1 && s.atoms@ == state.atoms@.push(LinkAtom::GroupEnd)),
{
    let mut state = state;
    let n = state.next_input;
    let len = state.inputs.len();
    assert(n < len);
    let next = n + 1;
    match &state.inputs[n] {
        NativeInput::SearchNative(p) => {
            let path = slice_to_vec(p.as_slice());
            state.pending = Pending::Directory;
            Ok((state, ResolveAction::CanonicalizeDirectory { path }))
        },
        NativeInput::ObjectPath(p) | NativeInput::StaticLibraryPath(p) | NativeInput::DynamicLibraryPath(p) => {
            let kind = match &state.inputs[n] {
                NativeInput::ObjectPath(_) => ArtifactKind::Object,
                NativeInput::StaticLibraryPath(_) => ArtifactKind::StaticLibrary,
                _ => ArtifactKind::DynamicLibrary,
            };
            let path = slice_to_vec(p.as_slice());
            state.pending = Pending::Provider { kind, resolution: ProviderResolution::Explicit };
            Ok((state, ResolveAction::CanonicalizeProvider { path }))
        },
        NativeInput::StaticLibraryName(name) | NativeInput::DynamicLibraryName(name) => {
            let is_static = match &state.inputs[n] {
                NativeInput::StaticLibraryName(_) => true,
                _ => false,
            };
            let search_paths = effective_search_paths(state.policy, state.search_paths.as_slice(), state.toolchain.as_slice())?;
            let (filename, kind) = if is_static {
                (static_filename(name.as_slice())?, ArtifactKind::StaticLibrary)
            } else {
                (dynamic_filename(name.as_slice())?, ArtifactKind::DynamicLibrary)
            };
            if n > 0xffff_ffff {
                return Err(NativeError::InvalidPolicy { detail: INPUT_INDEX_OVERFLOW.to_owned() });
            }
            let mut filenames: Vec<Vec<u8>> = Vec::new();
            filenames.push(filename);
            let kept = slice_to_vec_list(&filenames);
            state.pending = Pending::InputCandidates { filenames: kept, kind, index: n as u32 };
            Ok((state, ResolveAction::FindCandidates { filenames, search_paths }))
        },
        NativeInput::ImportLibraryPath(_) | NativeInput::ImportLibraryName(_) => {
            Err(NativeError::UnsupportedInput { detail: IMPORT_LIBRARY_REFUSAL.to_owned() })
        },
        NativeInput::FrameworkPath(_) | NativeInput::FrameworkName { .. } => {
            Err(NativeError::UnsupportedInput { detail: FRAMEWORK_REFUSAL.to_owned() })
        },
        NativeInput::GroupStart => {
            state.atoms.push(LinkAtom::GroupStart);
            state.next_input = next;
            Ok((state, ResolveAction::Continue))
        },
        NativeInput::GroupEnd => {
            state.atoms.push(LinkAtom::GroupEnd);
            state.next_input = next;
            Ok((state, ResolveAction::Continue))
        },
    }
}

/// A copy of a list of byte strings.
fn slice_to_vec_list(items: &Vec<Vec<u8>>) -> (out: Vec<Vec<u8>>)
    ensures
        out@.len() == items@.len(),
        forall|i: int| 0 <= i < items@.len() ==> (#[trigger] out@[i])@ == items@[i]@,
{
    let mut out: Vec<Vec<u8>> = Vec::new();
    let mut i: usize = 0;
    while i < items.len()
        invariant
            i <= items@.len(),
            out@.len() == i,
            forall|k: int| 0 <= k < i ==> (#[trigger] out@[k])@ == items@[k]@,
        decreases items@.len() - i,
    {
        out.push(slice_to_vec(items[i].as_slice()));
        i = i + 1;
    }
    out
}

/// The dependency name the step at the cursor binds next.
pub open spec fn next_dependency(state: ResolveState) -> Seq<u8> {
    state.inspections@[state.cursor as int].spec_dependencies()[state.row@.len() as int].spec_name()
}

/// Whether the inspection answers to the dependency name.
pub open spec fn answers(inspection: ArtifactInspection, name: Seq<u8>) -> bool {
    inspection.spec_provided_names().contains(name)
}

/// The next dependency of the provider at the cursor is still to bind.
pub open spec fn binding_due(state: ResolveState) -> bool {
    state.cursor < state.inspections@.len() && state.row@.len() < state.inspections@[state.cursor as int].spec_dependencies().len()
}

/// The indices of the inspections that answer to `name`, ascending, and the
/// canonical path of every inspection.
fn answering(inspections: &Vec<ArtifactInspection>, name: &[u8]) -> (out: (Vec<usize>, Vec<Vec<u8>>))
    ensures
        out.1@.len() == inspections@.len(),
        forall|j: int| 0 <= j < out.0@.len() ==> #[trigger] out.0@[j] < inspections@.len(),
        forall|j: int| 0 <= j < out.0@.len() ==> answers(inspections@[#[trigger] out.0@[j] as int], name@),
        forall|a: int, b: int| 0 <= a < b < out.0@.len() ==> #[trigger] out.0@[a] < #[trigger] out.0@[b],
        forall|j: int| 0 <= j < inspections@.len() && answers(#[trigger] inspections@[j], name@) ==> out.0@.contains(j as usize),
{
    let mut providing: Vec<usize> = Vec::new();
    let mut paths: Vec<Vec<u8>> = Vec::new();
    let mut i: usize = 0;
    while i < inspections.len()
        invariant
            i <= inspections@.len(),
            paths@.len() == i,
            forall|j: int| 0 <= j < providing@.len() ==> #[trigger] providing@[j] < i,
            forall|j: int| 0 <= j < providing@.len() ==> answers(inspections@[#[trigger] providing@[j] as int], name@),
            forall|a: int, b: int| 0 <= a < b < providing@.len() ==> #[trigger] providing@[a] < #[trigger] providing@[b],
            forall|j: int| 0 <= j < i && answers(#[trigger] inspections@[j], name@) ==> providing@.contains(j as usize),
        decreases inspections@.len() - i,
    {
        if inspections[i].provides(name) {
            let ghost before = providing@;
            providing.push(i);
            proof {
                assert forall|j: int| 0 <= j < i + 1 && answers(#[trigger] inspections@[j], name@) implies providing@.contains(j as usize) by {
                    if j < i {
                        assert(before.contains(j as usize));
                        let k = choose|k: int| 0 <= k < before.len() && before[k] == j as usize;
                        assert(providing@[k] == j as usize);
                    } else {
                        assert(providing@[before.len() as int] == i);
                    }
                }
            }
        }
        paths.push(slice_to_vec(inspections[i].artifact().canonical_path()));
        i = i + 1;
    }
    (providing, paths)
}

/// One inspection that answers to a name: `answering` lists it alone.
proof fn lemma_answering_one(inspections: Seq<ArtifactInspection>, name: Seq<u8>, providing: Seq<usize>, j: int)
    requires
        forall|j: int| 0 <= j < providing.len() ==> #[trigger] providing[j] < inspections.len(),
        forall|j: int| 0 <= j < providing.len() ==> answers(inspections[#[trigger] providing[j] as int], name),
        forall|a: int, b: int| 0 <= a < b < providing.len() ==> #[trigger] providing[a] < #[trigger] providing[b],
        forall|j: int| 0 <= j < inspections.len() && answers(#[trigger] inspections[j], name) ==> providing.contains(j as usize),
        0 <= j < inspections.len(),
        answers(inspections[j], name),
        forall|m: int| 0 <= m < inspections.len() && answers(#[trigger] inspections[m], name) ==> m == j,
    ensures
        providing.len() == 1,
        providing[0] as int == j,
{
    assert(providing.contains(j as usize));
    assert forall|x: int| 0 <= x < providing.len() implies providing[x] == j as usize by {
        assert(answers(inspections[providing[x] as int], name));
    }
    if providing.len() > 1 {
        assert(providing[0] < providing[1]);
    }
}

/// Two inspections that answer to a name: `answering` lists both.
proof fn lemma_answering_two(inspections: Seq<ArtifactInspection>, name: Seq<u8>, providing: Seq<usize>, a: int, b: int)
    requires
        forall|j: int| 0 <= j < providing.len() ==> #[trigger] providing[j] < inspections.len(),
        forall|j: int| 0 <= j < providing.len() ==> answers(inspections[#[trigger] providing[j] as int], name),
        forall|a: int, b: int| 0 <= a < b < providing.len() ==> #[trigger] providing[a] < #[trigger] providing[b],
        forall|j: int| 0 <= j < inspections.len() && answers(#[trigger] inspections[j], name) ==> providing.contains(j as usize),
        0 <= a < b < inspections.len(),
        inspections.len() <= usize::MAX,
        answers(inspections[a], name),
        answers(inspections[b], name),
    ensures
        providing.len() > 1,
{
    assert(providing.contains(a as usize));
    assert(providing.contains(b as usize));
    if providing.len() <= 1 {
        let ka = choose|k: int| 0 <= k < providing.len() && providing[k] == a as usize;
        let kb = choose|k: int| 0 <= k < providing.len() && providing[k] == b as usize;
        assert(ka == 0 && kb == 0);
    }
}

/// No inspection answers to a name: `answering` lists none.
proof fn lemma_answering_none(inspections: Seq<ArtifactInspection>, name: Seq<u8>, providing: Seq<usize>)
    requires
        forall|j: int| 0 <= j < providing.len() ==> #[trigger] providing[j] < inspections.len(),
        forall|j: int| 0 <= j < providing.len() ==> answers(inspections[#[trigger] providing[j] as int], name),
        forall|a: int, b: int| 0 <= a < b < providing.len() ==> #[trigger] providing[a] < #[trigger] providing[b],
        forall|j: int| 0 <= j < inspections.len() && answers(#[trigger] inspections[j], name) ==> providing.contains(j as usize),
        forall|j: int| 0 <= j < inspections.len() ==> !answers(#[trigger] inspections[j], name),
    ensures
        providing.len() == 0,
{
    if providing.len() > 0 {
        assert(answers(inspections[providing[0] as int], name));
    }
}

/// Takes the next dependency of the provider at the cursor, or moves the
/// cursor on, or ends the walk.
#[verifier::rlimit(60)]
fn dependency_step(state: ResolveState) -> (res: Result<(ResolveState, ResolveAction), NativeError>)
    requires
        state.wf(),
        state.pending is Ready,
        state.next_input == state.inputs@.len(),
    ensures
        res matches Ok((s, _)) ==> s.wf() && s.inputs@ == state.inputs@ && s.policy == state.policy && s.inspections@
            == state.inspections@ && s.cursor >= state.cursor,
        state.cursor == state.inspections@.len() ==> (res matches Ok((s, a)) && a is Done && s.pending is Finished),
        state.cursor < state.inspections@.len() && state.row@.len() >= state.inspections@[state.cursor as int].spec_dependencies().len()
            ==> (res matches Ok((s, a)) && a is Continue && s.cursor == state.cursor + 1 && s.bindings@ == state.bindings@.push(state.row) && s.row@.len() == 0),
        binding_due(state) && (exists|j: int|
            0 <= j < state.inspections@.len() && answers(#[trigger] state.inspections@[j], next_dependency(state)) && forall|m: int|
                0 <= m < state.inspections@.len() && answers(#[trigger] state.inspections@[m], next_dependency(state)) ==> m == j)
            ==> (res matches Ok((s, a)) && a is Continue && s.row@.len() == state.row@.len() + 1 && s.row@.last() == Some(
            state.inspections@[choose|j: int|
                0 <= j < state.inspections@.len() && answers(#[trigger] state.inspections@[j], next_dependency(state))].spec_artifact().spec_provider_id(),
        )),
        binding_due(state) && (exists|a: int, b: int|
            0 <= a < b < state.inspections@.len() && answers(#[trigger] state.inspections@[a], next_dependency(state)) && answers(
                #[trigger] state.inspections@[b],
                next_dependency(state),
            )) ==> (res matches Err(NativeError::AmbiguousProvider { requested, .. }) && requested@ == next_dependency(state)),
        binding_due(state) && (forall|j: int|
            0 <= j < state.inspections@.len() ==> !answers(#[trigger] state.inspections@[j], next_dependency(state)))
            && state.policy == ResolutionPolicy::ExactPathsOnly ==> (res matches Err(NativeError::MissingProvider { requested })
            && requested@ == next_dependency(state)),
        binding_due(state) && (forall|j: int|
            0 <= j < state.inspections@.len() ==> !answers(#[trigger] state.inspections@[j], next_dependency(state)))
            && state.policy != ResolutionPolicy::ExactPathsOnly ==> (res is Err || (res matches Ok((s, a)) && a is FindCandidates
            && s.pending is DependencyCandidates)),
{
    let mut state = state;
    if state.cursor == state.inspections.len() {
        state.pending = Pending::Finished;
        return Ok((state, ResolveAction::Done));
    }
    let c = state.cursor;
    let count = state.inspections[c].dependencies().len();
    if state.row.len() >= count {
        let mut row: Vec<Option<ProviderId>> = Vec::new();
        std::mem::swap(&mut row, &mut state.row);
        state.bindings.push(row);
        state.cursor = c + 1;
        return Ok((state, ResolveAction::Continue));
    }
    let k = state.row.len();
    let name = slice_to_vec(state.inspections[c].dependencies()[k].name());
    let ghost wanted = next_dependency(state);
    assert(name@ == wanted);
    let (providing, paths) = answering(&state.inspections, name.as_slice());
    proof {
        let ins = state.inspections@;
        if exists|j: int|
            0 <= j < ins.len() && answers(#[trigger] ins[j], wanted) && forall|m: int|
                0 <= m < ins.len() && answers(#[trigger] ins[m], wanted) ==> m == j {
            let j = choose|j: int|
                0 <= j < ins.len() && answers(#[trigger] ins[j], wanted) && forall|m: int|
                    0 <= m < ins.len() && answers(#[trigger] ins[m], wanted) ==> m == j;
            lemma_answering_one(ins, wanted, providing@, j);
            let c = choose|c: int| 0 <= c < ins.len() && answers(#[trigger] ins[c], wanted);
            assert(c == j);
        }
        if exists|a: int, b: int| 0 <= a < b < ins.len() && answers(#[trigger] ins[a], wanted) && answers(#[trigger] ins[b], wanted) {
            let (a, b) = choose|a: int, b: int|
                0 <= a < b < ins.len() && answers(#[trigger] ins[a], wanted) && answers(#[trigger] ins[b], wanted);
            lemma_answering_two(ins, wanted, providing@, a, b);
        }
        if forall|j: int| 0 <= j < ins.len() ==> !answers(#[trigger] ins[j], wanted) {
            lemma_answering_none(ins, wanted, providing@);
        }
    }
    match bind_dependency(name.as_slice(), providing.as_slice(), paths.as_slice(), state.policy)? {
        DependencyBinding::Existing(index) => {
            let provider = state.inspections[index].artifact().provider_id();
            state.row.push(Some(provider));
            Ok((state, ResolveAction::Continue))
        },
        DependencyBinding::Search => {
            let search_paths = effective_search_paths(state.policy, state.search_paths.as_slice(), state.toolchain.as_slice())?;
            let filenames = dependency_filenames(name.as_slice(), state.preference)?;
            let kept = slice_to_vec_list(&filenames);
            state.pending = Pending::DependencyCandidates { filenames: kept };
            Ok((state, ResolveAction::FindCandidates { filenames, search_paths }))
        },
    }
}

/// Decides the next step of a resolution from the state and the caller's
/// answer to the last action.
pub fn resolve_step(state: ResolveState, event: ResolveEvent) -> (res: Result<(ResolveState, ResolveAction), NativeError>)
    requires
        state.wf(),
    ensures
        res matches Ok((s, _)) ==> s.wf() && s.inputs@ == state.inputs@ && s.policy == state.policy && s.cursor
            >= state.cursor && s.inspections@.len() >= state.inspections@.len(),
        // Taking an input: import libraries and frameworks are refused.
        state.pending is Ready && event is Continue && state.next_input < state.inputs@.len() && (
        state.inputs@[state.next_input as int] is ImportLibraryPath
            || state.inputs@[state.next_input as int] is ImportLibraryName) ==> (res matches Err(
            NativeError::UnsupportedInput { detail },
        ) && detail@ == IMPORT_LIBRARY_REFUSAL@),
        state.pending is Ready && event is Continue && state.next_input < state.inputs@.len() && (
        state.inputs@[state.next_input as int] is FrameworkPath
            || state.inputs@[state.next_input as int] is FrameworkName) ==> (res matches Err(
            NativeError::UnsupportedInput { detail },
        ) && detail@ == FRAMEWORK_REFUSAL@),
        // A path input asks for its canonical form.
        state.pending is Ready && event is Continue && state.next_input < state.inputs@.len() ==> match path_input_kind(
            state.inputs@[state.next_input as int],
        ) {
            Some(kind) => res matches Ok((s, a)) && a is CanonicalizeProvider && s.pending == (Pending::Provider {
                kind,
                resolution: ProviderResolution::Explicit,
            }),
            None => true,
        },
        // A dependency name that one provider answers to is bound to it; two
        // or more are refused as ambiguous; none is refused under the
        // exact-path policy and otherwise searched for.
        state.pending is Ready && event is Continue && state.next_input == state.inputs@.len() && binding_due(state) && (exists|j: int|
            0 <= j < state.inspections@.len() && answers(#[trigger] state.inspections@[j], next_dependency(state)) && forall|m: int|
                0 <= m < state.inspections@.len() && answers(#[trigger] state.inspections@[m], next_dependency(state)) ==> m == j)
            ==> (res matches Ok((s, a)) && a is Continue && s.row@.len() == state.row@.len() + 1 && s.row@.last() == Some(
            state.inspections@[choose|j: int|
                0 <= j < state.inspections@.len() && answers(#[trigger] state.inspections@[j], next_dependency(state))].spec_artifact().spec_provider_id(),
        )),
        state.pending is Ready && event is Continue && state.next_input == state.inputs@.len() && binding_due(state) && (exists|a: int, b: int|
            0 <= a < b < state.inspections@.len() && answers(#[trigger] state.inspections@[a], next_dependency(state)) && answers(
                #[trigger] state.inspections@[b],
                next_dependency(state),
            )) ==> (res matches Err(NativeError::AmbiguousProvider { requested, .. }) && requested@ == next_dependency(state)),
        state.pending is Ready && event is Continue && state.next_input == state.inputs@.len() && binding_due(state) && (forall|j: int|
            0 <= j < state.inspections@.len() ==> !answers(#[trigger] state.inspections@[j], next_dependency(state)))
            ==> if state.policy == ResolutionPolicy::ExactPathsOnly {
            res matches Err(NativeError::MissingProvider { requested }) && requested@ == next_dependency(state)
        } else {
            res is Err || (res matches Ok((s, a)) && a is FindCandidates && s.pending is DependencyCandidates)
        },
        // Every input taken and every provider's dependencies bound: done.
        state.pending is Ready && event is Continue && state.next_input == state.inputs@.len() && state.cursor
            == state.inspections@.len() ==> (res matches Ok((s, a)) && a is Done && s.pending is Finished),
        match (state.pending, event) {
            // A canonical provider path already inspected is reused if its
            // kind agrees; a new one is inspected.
            (Pending::Provider { kind, resolution }, ResolveEvent::Canonical { path, .. }) => match inspection_at(
                state.inspections@,
                path@,
            ) {
                Some(i) => if state.inspections@[i].spec_artifact().spec_kind() != kind {
                    res matches Err(NativeError::ArtifactKindMismatch { path: p, expected, observed }) && p@ == path@
                        && expected == kind_label_spec(kind) && observed == kind_label_spec(
                        state.inspections@[i].spec_artifact().spec_kind(),
                    )
                } else {
                    res matches Ok((s, a)) && a is Continue && s.inspections@.len() == state.inspections@.len()
                        && s.next_input == state.next_input + 1 && s.atoms@.len() == state.atoms@.len() + 1
                        && atom_kind_matches(s.atoms@.last(), kind)
                },
                None => res matches Ok((s, a)) && (a matches ResolveAction::Inspect { path: p, kind: k, resolution: r, provenance }
                    && p@ == path@ && k == kind && r == resolution && provenance == ProviderProvenance::User)
                    && s.pending is NewProvider,
            },
            // An inspected input provider joins the providers and the plan.
            (Pending::NewProvider { kind, .. }, ResolveEvent::Inspected(inspection)) => res matches Ok((s, a)) && a is Continue
                && s.inspections@.len() == state.inspections@.len() + 1 && s.inspections@.last().spec_artifact()
                == inspection.spec_artifact() && s.next_input == state.next_input + 1 && s.atoms@.len() == state.atoms@.len()
                + 1 && atom_kind_matches(s.atoms@.last(), kind),
            // An inspected transitive provider joins the providers, the plan
            // and the binding row of the provider at the cursor.
            (Pending::Transitive, ResolveEvent::Inspected(inspection)) => res matches Ok((s, a)) && a is Continue
                && s.inspections@.len() == state.inspections@.len() + 1 && s.inspections@.last().spec_artifact()
                == inspection.spec_artifact() && s.atoms@.len() == state.atoms@.len() + 1 && s.atoms@.last() is DynamicLibrary
                && s.row@ == state.row@.push(Some(inspection.spec_artifact().spec_provider_id())),
            _ => true,
        },
        // An event that answers no pending action is refused.
        (state.pending is Ready || state.pending is Finished) && !(event is Continue) ==> (res matches Err(NativeError::InvalidPolicy { detail }) && detail@ == UNEXPECTED_EVENT@),
{
    let mut state = state;
    let mut pending = Pending::Ready;
    std::mem::swap(&mut pending, &mut state.pending);
    match (pending, event) {
        (Pending::Ready, ResolveEvent::Continue) => {
            if state.next_input < state.inputs.len() {
                input_step(state)
            } else {
                dependency_step(state)
            }
        },
        (Pending::Directory, ResolveEvent::Canonical { path, .. }) => directory_reply(state, path),
        (Pending::Provider { kind, resolution }, ResolveEvent::Canonical { path, file_name }) => provider_reply(
            state,
            kind,
            resolution,
            path,
            file_name,
        ),
        (Pending::NewProvider { kind, file_name }, ResolveEvent::Inspected(inspection)) => new_provider_reply(
            state,
            kind,
            file_name,
            inspection,
        ),
        (Pending::InputCandidates { filenames, kind, index }, ResolveEvent::Candidates(found)) => {
            if found.len() != filenames.len() {
                return Err(unexpected());
            }
            let path = unique_candidate_by_priority(filenames.as_slice(), found.as_slice())?;
            state.pending = Pending::Provider { kind, resolution: ProviderResolution::SearchPath { native_input_index: index } };
            Ok((state, ResolveAction::CanonicalizeProvider { path }))
        },
        (Pending::DependencyCandidates { filenames }, ResolveEvent::Candidates(found)) => dependency_reply(
            state,
            filenames,
            found,
        ),
        (Pending::Transitive, ResolveEvent::Inspected(inspection)) => transitive_reply(state, inspection),
        _ => Err(unexpected()),
    }
}

/// The canonical form of a declared search directory: it joins the search
/// paths, once, and the plan.
fn directory_reply(state: ResolveState, path: Vec<u8>) -> (res: Result<(ResolveState, ResolveAction), NativeError>)
    requires
        state.wf(),
        state.pending is Ready,
        state.next_input < state.inputs@.len(),
    ensures
        res matches Ok((s, a)) && a is Continue && s.wf() && s.inputs@ == state.inputs@ && s.policy == state.policy
            && s.cursor == state.cursor && s.inspections@ == state.inspections@ && s.next_input == state.next_input + 1
            && s.atoms@ == state.atoms@.push(LinkAtom::SearchNative(path)),
{
    let mut state = state;
    let len = state.inputs.len();
    push_distinct(&mut state.search_paths, slice_to_vec(path.as_slice()));
    state.atoms.push(LinkAtom::SearchNative(path));
    state.next_input = state.next_input + 1;
    Ok((state, ResolveAction::Continue))
}

/// The canonical form of a provider path: an artifact already inspected at
/// that path is reused if its kind agrees, and refused otherwise; a new one
/// is inspected.
fn provider_reply(
    state: ResolveState,
    kind: ArtifactKind,
    resolution: ProviderResolution,
    path: Vec<u8>,
    file_name: Option<Vec<u8>>,
) -> (res: Result<(ResolveState, ResolveAction), NativeError>)
    requires
        state.wf(),
        state.pending is Ready,
        state.next_input < state.inputs@.len(),
    ensures
        res matches Ok((s, _)) ==> s.wf() && s.inputs@ == state.inputs@ && s.policy == state.policy && s.cursor
            == state.cursor && s.inspections@.len() == state.inspections@.len(),
        match inspection_at(state.inspections@, path@) {
            Some(i) => if state.inspections@[i].spec_artifact().spec_kind() != kind {
                res matches Err(NativeError::ArtifactKindMismatch { path: p, expected, observed }) && p@ == path@
                    && expected == kind_label_spec(kind) && observed == kind_label_spec(
                    state.inspections@[i].spec_artifact().spec_kind(),
                )
            } else {
                res matches Ok((s, a)) && a is Continue && s.next_input == state.next_input + 1 && s.atoms@.len()
                    == state.atoms@.len() + 1 && atom_kind_matches(s.atoms@.last(), kind)
            },
            None => res matches Ok((s, a)) && (a matches ResolveAction::Inspect { path: p, kind: k, resolution: r, provenance }
                && p@ == path@ && k == kind && r == resolution && provenance == ProviderProvenance::User)
                && s.pending is NewProvider,
        },
{
    let mut state = state;
    let len = state.inputs.len();
    match find_inspection(&state.inspections, path.as_slice()) {
        Some(i) => {
            let existing = state.inspections[i].artifact().kind();
            if existing != kind {
                return Err(NativeError::ArtifactKindMismatch { path, expected: kind_label(kind), observed: kind_label(existing) });
            }
            let mut inspection = state.inspections.remove(i);
            match &file_name {
                Some(n) => inspection.add_provided_name(Some(n.as_slice())),
                None => inspection.add_provided_name(None),
            }
            state.inspections.insert(i, inspection);
            let artifact = state.inspections[i].artifact().clone();
            state.atoms.push(atom_for(kind, artifact));
            state.next_input = state.next_input + 1;
            Ok((state, ResolveAction::Continue))
        },
        None => {
            state.pending = Pending::NewProvider { kind, file_name };
            Ok((state, ResolveAction::Inspect { path, kind, resolution, provenance: ProviderProvenance::User }))
        },
    }
}

/// A newly inspected input provider: it answers to the file name it was
/// given by, and joins the providers and the plan.
fn new_provider_reply(
    state: ResolveState,
    kind: ArtifactKind,
    file_name: Option<Vec<u8>>,
    inspection: ArtifactInspection,
) -> (res: Result<(ResolveState, ResolveAction), NativeError>)
    requires
        state.wf(),
        state.pending is Ready,
        state.next_input < state.inputs@.len(),
    ensures
        res matches Ok((s, a)) && a is Continue && s.wf() && s.inputs@ == state.inputs@ && s.policy == state.policy
            && s.cursor == state.cursor && s.inspections@.len() == state.inspections@.len() + 1
            && s.inspections@.last().spec_artifact() == inspection.spec_artifact() && s.next_input == state.next_input + 1
            && s.atoms@.len() == state.atoms@.len() + 1 && atom_kind_matches(s.atoms@.last(), kind),
{
    let mut state = state;
    let len = state.inputs.len();
    let mut inspection = inspection;
    match &file_name {
        Some(n) => inspection.add_provided_name(Some(n.as_slice())),
        None => inspection.add_provided_name(None),
    }
    let artifact = inspection.artifact().clone();
    state.inspections.push(inspection);
    state.atoms.push(atom_for(kind, artifact));
    state.next_input = state.next_input + 1;
    Ok((state, ResolveAction::Continue))
}

/// The candidates for a dependency of the provider at the cursor: the one
/// chosen is bound if already inspected, and otherwise inspected as a new
/// transitive provider, within the transitive limit.
fn dependency_reply(state: ResolveState, filenames: Vec<Vec<u8>>, found: Vec<Vec<Vec<u8>>>) -> (res: Result<
    (ResolveState, ResolveAction),
    NativeError,
>)
    requires
        state.wf(),
        state.pending is Ready,
        state.cursor < state.inspections@.len(),
    ensures
        res matches Ok((s, _)) ==> s.wf() && s.inputs@ == state.inputs@ && s.policy == state.policy && s.cursor
            == state.cursor && s.inspections@ == state.inspections@,
        res matches Ok((s, ResolveAction::Inspect { kind, resolution, provenance, .. })) ==> kind == ArtifactKind::DynamicLibrary
            && resolution == (ProviderResolution::Dependency {
            parent: state.inspections@[state.cursor as int].spec_artifact().spec_provider_id(),
        }) && provenance == ProviderProvenance::Transitive && s.pending is Transitive && s.transitive == state.transitive
            + 1 && s.transitive <= state.max_transitive,
{
    let mut state = state;
    if found.len() != filenames.len() {
        return Err(unexpected());
    }
    let path = unique_candidate_by_priority(filenames.as_slice(), found.as_slice())?;
    match find_inspection(&state.inspections, path.as_slice()) {
        Some(i) => {
            let provider = state.inspections[i].artifact().provider_id();
            state.row.push(Some(provider));
            Ok((state, ResolveAction::Continue))
        },
        None => {
            state.transitive = admit_transitive(state.transitive, state.max_transitive)?;
            let parent = state.inspections[state.cursor].artifact().provider_id();
            state.pending = Pending::Transitive;
            Ok(
                (
                    state,
                    ResolveAction::Inspect {
                        path,
                        kind: ArtifactKind::DynamicLibrary,
                        resolution: ProviderResolution::Dependency { parent },
                        provenance: ProviderProvenance::Transitive,
                    },
                ),
            )
        },
    }
}

/// A newly inspected transitive provider joins the providers, the plan and
/// the binding row of the provider at the cursor.
fn transitive_reply(state: ResolveState, inspection: ArtifactInspection) -> (res: Result<(ResolveState, ResolveAction), NativeError>)
    requires
        state.wf(),
        state.pending is Ready,
    ensures
        res matches Ok((s, a)) && a is Continue && s.wf() && s.inputs@ == state.inputs@ && s.policy == state.policy
            && s.cursor == state.cursor && s.inspections@.len() == state.inspections@.len() + 1
            && s.inspections@.last().spec_artifact() == inspection.spec_artifact() && s.atoms@.len() == state.atoms@.len() + 1
            && s.atoms@.last() is DynamicLibrary && s.row@ == state.row@.push(
            Some(inspection.spec_artifact().spec_provider_id()),
        ),
{
    let mut state = state;
    let artifact = inspection.artifact().clone();
    let provider = inspection.artifact().provider_id();
    state.inspections.push(inspection);
    state.atoms.push(LinkAtom::DynamicLibrary(artifact));
    state.row.push(Some(provider));
    Ok((state, ResolveAction::Continue))
}

/// The provider of each inspection, in discovery order.
pub open spec fn step_providers(inspections: Seq<ArtifactInspection>) -> Seq<ProviderId> {
    inspections.map_values(|i: ArtifactInspection| i.spec_artifact().spec_provider_id())
}

/// `inspection` can become an inventory under the dependency providers
/// `row`: one provider per dependency, every dependency name a valid native
/// string, and no symbol identity twice.
pub open spec fn inventory_ok(inspection: ArtifactInspection, row: Seq<Option<ProviderId>>) -> bool {
    &&& row.len() == inspection.spec_dependencies().len()
    &&& forall|k: int| 0 <= k < row.len() ==> is_valid_native_string(#[trigger] inspection.spec_dependencies()[k].spec_name())
    &&& ids_distinct(inspection.spec_symbols())
}

/// `inv` is the inventory of `inspection` with its dependencies bound to the
/// providers `row`, in order.
pub open spec fn bound_inventory(inv: SymbolInventory, inspection: ArtifactInspection, row: Seq<Option<ProviderId>>) -> bool {
    &&& inv.spec_artifact() == inspection.spec_artifact()
    &&& inv.spec_inspection() == inspection.spec_inspection()
    &&& inv.spec_symbols().to_multiset() == inspection.spec_symbols().to_multiset()
    &&& inv.spec_edges().len() == row.len()
    &&& forall|k: int|
        0 <= k < row.len() ==> (#[trigger] inv.spec_edges()[k]).spec_requested() == inspection.spec_dependencies()[k].spec_name()
            && inv.spec_edges()[k].spec_provider() == row[k] && inv.spec_edges()[k].spec_provenance()
            == inspection.spec_dependencies()[k].spec_provenance()
}

/// A finished resolution can be ended: every binding names an inspected
/// provider, the dependency graph is acyclic, every dependency follows its
/// parent in the plan, every provider becomes an inventory, and the plan is
/// valid.
pub open spec fn finish_ok(state: ResolveState) -> bool {
    let providers = step_providers(state.inspections@);
    let bound = bindings_view(state.bindings@);
    &&& all_bound(providers, bound)
    &&& acyclic(index_graph(providers, bound))
    &&& plan_order_ok(state.atoms@, providers, bound)
    &&& forall|k: int| 0 <= k < state.inspections@.len() ==> inventory_ok(#[trigger] state.inspections@[k], bound[k])
    &&& plan_valid(state.atoms@)
}

/// Ends a finished resolution: the dependency graph must be acyclic, every
/// dependency must follow its parent in the plan, and each provider becomes
/// an inventory bound to its dependencies' providers.
pub fn finish_steps(state: ResolveState, request: &AnalysisRequest) -> (res: Result<NativeResolution, NativeError>)
    requires
        state.wf(),
        state.pending is Finished,
    ensures
        res is Ok <==> finish_ok(state),
        !all_bound(step_providers(state.inspections@), bindings_view(state.bindings@)) ==> res matches Err(
            NativeError::InvalidPolicy { .. },
        ),
        all_bound(step_providers(state.inspections@), bindings_view(state.bindings@)) && acyclic(
            index_graph(step_providers(state.inspections@), bindings_view(state.bindings@)),
        ) && !plan_order_ok(state.atoms@, step_providers(state.inspections@), bindings_view(state.bindings@)) ==> res matches Err(
            NativeError::InvalidPolicy { .. },
        ),
        res matches Ok(r) ==> {
            &&& r.spec_plan()@ == state.atoms@
            &&& r.spec_source_fingerprint() == request.spec_source().fingerprint
            &&& r.spec_target_fingerprint() == request.spec_source().target.fingerprint
            &&& r.spec_weak_symbol_policy() == request.spec_policy().spec_input().weak_symbols
            &&& keys_sorted(r.spec_inventories())
            &&& exists|invs: Seq<SymbolInventory>|
                #![trigger invs.to_multiset()]
                invs.len() == state.inspections@.len() && r.spec_inventories().to_multiset() == invs.to_multiset() && forall|k: int|
                    0 <= k < invs.len() ==> bound_inventory(#[trigger] invs[k], state.inspections@[k], state.bindings@[k]@)
        },
{
    let ghost whole = state;
    let mut paths: Vec<Vec<u8>> = Vec::new();
    let mut providers: Vec<ProviderId> = Vec::new();
    let mut i: usize = 0;
    while i < state.inspections.len()
        invariant
            i <= state.inspections@.len(),
            paths@.len() == i,
            providers@ == step_providers(state.inspections@.take(i as int)),
        decreases state.inspections@.len() - i,
    {
        paths.push(slice_to_vec(state.inspections[i].artifact().canonical_path()));
        providers.push(state.inspections[i].artifact().provider_id());
        proof {
            assert(state.inspections@.take(i + 1) =~= state.inspections@.take(i as int).push(state.inspections@[i as int]));
            assert(providers@ =~= step_providers(state.inspections@.take(i + 1)));
        }
        i = i + 1;
    }
    proof {
        assert(state.inspections@.take(i as int) =~= state.inspections@);
    }
    ensure_acyclic(&paths, &providers, &state.bindings)?;
    ensure_dependency_plan_order(state.atoms.as_slice(), &providers, &state.bindings)?;
    let ResolveState { inspections, bindings, atoms, .. } = state;
    let ghost all = inspections@;
    let mut inventories: Vec<SymbolInventory> = Vec::new();
    let mut rest = inspections;
    let mut k: usize = 0;
    let n = rest.len();
    while k < n
        invariant
            k <= n,
            n == all.len(),
            all == whole.inspections@,
            whole == state,
            plan_order_ok(whole.atoms@, step_providers(whole.inspections@), bindings_view(whole.bindings@)),
            all_bound(step_providers(whole.inspections@), bindings_view(whole.bindings@)),
            rest@ == all.subrange(k as int, n as int),
            bindings@ == whole.bindings@,
            bindings@.len() == n,
            inventories@.len() == k,
            forall|j: int| 0 <= j < k ==> inventory_ok(#[trigger] all[j], bindings@[j]@),
            forall|j: int| 0 <= j < k ==> bound_inventory(#[trigger] inventories@[j], all[j], bindings@[j]@),
        decreases n - k,
    {
        let inspection = rest.remove(0);
        proof {
            assert(inspection == all[k as int]);
            assert(rest@ =~= all.subrange(k + 1, n as int));
        }
        let inventory = match inspection.into_inventory(bindings[k].as_slice()) {
            Ok(inventory) => inventory,
            Err(e) => {
                proof {
                    assert(!inventory_ok(all[k as int], bindings@[k as int]@));
                    assert(bindings_view(whole.bindings@)[k as int] == bindings@[k as int]@);
                    assert(whole.inspections@[k as int] == all[k as int]);
                    assert(!inventory_ok(whole.inspections@[k as int], bindings_view(whole.bindings@)[k as int]));
                    assert(!finish_ok(whole));
                    assert(all_bound(step_providers(whole.inspections@), bindings_view(whole.bindings@)));
                }
                return Err(e);
            },
        };
        inventories.push(inventory);
        k = k + 1;
    }
    proof {
        assert forall|j: int| 0 <= j < all.len() implies inventory_ok(#[trigger] all[j], bindings_view(whole.bindings@)[j]) by {
            assert(bindings_view(whole.bindings@)[j] == bindings@[j]@);
        }
        assert(inventories@.len() == all.len());
    }
    finish_resolution(request, atoms, inventories)
}

} // verus!
