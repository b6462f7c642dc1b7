//! The link-analysis package: every piece of native evidence for one source
//! and target, checked for internal coherence.
use vstd::prelude::*;

use super::diagnostic::{DiagnosticEvidenceRef, LincDiagnostic};
use super::error::ContractError;
use super::evidence::{
    CallableAbiAssessment, DeclarationEvidence, EvidenceConfidence, LayoutAssessment,
};
use super::graph::{acyclic, first_unranked, graph_view};
use super::identity::{LinkAnalysisFingerprint, ProbeEvidenceId, ProviderId};
use super::inventory::{InspectionProvenance, SymbolInventory};
use super::layout::LayoutEvidence;
use super::link::{LinkAtom, ResolvedLinkPlan};
use super::model::{
    artifact_same, ArtifactKind, DependencyEdge, InspectionParserKind, NativeInput, ObjectFormat, ProviderResolution,
    ResolvedArtifact,
};
use super::package::{
    find_inventory, lookup, references_refusal, refusal_is, symbol_with_id, validate_declaration_references, LinkedRefusal,
};
use super::probe::AbiProbeEvidence;
use super::source::{DeclarationId, SourceFingerprint, TargetFingerprint};
use crate::native::resolve::{all_bound, bindings_view, dependency_index_graph, index_graph};
use super::canonical::{
    adjacent_ascending, adjacent_sorted, keys_ascending, keys_in_order, keys_sorted, lemma_adjacent_ascending,
    lemma_ascending_sorted, lemma_distinct_keys_ascend, lemma_sorted_unique, sort_by_key, SortKey,
};
use super::codec::{link_analysis_schema_v2, LINK_ANALYSIS_SCHEMA_ID, LINK_ANALYSIS_SCHEMA_VERSION};
use super::identity::{digest_spec, LINK_ANALYSIS_FINGERPRINT_DOMAIN};
use super::model::{groups_balanced, input_group_steps, input_ok, native_inputs_refusal, validate_native_inputs};
use super::order::{lemma_lex_sign_equal, lemma_lex_sign_range, lex_sign};
use super::request::{any_search_input, is_search_input_spec, policy_error, AnalysisPolicy, AnalysisPolicyInput, ResolutionPolicy};
use super::source::SchemaHeader;
use super::payload::{lemma_extend, seq_canonical, write_items, Canonical};
use vstd::utf8::encode_utf8;

verus! {

// ---------------------------------------------------------------------------
// Providers
// ---------------------------------------------------------------------------

/// The provider an inventory describes.
pub open spec fn inv_provider(inv: SymbolInventory) -> ProviderId {
    inv.spec_artifact().spec_provider_id()
}

/// The providers of the inventories, in order.
pub open spec fn inv_providers(invs: Seq<SymbolInventory>) -> Seq<ProviderId> {
    invs.map_values(|inv: SymbolInventory| inv_provider(inv))
}

/// The dependency bindings of the inventories, in order.
pub open spec fn inv_bindings(invs: Seq<SymbolInventory>) -> Seq<Seq<Option<ProviderId>>> {
    invs.map_values(|inv: SymbolInventory| inv.spec_edges().map_values(|e: DependencyEdge| e.spec_provider()))
}

/// Some inventory describes `p`.
pub open spec fn has_provider(invs: Seq<SymbolInventory>, p: ProviderId) -> bool {
    exists|i: int| 0 <= i < invs.len() && inv_provider(#[trigger] invs[i]) == p
}

pub proof fn lemma_lookup(invs: Seq<SymbolInventory>, p: ProviderId)
    ensures
        lookup(invs, p) is Some <==> has_provider(invs, p),
        lookup(invs, p) matches Some(inv) ==> inv_provider(inv) == p && exists|i: int| 0 <= i < invs.len() && invs[i] == inv,
    decreases invs.len(),
{
    if invs.len() > 0 {
        lemma_lookup(invs.drop_first(), p);
        if has_provider(invs, p) && inv_provider(invs[0]) != p {
            let i = choose|i: int| 0 <= i < invs.len() && inv_provider(#[trigger] invs[i]) == p;
            assert(invs.drop_first()[i - 1] == invs[i]);
        }
        if has_provider(invs.drop_first(), p) {
            let i = choose|i: int| 0 <= i < invs.drop_first().len() && inv_provider(#[trigger] invs.drop_first()[i]) == p;
            assert(invs[i + 1] == invs.drop_first()[i]);
        }
        if let Some(inv) = lookup(invs.drop_first(), p) {
            let i = choose|i: int| 0 <= i < invs.drop_first().len() && invs.drop_first()[i] == inv;
            assert(invs[i + 1] == inv);
        }
    }
}

/// No two inventories describe the same provider, and all are bound to the
/// package's target.
pub open spec fn inventories_ok(invs: Seq<SymbolInventory>, target: TargetFingerprint) -> bool {
    &&& forall|i: int, j: int| 0 <= i < j < invs.len() ==> inv_provider(#[trigger] invs[i]) != inv_provider(#[trigger] invs[j])
    &&& forall|i: int|
        0 <= i < invs.len() ==> (#[trigger] invs[i]).spec_artifact().spec_observed_target().spec_parts().target_fingerprint
            == target
}

/// The answers to inventories that fail `inventories_ok`: a provider held
/// twice, or an inventory observed on another target.
pub open spec fn inventories_refusal(e: ContractError, invs: Seq<SymbolInventory>, target: TargetFingerprint) -> bool {
    ||| e matches ContractError::DuplicateProvider { provider } && exists|i: int, j: int|
        0 <= i < j < invs.len() && inv_provider(#[trigger] invs[i]) == provider && inv_provider(#[trigger] invs[j]) == provider
    ||| e matches ContractError::EvidenceTargetMismatch { expected, actual, .. } && expected == target && actual != target
}

fn check_inventories(invs: &[SymbolInventory], target: TargetFingerprint) -> (res: Result<(), ContractError>)
    ensures
        res is Ok <==> inventories_ok(invs@, target),
        res matches Err(e) ==> inventories_refusal(e, invs@, target),
{
    let mut i: usize = 0;
    while i < invs.len()
        invariant
            i <= invs@.len(),
            inventories_ok(invs@.take(i as int), target),
        decreases invs@.len() - i,
    {
        let provider = invs[i].artifact().provider_id();
        let mut j: usize = 0;
        while j < i
            invariant
                j <= i < invs@.len(),
                provider == inv_provider(invs@[i as int]),
                forall|k: int| 0 <= k < j ==> inv_provider(#[trigger] invs@[k]) != provider,
            decreases i - j,
        {
            if invs[j].artifact().provider_id().same(&provider) {
                proof {
                    assert(!inventories_ok(invs@, target)) by {
                        assert(inv_provider(invs@[j as int]) == inv_provider(invs@[i as int]));
                    }
                    assert(inv_provider(invs@[j as int]) == provider && inv_provider(invs@[i as int]) == provider);
                }
                return Err(ContractError::DuplicateProvider { provider });
            }
            j = j + 1;
        }
        let actual = invs[i].artifact().observed_target().target_fingerprint();
        if !actual.same(&target) {
            proof {
                assert(!inventories_ok(invs@, target)) by {
                    assert(invs@[i as int].spec_artifact().spec_observed_target().spec_parts().target_fingerprint != target);
                }
            }
            return Err(ContractError::EvidenceTargetMismatch { evidence_kind: "symbol inventory", expected: target, actual });
        }
        proof {
            let t = invs@.take(i + 1);
            assert forall|a: int, b: int| 0 <= a < b < t.len() implies inv_provider(#[trigger] t[a]) != inv_provider(#[trigger] t[b]) by {
                if b == i {
                    assert(t[a] == invs@[a]);
                } else {
                    assert(t[a] == invs@.take(i as int)[a] && t[b] == invs@.take(i as int)[b]);
                }
            }
            assert forall|a: int| 0 <= a < t.len() implies (#[trigger] t[a]).spec_artifact().spec_observed_target().spec_parts().target_fingerprint
                == target by {
                if a < i {
                    assert(t[a] == invs@.take(i as int)[a]);
                }
            }
        }
        i = i + 1;
    }
    proof {
        assert(invs@.take(invs@.len() as int) =~= invs@);
    }
    Ok(())
}

// ---------------------------------------------------------------------------
// Probes
// ---------------------------------------------------------------------------

/// Some probe has identity `id`.
pub open spec fn has_probe(probes: Seq<AbiProbeEvidence>, id: ProbeEvidenceId) -> bool {
    exists|i: int| 0 <= i < probes.len() && (#[trigger] probes[i]).spec_id() == id
}

/// Probe identities are distinct and every probe is bound to the package's
/// source and target.
pub open spec fn probes_ok(probes: Seq<AbiProbeEvidence>, source: SourceFingerprint, target: TargetFingerprint) -> bool {
    &&& forall|i: int, j: int| 0 <= i < j < probes.len() ==> (#[trigger] probes[i]).spec_id() != (#[trigger] probes[j]).spec_id()
    &&& forall|i: int| 0 <= i < probes.len() ==> (#[trigger] probes[i]).spec_input().source_fingerprint == source
    &&& forall|i: int| 0 <= i < probes.len() ==> (#[trigger] probes[i]).spec_input().target_fingerprint == target
}

/// The answer to evidence bound to another source or target.
pub open spec fn fingerprint_refusal(e: ContractError, source: SourceFingerprint, target: TargetFingerprint) -> bool {
    ||| e matches ContractError::EvidenceSourceFingerprintMismatch { expected, actual, .. } && expected == source && actual
        != source
    ||| e matches ContractError::EvidenceTargetMismatch { expected, actual, .. } && expected == target && actual != target
}

/// The answers to probes that fail `probes_ok`: an identity held twice, or a
/// probe bound to another source or target.
pub open spec fn probes_refusal(
    e: ContractError,
    probes: Seq<AbiProbeEvidence>,
    source: SourceFingerprint,
    target: TargetFingerprint,
) -> bool {
    ||| e matches ContractError::DuplicateProbeEvidence { probe } && exists|i: int, j: int|
        0 <= i < j < probes.len() && (#[trigger] probes[i]).spec_id() == probe && (#[trigger] probes[j]).spec_id() == probe
    ||| fingerprint_refusal(e, source, target)
}

/// Refuses evidence bound to another source or target.
fn check_fingerprints(
    evidence_kind: &'static str,
    source: SourceFingerprint,
    target: TargetFingerprint,
    expected_source: SourceFingerprint,
    expected_target: TargetFingerprint,
) -> (res: Result<(), ContractError>)
    ensures
        source != expected_source ==> res == Err::<(), ContractError>(
            ContractError::EvidenceSourceFingerprintMismatch { evidence_kind, expected: expected_source, actual: source },
        ),
        source == expected_source && target != expected_target ==> res == Err::<(), ContractError>(
            ContractError::EvidenceTargetMismatch { evidence_kind, expected: expected_target, actual: target },
        ),
        source == expected_source && target == expected_target ==> res is Ok,
{
    if !source.same(&expected_source) {
        return Err(ContractError::EvidenceSourceFingerprintMismatch { evidence_kind, expected: expected_source, actual: source });
    }
    if !target.same(&expected_target) {
        return Err(ContractError::EvidenceTargetMismatch { evidence_kind, expected: expected_target, actual: target });
    }
    Ok(())
}

fn check_probes(probes: &[AbiProbeEvidence], source: SourceFingerprint, target: TargetFingerprint) -> (res: Result<
    (),
    ContractError,
>)
    ensures
        res is Ok <==> probes_ok(probes@, source, target),
        res matches Err(e) ==> probes_refusal(e, probes@, source, target),
{
    let mut i: usize = 0;
    while i < probes.len()
        invariant
            i <= probes@.len(),
            probes_ok(probes@.take(i as int), source, target),
        decreases probes@.len() - i,
    {
        let id = probes[i].id();
        let mut j: usize = 0;
        while j < i
            invariant
                j <= i < probes@.len(),
                id == probes@[i as int].spec_id(),
                forall|k: int| 0 <= k < j ==> (#[trigger] probes@[k]).spec_id() != id,
            decreases i - j,
        {
            if probes[j].id().same(&id) {
                proof {
                    assert(probes@[j as int].spec_id() == probes@[i as int].spec_id());
                    assert(probes@[j as int].spec_id() == id && probes@[i as int].spec_id() == id);
                }
                return Err(ContractError::DuplicateProbeEvidence { probe: id });
            }
            j = j + 1;
        }
        let fingerprints = check_fingerprints(
            "ABI probe",
            probes[i].source_fingerprint(),
            probes[i].target_fingerprint(),
            source,
            target,
        );
        if fingerprints.is_err() {
            return fingerprints;
        }
        proof {
            let t = probes@.take(i + 1);
            assert forall|a: int, b: int| 0 <= a < b < t.len() implies (#[trigger] t[a]).spec_id() != (#[trigger] t[b]).spec_id() by {
                if b == i {
                    assert(t[a] == probes@[a]);
                } else {
                    assert(t[a] == probes@.take(i as int)[a] && t[b] == probes@.take(i as int)[b]);
                }
            }
            assert forall|a: int| 0 <= a < t.len() implies (#[trigger] t[a]).spec_input().source_fingerprint == source
                && t[a].spec_input().target_fingerprint == target by {
                if a < i {
                    assert(t[a] == probes@.take(i as int)[a]);
                }
            }
        }
        i = i + 1;
    }
    proof {
        assert(probes@.take(probes@.len() as int) =~= probes@);
    }
    Ok(())
}

/// Whether some probe has identity `id`.
fn find_probe(probes: &[AbiProbeEvidence], id: ProbeEvidenceId) -> (out: bool)
    ensures
        out <==> has_probe(probes@, id),
{
    let mut i: usize = 0;
    while i < probes.len()
        invariant
            i <= probes@.len(),
            forall|k: int| 0 <= k < i ==> (#[trigger] probes@[k]).spec_id() != id,
        decreases probes@.len() - i,
    {
        if probes[i].id().same(&id) {
            return true;
        }
        i = i + 1;
    }
    false
}

// ---------------------------------------------------------------------------
// Per-inventory checks
// ---------------------------------------------------------------------------

/// The parser an artifact's container format requires.
pub open spec fn format_parser(format: ObjectFormat, kind: ArtifactKind) -> InspectionParserKind {
    match format {
        ObjectFormat::Elf => InspectionParserKind::Elf,
        ObjectFormat::MachO => InspectionParserKind::MachO,
        ObjectFormat::Coff => if kind == ArtifactKind::DynamicLibrary {
            InspectionParserKind::Pe
        } else {
            InspectionParserKind::Coff
        },
        ObjectFormat::Wasm => InspectionParserKind::Wasm,
        ObjectFormat::Xcoff => InspectionParserKind::Xcoff,
    }
}

pub open spec fn has_parser(inspection: InspectionProvenance, kind: InspectionParserKind) -> bool {
    exists|i: int| 0 <= i < inspection.spec_parsers().len() && (#[trigger] inspection.spec_parsers()[i]).spec_kind() == kind
}

/// The inspection used the parser the artifact's format requires, an
/// archive parser for archives, and frameworks are Mach-O.
pub open spec fn inspection_ok(inv: SymbolInventory) -> bool {
    let format = inv.spec_artifact().spec_observed_target().spec_parts().object_format;
    let kind = inv.spec_artifact().spec_kind();
    &&& has_parser(inv.spec_inspection(), format_parser(format, kind))
    &&& (kind == ArtifactKind::StaticLibrary || kind == ArtifactKind::ImportLibrary) ==> has_parser(
        inv.spec_inspection(),
        InspectionParserKind::Archive,
    )
    &&& !(kind == ArtifactKind::Framework && format != ObjectFormat::MachO)
}

fn parser_present(inspection: &InspectionProvenance, kind: InspectionParserKind) -> (out: bool)
    ensures
        out <==> has_parser(*inspection, kind),
{
    let parsers = inspection.parsers();
    let mut i: usize = 0;
    while i < parsers.len()
        invariant
            i <= parsers@.len(),
            parsers@ == inspection.spec_parsers(),
            forall|k: int| 0 <= k < i ==> (#[trigger] parsers@[k]).spec_kind() != kind,
        decreases parsers@.len() - i,
    {
        if parsers[i].kind() == kind {
            return true;
        }
        i = i + 1;
    }
    false
}

/// Checks that an inventory's parsers fit its artifact's container and format.
pub fn validate_inspection_provenance(inventory: &SymbolInventory) -> (res: Result<(), ContractError>)
    ensures
        inspection_ok(*inventory) ==> res is Ok,
        !inspection_ok(*inventory) ==> res == Err::<(), ContractError>(
            ContractError::InspectionParserMismatch { provider: inv_provider(*inventory) },
        ),
{
    let artifact = inventory.artifact();
    let format = artifact.observed_target().object_format();
    let kind = artifact.kind();
    let required = match format {
        ObjectFormat::Elf => InspectionParserKind::Elf,
        ObjectFormat::MachO => InspectionParserKind::MachO,
        ObjectFormat::Coff => if kind == ArtifactKind::DynamicLibrary {
            InspectionParserKind::Pe
        } else {
            InspectionParserKind::Coff
        },
        ObjectFormat::Wasm => InspectionParserKind::Wasm,
        ObjectFormat::Xcoff => InspectionParserKind::Xcoff,
    };
    let archive_required = kind == ArtifactKind::StaticLibrary || kind == ArtifactKind::ImportLibrary;
    let framework_mismatch = kind == ArtifactKind::Framework && format != ObjectFormat::MachO;
    let inspection = inventory.inspection();
    if !parser_present(inspection, required) || (archive_required && !parser_present(
        inspection,
        InspectionParserKind::Archive,
    )) || framework_mismatch {
        return Err(ContractError::InspectionParserMismatch { provider: artifact.provider_id() });
    }
    Ok(())
}

/// A search-path resolution names an input of the artifact's kind.
pub open spec fn input_matches_kind(kind: ArtifactKind, input: NativeInput) -> bool {
    match (kind, input) {
        (ArtifactKind::StaticLibrary, NativeInput::StaticLibraryName(_)) => true,
        (ArtifactKind::DynamicLibrary, NativeInput::DynamicLibraryName(_)) => true,
        (ArtifactKind::ImportLibrary, NativeInput::ImportLibraryName(_)) => true,
        (ArtifactKind::Framework, NativeInput::FrameworkName { .. }) => true,
        _ => false,
    }
}

/// Some edge of `inv` is bound to `child`.
pub open spec fn has_edge_to(inv: SymbolInventory, child: ProviderId) -> bool {
    exists|k: int| 0 <= k < inv.spec_edges().len() && (#[trigger] inv.spec_edges()[k]).spec_provider() == Some(child)
}

/// How the inventory's artifact was found is consistent with the package.
pub open spec fn resolution_ok(inv: SymbolInventory, inputs: Seq<NativeInput>, invs: Seq<SymbolInventory>) -> bool {
    match inv.spec_artifact().spec_resolution() {
        ProviderResolution::Explicit => true,
        ProviderResolution::SearchPath { native_input_index } => native_input_index < inputs.len() && input_matches_kind(
            inv.spec_artifact().spec_kind(),
            inputs[native_input_index as int],
        ),
        ProviderResolution::Dependency { parent } => parent != inv_provider(inv) && (lookup(invs, parent) matches Some(
            p,
        ) && has_edge_to(p, inv_provider(inv))),
    }
}

/// Every bound dependency edge names another provider of the package.
pub open spec fn edges_ok(inv: SymbolInventory, invs: Seq<SymbolInventory>) -> bool {
    forall|k: int|
        0 <= k < inv.spec_edges().len() ==> ((#[trigger] inv.spec_edges()[k]).spec_provider() matches Some(c) ==> c
            != inv_provider(inv) && has_provider(invs, c))
}

pub open spec fn inventory_checks_ok(inv: SymbolInventory, inputs: Seq<NativeInput>, invs: Seq<SymbolInventory>) -> bool {
    inspection_ok(inv) && resolution_ok(inv, inputs, invs) && edges_ok(inv, invs)
}

/// What an inconsistent resolution is answered: a search-path input that
/// is absent or of another kind, a provider that is its own parent, a
/// parent the package lacks, or a parent with no edge to the provider.
pub open spec fn resolution_refusal(
    inv: SymbolInventory,
    inputs: Seq<NativeInput>,
    invs: Seq<SymbolInventory>,
) -> Option<ContractError> {
    let provider = inv_provider(inv);
    match inv.spec_artifact().spec_resolution() {
        ProviderResolution::Explicit => None,
        ProviderResolution::SearchPath { native_input_index } => if native_input_index < inputs.len()
            && input_matches_kind(inv.spec_artifact().spec_kind(), inputs[native_input_index as int]) {
            None
        } else {
            Some(ContractError::InvalidResolutionInput { provider, index: native_input_index })
        },
        ProviderResolution::Dependency { parent } => if parent == provider {
            Some(ContractError::SelfParentProvider { provider })
        } else {
            match lookup(invs, parent) {
                None => Some(ContractError::MissingParentProvider { provider, parent }),
                Some(p) => if has_edge_to(p, provider) {
                    None
                } else {
                    Some(ContractError::DependencyCrossReference { parent, child: provider })
                },
            }
        },
    }
}

fn check_resolution(inv: &SymbolInventory, inputs: &[NativeInput], invs: &[SymbolInventory]) -> (res: Result<
    (),
    ContractError,
>)
    ensures
        res is Ok <==> resolution_ok(*inv, inputs@, invs@),
        res == match resolution_refusal(*inv, inputs@, invs@) {
            None => Ok::<(), ContractError>(()),
            Some(e) => Err(e),
        },
{
    let artifact = inv.artifact();
    let provider = artifact.provider_id();
    match artifact.resolution() {
        ProviderResolution::Explicit => Ok(()),
        ProviderResolution::SearchPath { native_input_index } => {
            let index = *native_input_index;
            assert(inv.spec_artifact().spec_resolution() == (ProviderResolution::SearchPath { native_input_index: index }));
            if (index as usize) < inputs.len() {
                assert((index as usize) as int == index as int);
                let ok = match (artifact.kind(), &inputs[index as usize]) {
                    (ArtifactKind::StaticLibrary, NativeInput::StaticLibraryName(_)) => true,
                    (ArtifactKind::DynamicLibrary, NativeInput::DynamicLibraryName(_)) => true,
                    (ArtifactKind::ImportLibrary, NativeInput::ImportLibraryName(_)) => true,
                    (ArtifactKind::Framework, NativeInput::FrameworkName { .. }) => true,
                    _ => false,
                };
                if ok {
                    return Ok(());
                }
            }
            Err(ContractError::InvalidResolutionInput { provider, index })
        },
        ProviderResolution::Dependency { parent } => {
            if parent.same(&provider) {
                return Err(ContractError::SelfParentProvider { provider });
            }
            let parent_inventory = match find_inventory(invs, *parent) {
                Some(p) => p,
                None => {
                    return Err(ContractError::MissingParentProvider { provider, parent: *parent });
                },
            };
            let edges = parent_inventory.dependency_edges();
            let mut k: usize = 0;
            while k < edges.len()
                invariant
                    k <= edges@.len(),
                    edges@ == parent_inventory.spec_edges(),
                    provider == inv_provider(*inv),
                    inv.spec_artifact().spec_resolution() == (ProviderResolution::Dependency { parent: *parent }),
                    *parent != provider,
                    lookup(invs@, *parent) == Some(*parent_inventory),
                    forall|m: int| 0 <= m < k ==> (#[trigger] edges@[m]).spec_provider() != Some(provider),
                decreases edges@.len() - k,
            {
                if let Some(child) = edges[k].provider() {
                    if child.same(&provider) {
                        return Ok(());
                    }
                }
                k = k + 1;
            }
            Err(ContractError::DependencyCrossReference { parent: *parent, child: provider })
        },
    }
}

/// The answers to an edge that fails `edges_ok`: an edge to the provider
/// itself, or to a provider the package lacks.
pub open spec fn edges_refusal(e: ContractError, inv: SymbolInventory, invs: Seq<SymbolInventory>) -> bool {
    ||| e matches ContractError::SelfParentProvider { provider } && provider == inv_provider(inv)
    ||| e matches ContractError::MissingParentProvider { provider, parent } && provider == inv_provider(inv)
        && !has_provider(invs, parent)
}

/// What the first failing check of one inventory is answered.
pub open spec fn inventory_refusal(
    e: ContractError,
    inv: SymbolInventory,
    inputs: Seq<NativeInput>,
    invs: Seq<SymbolInventory>,
) -> bool {
    if !inspection_ok(inv) {
        e == ContractError::InspectionParserMismatch { provider: inv_provider(inv) }
    } else if resolution_refusal(inv, inputs, invs) is Some {
        resolution_refusal(inv, inputs, invs) == Some(e)
    } else {
        edges_refusal(e, inv, invs)
    }
}

fn check_edges(inv: &SymbolInventory, invs: &[SymbolInventory]) -> (res: Result<(), ContractError>)
    ensures
        res is Ok <==> edges_ok(*inv, invs@),
        res matches Err(e) ==> edges_refusal(e, *inv, invs@),
{
    let provider = inv.artifact().provider_id();
    let edges = inv.dependency_edges();
    let mut k: usize = 0;
    while k < edges.len()
        invariant
            k <= edges@.len(),
            edges@ == inv.spec_edges(),
            provider == inv_provider(*inv),
            forall|m: int|
                0 <= m < k ==> ((#[trigger] edges@[m]).spec_provider() matches Some(c) ==> c != provider && has_provider(
                    invs@,
                    c,
                )),
        decreases edges@.len() - k,
    {
        if let Some(child) = edges[k].provider() {
            if child.same(&provider) {
                return Err(ContractError::SelfParentProvider { provider });
            }
            proof {
                lemma_lookup(invs@, child);
            }
            if find_inventory(invs, child).is_none() {
                return Err(ContractError::MissingParentProvider { provider, parent: child });
            }
        }
        k = k + 1;
    }
    Ok(())
}

/// The answer to the first inventory, in package order, whose checks fail.
pub open spec fn inventory_links_refusal(e: ContractError, inputs: Seq<NativeInput>, invs: Seq<SymbolInventory>) -> bool {
    exists|i: int|
        0 <= i < invs.len() && (forall|k: int| 0 <= k < i ==> inventory_checks_ok(#[trigger] invs[k], inputs, invs))
            && !inventory_checks_ok(invs[i], inputs, invs) && #[trigger] inventory_refusal(e, invs[i], inputs, invs)
}

fn check_inventory_links(inputs: &[NativeInput], invs: &[SymbolInventory]) -> (res: Result<(), ContractError>)
    ensures
        res is Ok <==> forall|i: int| 0 <= i < invs@.len() ==> inventory_checks_ok(#[trigger] invs@[i], inputs@, invs@),
        res matches Err(e) ==> inventory_links_refusal(e, inputs@, invs@),
{
    let mut i: usize = 0;
    while i < invs.len()
        invariant
            i <= invs@.len(),
            forall|k: int| 0 <= k < i ==> inventory_checks_ok(#[trigger] invs@[k], inputs@, invs@),
        decreases invs@.len() - i,
    {
        let provenance = validate_inspection_provenance(&invs[i]);
        if provenance.is_err() {
            assert(inventory_refusal(provenance->Err_0, invs@[i as int], inputs@, invs@));
            return provenance;
        }
        let resolution = check_resolution(&invs[i], inputs, invs);
        if resolution.is_err() {
            assert(inventory_refusal(resolution->Err_0, invs@[i as int], inputs@, invs@));
            return resolution;
        }
        let edges = check_edges(&invs[i], invs);
        if edges.is_err() {
            assert(inventory_refusal(edges->Err_0, invs@[i as int], inputs@, invs@));
            return edges;
        }
        i = i + 1;
    }
    Ok(())
}

/// Checks that the provider dependency graph has no cycle.
fn check_dependency_graph(invs: &[SymbolInventory]) -> (res: Result<(), ContractError>)
    requires
        forall|i: int| 0 <= i < invs@.len() ==> edges_ok(#[trigger] invs@[i], invs@),
    ensures
        res is Ok <==> acyclic(index_graph(inv_providers(invs@), inv_bindings(invs@))),
        res matches Err(ContractError::DependencyCycle { provider }) ==> has_provider(invs@, provider),
        res matches Err(e) ==> e is DependencyCycle,
{
    let mut providers: Vec<ProviderId> = Vec::new();
    let mut bindings: Vec<Vec<Option<ProviderId>>> = Vec::new();
    let mut i: usize = 0;
    while i < invs.len()
        invariant
            i <= invs@.len(),
            providers@ == inv_providers(invs@).take(i as int),
            bindings_view(bindings@) == inv_bindings(invs@).take(i as int),
        decreases invs@.len() - i,
    {
        providers.push(invs[i].artifact().provider_id());
        let edges = invs[i].dependency_edges();
        let mut row: Vec<Option<ProviderId>> = Vec::new();
        let mut k: usize = 0;
        while k < edges.len()
            invariant
                k <= edges@.len(),
                edges@ == invs@[i as int].spec_edges(),
                row@ == edges@.take(k as int).map_values(|e: DependencyEdge| e.spec_provider()),
            decreases edges@.len() - k,
        {
            row.push(edges[k].provider());
            proof {
                assert(edges@.take(k + 1).map_values(|e: DependencyEdge| e.spec_provider()) =~= edges@.take(
                    k as int,
                ).map_values(|e: DependencyEdge| e.spec_provider()).push(edges@[k as int].spec_provider()));
            }
            k = k + 1;
        }
        proof {
            assert(edges@.take(edges@.len() as int) =~= edges@);
        }
        let ghost before = bindings@;
        bindings.push(row);
        proof {
            assert(providers@ =~= inv_providers(invs@).take(i + 1));
            assert(bindings_view(bindings@) =~= inv_bindings(invs@).take(i + 1)) by {
                assert(bindings_view(bindings@) =~= bindings_view(before).push(row@));
            }
        }
        i = i + 1;
    }
    proof {
        assert(providers@ =~= inv_providers(invs@));
        assert(bindings_view(bindings@) =~= inv_bindings(invs@));
        assert(all_bound(providers@, bindings_view(bindings@))) by {
            assert forall|x: int, k: int|
                0 <= x < bindings_view(bindings@).len() && x < providers@.len() && 0 <= k < bindings_view(bindings@)[x].len()
                    implies (#[trigger] bindings_view(bindings@)[x][k] matches Some(p)
                ==> crate::native::resolve::provider_index(providers@, p) is Some) by {
                let inv = invs@[x];
                assert(bindings_view(bindings@)[x][k] == inv.spec_edges()[k].spec_provider());
                if let Some(p) = inv.spec_edges()[k].spec_provider() {
                    assert(edges_ok(inv, invs@));
                    assert(has_provider(invs@, p));
                    let w = choose|w: int| 0 <= w < invs@.len() && inv_provider(#[trigger] invs@[w]) == p;
                    assert(providers@[w] == p);
                }
            }
        }
    }
    let graph = match dependency_index_graph(&providers, &bindings) {
        Some(graph) => graph,
        None => {
            return Ok(());
        },
    };
    match first_unranked(&graph) {
        None => Ok(()),
        Some(u) => {
            proof {
                assert(graph_view(graph@).len() == graph@.len());
                assert(index_graph(providers@, bindings_view(bindings@)).len() == providers@.len());
                assert(inv_provider(invs@[u as int]) == providers@[u as int]);
            }
            Err(ContractError::DependencyCycle { provider: providers[u] })
        },
    }
}

// ---------------------------------------------------------------------------
// Layouts and declaration evidence
// ---------------------------------------------------------------------------

/// The first layout for declaration `d`.
pub open spec fn layout_for(layouts: Seq<LayoutEvidence>, d: DeclarationId) -> Option<LayoutEvidence>
    decreases layouts.len(),
{
    if layouts.len() == 0 {
        None
    } else if layouts[0].spec_declaration() == d {
        Some(layouts[0])
    } else {
        layout_for(layouts.drop_first(), d)
    }
}

pub fn find_layout<'a>(layouts: &'a [LayoutEvidence], d: DeclarationId) -> (out: Option<&'a LayoutEvidence>)
    ensures
        match layout_for(layouts@, d) {
            Some(l) => out matches Some(o) && *o == l,
            None => out is None,
        },
{
    let mut i: usize = 0;
    assert(layouts@.skip(0) =~= layouts@);
    while i < layouts.len()
        invariant
            i <= layouts@.len(),
            layout_for(layouts@, d) == layout_for(layouts@.skip(i as int), d),
        decreases layouts@.len() - i,
    {
        proof {
            assert(layouts@.skip(i as int).drop_first() =~= layouts@.skip(i + 1));
        }
        if layouts[i].declaration().same(&d) {
            return Some(&layouts[i]);
        }
        i = i + 1;
    }
    None
}

/// One layout per declaration, each bound to the package's source and
/// target and citing a probe of the package.
pub open spec fn layouts_ok(
    layouts: Seq<LayoutEvidence>,
    source: SourceFingerprint,
    target: TargetFingerprint,
    probes: Seq<AbiProbeEvidence>,
) -> bool {
    &&& forall|i: int, j: int|
        0 <= i < j < layouts.len() ==> (#[trigger] layouts[i]).spec_declaration() != (#[trigger] layouts[j]).spec_declaration()
    &&& forall|i: int| 0 <= i < layouts.len() ==> (#[trigger] layouts[i]).spec_source_fingerprint() == source
    &&& forall|i: int| 0 <= i < layouts.len() ==> (#[trigger] layouts[i]).spec_target_fingerprint() == target
    &&& forall|i: int| 0 <= i < layouts.len() ==> has_probe(probes, (#[trigger] layouts[i]).spec_probe())
}

/// The answers to layouts that fail `layouts_ok`: a declaration measured
/// twice, a layout bound to another source or target, or a missing probe.
pub open spec fn layouts_refusal(e: ContractError, source: SourceFingerprint, target: TargetFingerprint) -> bool {
    ||| e matches ContractError::DuplicateDeclarationEvidence { evidence_kind, .. } && evidence_kind@ == "layout"@
    ||| fingerprint_refusal(e, source, target)
    ||| e is MissingProbeEvidence
}

fn check_layouts(
    layouts: &[LayoutEvidence],
    source: SourceFingerprint,
    target: TargetFingerprint,
    probes: &[AbiProbeEvidence],
) -> (res: Result<(), ContractError>)
    ensures
        res is Ok <==> layouts_ok(layouts@, source, target, probes@),
        res matches Err(e) ==> layouts_refusal(e, source, target),
{
    let mut i: usize = 0;
    while i < layouts.len()
        invariant
            i <= layouts@.len(),
            layouts_ok(layouts@.take(i as int), source, target, probes@),
        decreases layouts@.len() - i,
    {
        let declaration = layouts[i].declaration();
        let mut j: usize = 0;
        while j < i
            invariant
                j <= i < layouts@.len(),
                declaration == layouts@[i as int].spec_declaration(),
                forall|k: int| 0 <= k < j ==> (#[trigger] layouts@[k]).spec_declaration() != declaration,
            decreases i - j,
        {
            if layouts[j].declaration().same(&declaration) {
                proof {
                    assert(layouts@[j as int].spec_declaration() == layouts@[i as int].spec_declaration());
                }
                return Err(ContractError::DuplicateDeclarationEvidence { declaration, evidence_kind: "layout" });
            }
            j = j + 1;
        }
        let fingerprints = check_fingerprints(
            "layout",
            layouts[i].source_fingerprint(),
            layouts[i].target_fingerprint(),
            source,
            target,
        );
        if fingerprints.is_err() {
            return fingerprints;
        }
        let probe = layouts[i].probe();
        if !find_probe(probes, probe) {
            return Err(ContractError::MissingProbeEvidence { probe });
        }
        proof {
            let t = layouts@.take(i + 1);
            assert forall|a: int, b: int| 0 <= a < b < t.len() implies (#[trigger] t[a]).spec_declaration()
                != (#[trigger] t[b]).spec_declaration() by {
                if b == i {
                    assert(t[a] == layouts@[a]);
                } else {
                    assert(t[a] == layouts@.take(i as int)[a] && t[b] == layouts@.take(i as int)[b]);
                }
            }
            assert forall|a: int| 0 <= a < t.len() implies (#[trigger] t[a]).spec_source_fingerprint() == source
                && t[a].spec_target_fingerprint() == target && has_probe(probes@, t[a].spec_probe()) by {
                if a < i {
                    assert(t[a] == layouts@.take(i as int)[a]);
                }
            }
        }
        i = i + 1;
    }
    proof {
        assert(layouts@.take(layouts@.len() as int) =~= layouts@);
    }
    Ok(())
}

/// A declaration's layout and callable assessments cite records of the package.
pub open spec fn probe_references_ok(e: DeclarationEvidence, layouts: Seq<LayoutEvidence>, probes: Seq<AbiProbeEvidence>) -> bool {
    &&& (e.spec_input().layout matches LayoutAssessment::Available { confidence, probe } ==> (layout_for(
        layouts,
        e.spec_input().declaration,
    ) matches Some(l) && l.spec_probe() == probe && l.spec_confidence() == confidence && has_probe(probes, probe)))
    &&& (e.spec_input().callable_abi matches CallableAbiAssessment::Confirmed { probe, .. } ==> has_probe(probes, probe))
}

/// The answers to assessments that cite layouts or probes the package lacks
/// or contradicts.
pub open spec fn probe_references_refusal(e: ContractError) -> bool {
    e is RequiredLayoutEvidence || e is IncoherentDeclarationEvidence || e is MissingProbeEvidence
}

/// The answers to declaration evidence that fails `declarations_ok`: a
/// declaration held twice, evidence bound to another source or target, a
/// refused symbol or provider reference, or a refused layout or probe citation.
pub open spec fn declarations_refusal(e: ContractError, source: SourceFingerprint, target: TargetFingerprint) -> bool {
    ||| e matches ContractError::DuplicateDeclarationEvidence { evidence_kind, .. } && evidence_kind@ == "declaration"@
    ||| fingerprint_refusal(e, source, target)
    ||| exists|d: DeclarationId, r: LinkedRefusal| #[trigger] refusal_is(e, d, r)
    ||| probe_references_refusal(e)
}

/// Checks that a declaration's layout and callable-ABI assessments cite a
/// matching layout record and probes of the package.
pub fn validate_declaration_probe_references(
    evidence: &DeclarationEvidence,
    layouts: &[LayoutEvidence],
    probes: &[AbiProbeEvidence],
) -> (res: Result<(), ContractError>)
    ensures
        res is Ok <==> probe_references_ok(*evidence, layouts@, probes@),
        res matches Err(e) ==> probe_references_refusal(e),
{
    let declaration = evidence.declaration();
    if let LayoutAssessment::Available { confidence, probe } = evidence.layout() {
        let layout = match find_layout(layouts, declaration) {
            Some(layout) => layout,
            None => {
                return Err(ContractError::RequiredLayoutEvidence { declaration });
            },
        };
        if !layout.probe().same(probe) || layout.confidence() != *confidence {
            return Err(
                ContractError::IncoherentDeclarationEvidence {
                    declaration,
                    reason: "layout assessment differs from the referenced layout record",
                },
            );
        }
        if !find_probe(probes, *probe) {
            return Err(ContractError::MissingProbeEvidence { probe: *probe });
        }
    }
    if let CallableAbiAssessment::Confirmed { probe, .. } = evidence.callable_abi() {
        if !find_probe(probes, *probe) {
            return Err(ContractError::MissingProbeEvidence { probe: *probe });
        }
    }
    Ok(())
}

/// One evidence record per declaration, each bound to the package's source
/// and target, naming providers, symbols, layouts and probes it holds.
pub open spec fn declarations_ok(
    decls: Seq<DeclarationEvidence>,
    source: SourceFingerprint,
    target: TargetFingerprint,
    invs: Seq<SymbolInventory>,
    layouts: Seq<LayoutEvidence>,
    probes: Seq<AbiProbeEvidence>,
) -> bool {
    &&& forall|i: int, j: int|
        0 <= i < j < decls.len() ==> (#[trigger] decls[i]).spec_input().declaration != (#[trigger] decls[j]).spec_input().declaration
    &&& forall|i: int| 0 <= i < decls.len() ==> (#[trigger] decls[i]).spec_input().source_fingerprint == source
    &&& forall|i: int| 0 <= i < decls.len() ==> (#[trigger] decls[i]).spec_input().target_fingerprint == target
    &&& forall|i: int| 0 <= i < decls.len() ==> references_refusal((#[trigger] decls[i]).spec_input(), invs) is None
    &&& forall|i: int| 0 <= i < decls.len() ==> probe_references_ok(#[trigger] decls[i], layouts, probes)
}

fn check_declarations(
    decls: &[DeclarationEvidence],
    source: SourceFingerprint,
    target: TargetFingerprint,
    invs: &[SymbolInventory],
    layouts: &[LayoutEvidence],
    probes: &[AbiProbeEvidence],
) -> (res: Result<(), ContractError>)
    ensures
        res is Ok <==> declarations_ok(decls@, source, target, invs@, layouts@, probes@),
        res matches Err(e) ==> declarations_refusal(e, source, target),
{
    let mut i: usize = 0;
    while i < decls.len()
        invariant
            i <= decls@.len(),
            declarations_ok(decls@.take(i as int), source, target, invs@, layouts@, probes@),
        decreases decls@.len() - i,
    {
        let declaration = decls[i].declaration();
        let mut j: usize = 0;
        while j < i
            invariant
                j <= i < decls@.len(),
                declaration == decls@[i as int].spec_input().declaration,
                forall|k: int| 0 <= k < j ==> (#[trigger] decls@[k]).spec_input().declaration != declaration,
            decreases i - j,
        {
            if decls[j].declaration().same(&declaration) {
                proof {
                    assert(decls@[j as int].spec_input().declaration == decls@[i as int].spec_input().declaration);
                }
                return Err(ContractError::DuplicateDeclarationEvidence { declaration, evidence_kind: "declaration" });
            }
            j = j + 1;
        }
        let fingerprints = check_fingerprints(
            "declaration",
            decls[i].source_fingerprint(),
            decls[i].target_fingerprint(),
            source,
            target,
        );
        if fingerprints.is_err() {
            return fingerprints;
        }
        let refs = validate_declaration_references(&decls[i], invs);
        if refs.is_err() {
            proof {
                let r = references_refusal(decls@[i as int].spec_input(), invs@)->Some_0;
                assert(refusal_is(refs->Err_0, decls@[i as int].spec_input().declaration, r));
            }
            return refs;
        }
        let cited = validate_declaration_probe_references(&decls[i], layouts, probes);
        if cited.is_err() {
            return cited;
        }
        proof {
            let t = decls@.take(i + 1);
            assert forall|a: int, b: int| 0 <= a < b < t.len() implies (#[trigger] t[a]).spec_input().declaration
                != (#[trigger] t[b]).spec_input().declaration by {
                if b == i {
                    assert(t[a] == decls@[a]);
                } else {
                    assert(t[a] == decls@.take(i as int)[a] && t[b] == decls@.take(i as int)[b]);
                }
            }
            assert forall|a: int| 0 <= a < t.len() implies (#[trigger] t[a]).spec_input().source_fingerprint == source
                && t[a].spec_input().target_fingerprint == target && references_refusal(t[a].spec_input(), invs@) is None
                && probe_references_ok(t[a], layouts@, probes@) by {
                if a < i {
                    assert(t[a] == decls@.take(i as int)[a]);
                }
            }
        }
        i = i + 1;
    }
    proof {
        assert(decls@.take(decls@.len() as int) =~= decls@);
    }
    Ok(())
}

// ---------------------------------------------------------------------------
// Plan atoms and diagnostics
// ---------------------------------------------------------------------------

/// The artifact an atom links, if any.
pub open spec fn atom_artifact(atom: LinkAtom) -> Option<ResolvedArtifact> {
    match atom {
        LinkAtom::Object(a) | LinkAtom::StaticLibrary(a) | LinkAtom::DynamicLibrary(a) | LinkAtom::ImportLibrary(a) => Some(a),
        LinkAtom::Framework { artifact, .. } => Some(artifact),
        _ => None,
    }
}

/// The answers to a plan that fails `atoms_ok`: a linked provider the
/// package lacks, or an artifact other than its inventory's.
pub open spec fn atoms_refusal(e: ContractError, atoms: Seq<LinkAtom>, invs: Seq<SymbolInventory>) -> bool {
    ||| e matches ContractError::MissingProvider { provider } && !has_provider(invs, provider)
    ||| e matches ContractError::PlanArtifactMismatch { provider } && has_provider(invs, provider)
}

/// Every artifact the plan links is the one its provider's inventory describes.
pub open spec fn atoms_ok(atoms: Seq<LinkAtom>, invs: Seq<SymbolInventory>) -> bool {
    forall|i: int|
        0 <= i < atoms.len() ==> (atom_artifact(#[trigger] atoms[i]) matches Some(a) ==> (lookup(invs, a.spec_provider_id())
            matches Some(inv) && artifact_same(inv.spec_artifact(), a)))
}

fn check_atoms(atoms: &[LinkAtom], invs: &[SymbolInventory]) -> (res: Result<(), ContractError>)
    ensures
        res is Ok <==> atoms_ok(atoms@, invs@),
        res matches Err(e) ==> atoms_refusal(e, atoms@, invs@),
{
    let mut i: usize = 0;
    while i < atoms.len()
        invariant
            i <= atoms@.len(),
            forall|k: int|
                0 <= k < i ==> (atom_artifact(#[trigger] atoms@[k]) matches Some(a) ==> (lookup(invs@, a.spec_provider_id())
                    matches Some(inv) && artifact_same(inv.spec_artifact(), a))),
        decreases atoms@.len() - i,
    {
        if let Some(artifact) = atoms[i].artifact() {
            let provider = artifact.provider_id();
            proof {
                lemma_lookup(invs@, provider);
            }
            let inventory = match find_inventory(invs, provider) {
                Some(inventory) => inventory,
                None => {
                    return Err(ContractError::MissingProvider { provider });
                },
            };
            if !inventory.artifact().same(artifact) {
                return Err(ContractError::PlanArtifactMismatch { provider });
            }
        }
        i = i + 1;
    }
    Ok(())
}

/// A diagnostic's evidence reference names a record of the package.
pub open spec fn evidence_ref_ok(d: LincDiagnostic, invs: Seq<SymbolInventory>, layouts: Seq<LayoutEvidence>) -> bool {
    match d.spec_context().spec_evidence() {
        Some(DiagnosticEvidenceRef::Symbol { provider, symbol }) => lookup(invs, provider) matches Some(inv) && symbol_with_id(
            inv.spec_symbols(),
            symbol,
        ) is Some,
        Some(DiagnosticEvidenceRef::Layout { declaration }) => layout_for(layouts, declaration) is Some,
        Some(DiagnosticEvidenceRef::Declaration { declaration }) => d.spec_declaration() == Some(declaration),
        None => true,
    }
}

/// A diagnostic is bound to the package's target and every identity in its
/// context names a record of the package.
pub open spec fn diagnostic_ok(
    d: LincDiagnostic,
    target: TargetFingerprint,
    inputs: Seq<NativeInput>,
    invs: Seq<SymbolInventory>,
    layouts: Seq<LayoutEvidence>,
    probes: Seq<AbiProbeEvidence>,
) -> bool {
    let c = d.spec_context();
    &&& c.spec_target_fingerprint() == target
    &&& (c.spec_native_input_index() matches Some(i) ==> i < inputs.len())
    &&& (d.spec_provider() matches Some(p) ==> has_provider(invs, p))
    &&& (c.spec_dependency_provider() matches Some(p) ==> has_provider(invs, p))
    &&& (c.spec_probe() matches Some(p) ==> has_probe(probes, p))
    &&& evidence_ref_ok(d, invs, layouts)
}

/// The answers to a diagnostic that fails `diagnostic_ok`: a context on
/// another target, a context the package cannot resolve, or a provider or
/// probe the package lacks.
pub open spec fn diagnostic_refusal(e: ContractError, target: TargetFingerprint) -> bool {
    ||| e matches ContractError::EvidenceTargetMismatch { expected, actual, .. } && expected == target && actual != target
    ||| e is InvalidDiagnosticContext
    ||| e is MissingProvider
    ||| e is MissingProbeEvidence
}

fn check_diagnostic(
    d: &LincDiagnostic,
    target: TargetFingerprint,
    inputs: &[NativeInput],
    invs: &[SymbolInventory],
    layouts: &[LayoutEvidence],
    probes: &[AbiProbeEvidence],
) -> (res: Result<(), ContractError>)
    ensures
        res is Ok <==> diagnostic_ok(*d, target, inputs@, invs@, layouts@, probes@),
        res matches Err(e) ==> diagnostic_refusal(e, target),
{
    let context = d.context();
    let actual = context.target_fingerprint();
    if !actual.same(&target) {
        return Err(ContractError::EvidenceTargetMismatch { evidence_kind: "diagnostic", expected: target, actual });
    }
    if let Some(index) = context.native_input_index() {
        if index as usize >= inputs.len() {
            return Err(ContractError::InvalidDiagnosticContext { reason: "native-input index is outside the package snapshot" });
        }
    }
    if let Some(provider) = d.provider() {
        proof {
            lemma_lookup(invs@, provider);
        }
        if find_inventory(invs, provider).is_none() {
            return Err(ContractError::MissingProvider { provider });
        }
    }
    if let Some(provider) = context.dependency_provider() {
        proof {
            lemma_lookup(invs@, provider);
        }
        if find_inventory(invs, provider).is_none() {
            return Err(ContractError::MissingProvider { provider });
        }
    }
    if let Some(probe) = context.probe() {
        if !find_probe(probes, probe) {
            return Err(ContractError::MissingProbeEvidence { probe });
        }
    }
    match context.evidence() {
        Some(DiagnosticEvidenceRef::Symbol { provider, symbol }) => {
            let inventory = match find_inventory(invs, *provider) {
                Some(inventory) => inventory,
                None => {
                    return Err(ContractError::MissingProvider { provider: *provider });
                },
            };
            let ordered = inventory.symbols();
            match inventory.symbol(*symbol) {
                Some(record) => {
                    proof {
                        assert(ordered@ == inventory.spec_symbols());
                        let i = choose|i: int|
                            0 <= i < inventory.spec_symbols().len() && inventory.spec_symbols()[i] == *record && super::inventory::id_key(
                                *record,
                            ) == symbol.key();
                        super::package::lemma_symbol_with_id(inventory.spec_symbols(), *symbol, i);
                    }
                },
                None => {
                    proof {
                        assert(!exists|i: int|
                            0 <= i < inventory.spec_symbols().len() && super::inventory::id_key(inventory.spec_symbols()[i])
                                == symbol.key());
                    }
                    return Err(
                        ContractError::InvalidDiagnosticContext {
                            reason: "symbol evidence identity is absent from its provider inventory",
                        },
                    );
                },
            }
        },
        Some(DiagnosticEvidenceRef::Layout { declaration }) => {
            if find_layout(layouts, *declaration).is_none() {
                return Err(ContractError::InvalidDiagnosticContext { reason: "layout evidence identity is absent from the package" });
            }
        },
        Some(DiagnosticEvidenceRef::Declaration { declaration }) => {
            let same = match d.declaration() {
                Some(own) => own.same(declaration),
                None => false,
            };
            if !same {
                return Err(
                    ContractError::InvalidDiagnosticContext {
                        reason: "declaration evidence identity differs from diagnostic declaration",
                    },
                );
            }
        },
        None => {},
    }
    Ok(())
}

fn check_diagnostics(
    diags: &[LincDiagnostic],
    target: TargetFingerprint,
    inputs: &[NativeInput],
    invs: &[SymbolInventory],
    layouts: &[LayoutEvidence],
    probes: &[AbiProbeEvidence],
) -> (res: Result<(), ContractError>)
    ensures
        res is Ok <==> forall|i: int| 0 <= i < diags@.len() ==> diagnostic_ok(#[trigger] diags@[i], target, inputs@, invs@, layouts@, probes@),
        res matches Err(e) ==> diagnostic_refusal(e, target),
{
    let mut i: usize = 0;
    while i < diags.len()
        invariant
            i <= diags@.len(),
            forall|k: int| 0 <= k < i ==> diagnostic_ok(#[trigger] diags@[k], target, inputs@, invs@, layouts@, probes@),
        decreases diags@.len() - i,
    {
        let checked = check_diagnostic(&diags[i], target, inputs, invs, layouts, probes);
        if checked.is_err() {
            return checked;
        }
        i = i + 1;
    }
    Ok(())
}

// ---------------------------------------------------------------------------
// The package
// ---------------------------------------------------------------------------

/// The native inputs are each well formed and their groups balance.
pub open spec fn native_inputs_ok(inputs: Seq<NativeInput>) -> bool {
    (forall|i: int| 0 <= i < inputs.len() ==> input_ok(#[trigger] inputs[i])) && groups_balanced(input_group_steps(inputs))
}

/// Everything a package holds agrees with everything else it holds.
pub open spec fn internal_valid(
    policy: AnalysisPolicyInput,
    source: SourceFingerprint,
    target: TargetFingerprint,
    inputs: Seq<NativeInput>,
    invs: Seq<SymbolInventory>,
    probes: Seq<AbiProbeEvidence>,
    layouts: Seq<LayoutEvidence>,
    decls: Seq<DeclarationEvidence>,
    atoms: Seq<LinkAtom>,
    diags: Seq<LincDiagnostic>,
) -> bool {
    &&& policy_error(policy.probe, policy.runner) is None
    &&& native_inputs_ok(inputs)
    &&& !(policy.resolution == ResolutionPolicy::ExactPathsOnly && exists|i: int|
        0 <= i < inputs.len() && is_search_input_spec(#[trigger] inputs[i]))
    &&& inventories_ok(invs, target)
    &&& probes_ok(probes, source, target)
    &&& forall|i: int| 0 <= i < invs.len() ==> inventory_checks_ok(#[trigger] invs[i], inputs, invs)
    &&& acyclic(index_graph(inv_providers(invs), inv_bindings(invs)))
    &&& layouts_ok(layouts, source, target, probes)
    &&& declarations_ok(decls, source, target, invs, layouts, probes)
    &&& atoms_ok(atoms, invs)
    &&& forall|i: int| 0 <= i < diags.len() ==> diagnostic_ok(#[trigger] diags[i], target, inputs, invs, layouts, probes)
}

/// Why an exact-path package cannot hold search paths or name requests.
pub const EXACT_PATH_REFUSAL: &'static str = "exact-path resolution cannot snapshot search paths or name requests";

/// An exact-path policy beside a search path or a name request.
pub open spec fn exact_path_conflict(policy: AnalysisPolicyInput, inputs: Seq<NativeInput>) -> bool {
    policy.resolution == ResolutionPolicy::ExactPathsOnly && exists|i: int|
        0 <= i < inputs.len() && is_search_input_spec(#[trigger] inputs[i])
}

/// What the internal checks answer, taken in order: the policy, the native
/// inputs, the exact-path conflict, the inventories, the probes, each
/// inventory's provenance, resolution and edges, the dependency graph, the
/// layouts, the declaration evidence, the plan and the diagnostics. The first
/// that fails gives the answer; a package that passes them all is accepted.
pub open spec fn internal_outcome(
    policy: AnalysisPolicyInput,
    source: SourceFingerprint,
    target: TargetFingerprint,
    inputs: Seq<NativeInput>,
    invs: Seq<SymbolInventory>,
    probes: Seq<AbiProbeEvidence>,
    layouts: Seq<LayoutEvidence>,
    decls: Seq<DeclarationEvidence>,
    atoms: Seq<LinkAtom>,
    diags: Seq<LincDiagnostic>,
    res: Result<(), ContractError>,
) -> bool {
    if policy_error(policy.probe, policy.runner) is Some {
        res == Err::<(), ContractError>(ContractError::InvalidPolicy { reason: policy_error(policy.probe, policy.runner)->Some_0 })
    } else if !native_inputs_ok(inputs) {
        res matches Err(e) && native_inputs_refusal(inputs, e)
    } else if exact_path_conflict(policy, inputs) {
        res == Err::<(), ContractError>(ContractError::InvalidPolicy { reason: EXACT_PATH_REFUSAL })
    } else if !inventories_ok(invs, target) {
        res matches Err(e) && inventories_refusal(e, invs, target)
    } else if !probes_ok(probes, source, target) {
        res matches Err(e) && probes_refusal(e, probes, source, target)
    } else if !(forall|i: int| 0 <= i < invs.len() ==> inventory_checks_ok(#[trigger] invs[i], inputs, invs)) {
        res matches Err(e) && inventory_links_refusal(e, inputs, invs)
    } else if !acyclic(index_graph(inv_providers(invs), inv_bindings(invs))) {
        res matches Err(ContractError::DependencyCycle { provider }) && has_provider(invs, provider)
    } else if !layouts_ok(layouts, source, target, probes) {
        res matches Err(e) && layouts_refusal(e, source, target)
    } else if !declarations_ok(decls, source, target, invs, layouts, probes) {
        res matches Err(e) && declarations_refusal(e, source, target)
    } else if !atoms_ok(atoms, invs) {
        res matches Err(e) && atoms_refusal(e, atoms, invs)
    } else if !(forall|i: int| 0 <= i < diags.len() ==> diagnostic_ok(#[trigger] diags[i], target, inputs, invs, layouts, probes)) {
        res matches Err(e) && diagnostic_refusal(e, target)
    } else {
        res is Ok
    }
}

/// Checks everything a package holds against everything else it holds: the
/// policy, the native inputs, the providers and their dependency graph, the
/// probes, layouts and declaration evidence, the plan and the diagnostics.
pub fn validate_internal(
    policy: &AnalysisPolicy,
    source: SourceFingerprint,
    target: TargetFingerprint,
    inputs: &[NativeInput],
    invs: &[SymbolInventory],
    probes: &[AbiProbeEvidence],
    layouts: &[LayoutEvidence],
    decls: &[DeclarationEvidence],
    plan: &ResolvedLinkPlan,
    diags: &[LincDiagnostic],
) -> (res: Result<(), ContractError>)
    ensures
        res is Ok <==> internal_valid(
            policy.spec_input(),
            source,
            target,
            inputs@,
            invs@,
            probes@,
            layouts@,
            decls@,
            plan@,
            diags@,
        ),
        internal_outcome(
            policy.spec_input(),
            source,
            target,
            inputs@,
            invs@,
            probes@,
            layouts@,
            decls@,
            plan@,
            diags@,
            res,
        ),
{
    let r = policy.validate();
    if r.is_err() {
        return r;
    }
    let r = validate_native_inputs(inputs);
    if r.is_err() {
        return r;
    }
    if policy.resolution() == ResolutionPolicy::ExactPathsOnly && any_search_input(inputs) {
        return Err(ContractError::InvalidPolicy { reason: EXACT_PATH_REFUSAL });
    }
    let r = check_inventories(invs, target);
    if r.is_err() {
        return r;
    }
    let r = check_probes(probes, source, target);
    if r.is_err() {
        return r;
    }
    let r = check_inventory_links(inputs, invs);
    if r.is_err() {
        return r;
    }
    let r = check_dependency_graph(invs);
    if r.is_err() {
        return r;
    }
    let r = check_layouts(layouts, source, target, probes);
    if r.is_err() {
        return r;
    }
    let r = check_declarations(decls, source, target, invs, layouts, probes);
    if r.is_err() {
        return r;
    }
    let r = check_atoms(plan.atoms(), invs);
    if r.is_err() {
        return r;
    }
    check_diagnostics(diags, target, inputs, invs, layouts, probes)
}

/// The collections of a package are in canonical order: inventories by
/// provider, probes by identity, layouts and declaration evidence by
/// declaration, diagnostics strictly by their order key.
pub open spec fn canonical_order(
    invs: Seq<SymbolInventory>,
    probes: Seq<AbiProbeEvidence>,
    layouts: Seq<LayoutEvidence>,
    decls: Seq<DeclarationEvidence>,
    diags: Seq<LincDiagnostic>,
) -> bool {
    &&& adjacent_sorted(invs)
    &&& adjacent_sorted(probes)
    &&& adjacent_sorted(layouts)
    &&& adjacent_sorted(decls)
    &&& adjacent_ascending(diags)
}

/// Checks the canonical order of a package's collections.
pub fn validate_canonical_order(
    invs: &[SymbolInventory],
    probes: &[AbiProbeEvidence],
    layouts: &[LayoutEvidence],
    decls: &[DeclarationEvidence],
    diags: &[LincDiagnostic],
) -> (res: Result<(), ContractError>)
    ensures
        res is Ok <==> canonical_order(invs@, probes@, layouts@, decls@, diags@),
        !adjacent_sorted(invs@) ==> res == Err::<(), ContractError>(ContractError::NonCanonicalOrder { collection: "inventories" }),
        adjacent_sorted(invs@) && !adjacent_sorted(probes@) ==> res == Err::<(), ContractError>(
            ContractError::NonCanonicalOrder { collection: "ABI probes" },
        ),
        adjacent_sorted(invs@) && adjacent_sorted(probes@) && !adjacent_sorted(layouts@) ==> res == Err::<(), ContractError>(
            ContractError::NonCanonicalOrder { collection: "layouts" },
        ),
        adjacent_sorted(invs@) && adjacent_sorted(probes@) && adjacent_sorted(layouts@) && !adjacent_sorted(decls@) ==> res
            == Err::<(), ContractError>(ContractError::NonCanonicalOrder { collection: "declaration evidence" }),
        adjacent_sorted(invs@) && adjacent_sorted(probes@) && adjacent_sorted(layouts@) && adjacent_sorted(decls@)
            && !adjacent_ascending(diags@) ==> res == Err::<(), ContractError>(
            ContractError::NonCanonicalOrder { collection: "diagnostics" },
        ),
{
    if !keys_in_order(invs, false) {
        return Err(ContractError::NonCanonicalOrder { collection: "inventories" });
    }
    if !keys_in_order(probes, false) {
        return Err(ContractError::NonCanonicalOrder { collection: "ABI probes" });
    }
    if !keys_in_order(layouts, false) {
        return Err(ContractError::NonCanonicalOrder { collection: "layouts" });
    }
    if !keys_in_order(decls, false) {
        return Err(ContractError::NonCanonicalOrder { collection: "declaration evidence" });
    }
    if !keys_in_order(diags, true) {
        return Err(ContractError::NonCanonicalOrder { collection: "diagnostics" });
    }
    Ok(())
}

/// The contents of a package before canonicalization and checking. Native
/// inputs keep their order and repetition.
#[derive(Debug, PartialEq, Eq)]
pub struct LinkAnalysisPackageInput {
    pub source_fingerprint: SourceFingerprint,
    pub target_fingerprint: TargetFingerprint,
    pub analysis_policy: AnalysisPolicy,
    pub native_inputs: Vec<NativeInput>,
    pub inventories: Vec<SymbolInventory>,
    pub abi_probes: Vec<AbiProbeEvidence>,
    pub layouts: Vec<LayoutEvidence>,
    pub declaration_evidence: Vec<DeclarationEvidence>,
    pub resolved_link_plan: ResolvedLinkPlan,
    pub diagnostics: Vec<LincDiagnostic>,
}

/// A stored package, as decoded: its schema and fingerprint with its contents.
#[derive(Debug, PartialEq, Eq)]
pub struct LinkAnalysisPackageParts {
    pub schema: SchemaHeader,
    pub fingerprint: LinkAnalysisFingerprint,
    pub source_fingerprint: SourceFingerprint,
    pub target_fingerprint: TargetFingerprint,
    pub analysis_policy: AnalysisPolicy,
    pub native_inputs: Vec<NativeInput>,
    pub inventories: Vec<SymbolInventory>,
    pub abi_probes: Vec<AbiProbeEvidence>,
    pub layouts: Vec<LayoutEvidence>,
    pub declaration_evidence: Vec<DeclarationEvidence>,
    pub resolved_link_plan: ResolvedLinkPlan,
    pub diagnostics: Vec<LincDiagnostic>,
}

/// An immutable native-evidence package: internally coherent and in
/// canonical order.
#[derive(Debug, PartialEq, Eq)]
pub struct LinkAnalysisPackage {
    schema: SchemaHeader,
    fingerprint: LinkAnalysisFingerprint,
    source_fingerprint: SourceFingerprint,
    target_fingerprint: TargetFingerprint,
    analysis_policy: AnalysisPolicy,
    native_inputs: Vec<NativeInput>,
    inventories: Vec<SymbolInventory>,
    abi_probes: Vec<AbiProbeEvidence>,
    layouts: Vec<LayoutEvidence>,
    declaration_evidence: Vec<DeclarationEvidence>,
    resolved_link_plan: ResolvedLinkPlan,
    diagnostics: Vec<LincDiagnostic>,
}

/// Sorts the keyed collections and refuses exact duplicate diagnostics.
pub fn canonicalize_collections(
    inventories: Vec<SymbolInventory>,
    abi_probes: Vec<AbiProbeEvidence>,
    layouts: Vec<LayoutEvidence>,
    declaration_evidence: Vec<DeclarationEvidence>,
    diagnostics: Vec<LincDiagnostic>,
) -> (res: Result<
    (Vec<SymbolInventory>, Vec<AbiProbeEvidence>, Vec<LayoutEvidence>, Vec<DeclarationEvidence>, Vec<LincDiagnostic>),
    ContractError,
>)
    ensures
        (exists|i: int, j: int|
            0 <= i < j < diagnostics@.len() && (#[trigger] diagnostics@[i]).key_view() == (#[trigger] diagnostics@[j]).key_view())
            <==> res is Err,
        res is Err ==> res == Err::<
            (Vec<SymbolInventory>, Vec<AbiProbeEvidence>, Vec<LayoutEvidence>, Vec<DeclarationEvidence>, Vec<LincDiagnostic>),
            ContractError,
        >(ContractError::DuplicateDiagnostic),
        res matches Ok((i, p, l, d, g)) ==> {
            &&& keys_sorted(i@) && i@.to_multiset() == inventories@.to_multiset()
            &&& keys_sorted(p@) && p@.to_multiset() == abi_probes@.to_multiset()
            &&& keys_sorted(l@) && l@.to_multiset() == layouts@.to_multiset()
            &&& keys_sorted(d@) && d@.to_multiset() == declaration_evidence@.to_multiset()
            &&& keys_ascending(g@) && g@.to_multiset() == diagnostics@.to_multiset()
        },
{
    let inventories = sort_by_key(inventories);
    let abi_probes = sort_by_key(abi_probes);
    let layouts = sort_by_key(layouts);
    let declaration_evidence = sort_by_key(declaration_evidence);
    let ghost original = diagnostics@;
    let diagnostics = sort_by_key(diagnostics);
    if !keys_in_order(diagnostics.as_slice(), true) {
        proof {
            let s = diagnostics@;
            let k = choose|k: int| 0 <= k < s.len() - 1 && !(lex_sign((#[trigger] s[k]).key_view(), s[k + 1].key_view()) < 0);
            lemma_lex_sign_equal(s[k].key_view(), s[k + 1].key_view());
            assert(lex_sign(s[k].key_view(), s[k + 1].key_view()) <= 0);
            lemma_lex_sign_range(s[k].key_view(), s[k + 1].key_view());
            lemma_same_key_twice(original, s, k);
        }
        return Err(ContractError::DuplicateDiagnostic);
    }
    proof {
        lemma_adjacent_ascending(diagnostics@);
        lemma_distinct_keys(original, diagnostics@);
    }
    Ok((inventories, abi_probes, layouts, declaration_evidence, diagnostics))
}

/// Two neighbours of a permutation with equal keys come from two positions
/// of the original with equal keys.
proof fn lemma_same_key_twice(a: Seq<LincDiagnostic>, s: Seq<LincDiagnostic>, k: int)
    requires
        s.to_multiset() == a.to_multiset(),
        0 <= k < s.len() - 1,
        s[k].key_view() == s[k + 1].key_view(),
    ensures
        exists|i: int, j: int| 0 <= i < j < a.len() && (#[trigger] a[i]).key_view() == (#[trigger] a[j]).key_view(),
{
    let x = s[k];
    let y = s[k + 1];
    vstd::seq_lib::to_multiset_contains(s, x);
    vstd::seq_lib::to_multiset_contains(a, x);
    vstd::seq_lib::to_multiset_contains(s, y);
    vstd::seq_lib::to_multiset_contains(a, y);
    assert(s.contains(x));
    assert(s.contains(y));
    let ix = choose|i: int| 0 <= i < a.len() && a[i] == x;
    if x != y {
        let iy = choose|i: int| 0 <= i < a.len() && a[i] == y;
        assert(ix != iy);
        if ix < iy {
            assert(a[ix].key_view() == a[iy].key_view());
        } else {
            assert(a[iy].key_view() == a[ix].key_view());
        }
    } else {
        // x occurs twice in s, so twice in a.
        let s2 = s.remove(k);
        vstd::seq_lib::to_multiset_remove(s, k);
        assert(s2[k] == y);
        vstd::seq_lib::to_multiset_contains(s2, x);
        assert(s2.contains(x));
        assert(s.to_multiset().count(x) >= 2) by {
            assert(s2.to_multiset().count(x) > 0);
            assert(s2.to_multiset() == s.to_multiset().remove(x));
        }
        let a2 = a.remove(ix);
        vstd::seq_lib::to_multiset_remove(a, ix);
        assert(a2.to_multiset().count(x) > 0);
        vstd::seq_lib::to_multiset_contains(a2, x);
        let jx = choose|j: int| 0 <= j < a2.len() && a2[j] == x;
        let jj = if jx < ix { jx } else { jx + 1 };
        assert(a[jj] == x);
        assert(jj != ix);
        if ix < jj {
            assert(a[ix].key_view() == a[jj].key_view());
        } else {
            assert(a[jj].key_view() == a[ix].key_view());
        }
    }
}

/// Keys that all differ in a permutation differ in the original.
proof fn lemma_distinct_keys(a: Seq<LincDiagnostic>, s: Seq<LincDiagnostic>)
    requires
        s.to_multiset() == a.to_multiset(),
        keys_ascending(s),
    ensures
        !exists|i: int, j: int| 0 <= i < j < a.len() && (#[trigger] a[i]).key_view() == (#[trigger] a[j]).key_view(),
{
    if exists|i: int, j: int| 0 <= i < j < a.len() && (#[trigger] a[i]).key_view() == (#[trigger] a[j]).key_view() {
        let (i, j) = choose|i: int, j: int| 0 <= i < j < a.len() && (#[trigger] a[i]).key_view() == (#[trigger] a[j]).key_view();
        let x = a[i];
        let y = a[j];
        vstd::seq_lib::to_multiset_contains(a, x);
        vstd::seq_lib::to_multiset_contains(s, x);
        vstd::seq_lib::to_multiset_contains(a, y);
        vstd::seq_lib::to_multiset_contains(s, y);
        assert(a.contains(x) && a.contains(y));
        let p = choose|p: int| 0 <= p < s.len() && s[p] == x;
        if x != y {
            let q = choose|q: int| 0 <= q < s.len() && s[q] == y;
            assert(p != q);
            if p < q {
                lemma_lex_sign_equal(s[p].key_view(), s[q].key_view());
            } else {
                lemma_lex_sign_equal(s[q].key_view(), s[p].key_view());
            }
        } else {
            let a2 = a.remove(i);
            vstd::seq_lib::to_multiset_remove(a, i);
            assert(a2[j - 1] == x);
            vstd::seq_lib::to_multiset_contains(a2, x);
            assert(a2.contains(x));
            let s2 = s.remove(p);
            vstd::seq_lib::to_multiset_remove(s, p);
            assert(s2.to_multiset() == a2.to_multiset());
            vstd::seq_lib::to_multiset_contains(s2, x);
            let q2 = choose|q: int| 0 <= q < s2.len() && s2[q] == x;
            let q = if q2 < p { q2 } else { q2 + 1 };
            assert(s[q] == x && q != p);
            if p < q {
                lemma_lex_sign_equal(s[p].key_view(), s[q].key_view());
            } else {
                lemma_lex_sign_equal(s[q].key_view(), s[p].key_view());
            }
        }
    }
}

/// `i`, `p`, `l`, `d` and `g` hold the items of `input`'s collections in
/// canonical key order.
pub open spec fn arrangement_sorted(
    input: LinkAnalysisPackageInput,
    i: Seq<SymbolInventory>,
    p: Seq<AbiProbeEvidence>,
    l: Seq<LayoutEvidence>,
    d: Seq<DeclarationEvidence>,
    g: Seq<LincDiagnostic>,
) -> bool {
    &&& keys_sorted(i) && i.to_multiset() == input.inventories@.to_multiset()
    &&& keys_sorted(p) && p.to_multiset() == input.abi_probes@.to_multiset()
    &&& keys_sorted(l) && l.to_multiset() == input.layouts@.to_multiset()
    &&& keys_sorted(d) && d.to_multiset() == input.declaration_evidence@.to_multiset()
    &&& keys_ascending(g) && g.to_multiset() == input.diagnostics@.to_multiset()
}

/// What the internal checks answer for `input` with its collections
/// arranged as `i`, `p`, `l`, `d` and `g`.
pub open spec fn arrangement_outcome(
    input: LinkAnalysisPackageInput,
    i: Seq<SymbolInventory>,
    p: Seq<AbiProbeEvidence>,
    l: Seq<LayoutEvidence>,
    d: Seq<DeclarationEvidence>,
    g: Seq<LincDiagnostic>,
    res: Result<(), ContractError>,
) -> bool {
    internal_outcome(
        input.analysis_policy.spec_input(),
        input.source_fingerprint,
        input.target_fingerprint,
        input.native_inputs@,
        i,
        p,
        l,
        d,
        input.resolved_link_plan@,
        g,
        res,
    )
}

/// `i`, `p`, `l`, `d` and `g` hold the items of `input`'s collections in
/// canonical key order, and with them the package is internally valid.
pub open spec fn arrangement_valid(
    input: LinkAnalysisPackageInput,
    i: Seq<SymbolInventory>,
    p: Seq<AbiProbeEvidence>,
    l: Seq<LayoutEvidence>,
    d: Seq<DeclarationEvidence>,
    g: Seq<LincDiagnostic>,
) -> bool {
    &&& arrangement_sorted(input, i, p, l, d, g)
    &&& internal_valid(
        input.analysis_policy.spec_input(),
        input.source_fingerprint,
        input.target_fingerprint,
        input.native_inputs@,
        i,
        p,
        l,
        d,
        input.resolved_link_plan@,
        g,
    )
}

/// The canonical payload of a package with these contents: every part but
/// the fingerprint, in declaration order. A package's fingerprint is the
/// digest of it.
pub open spec fn package_payload(
    schema: SchemaHeader,
    source: SourceFingerprint,
    target: TargetFingerprint,
    policy: AnalysisPolicy,
    native_inputs: Seq<NativeInput>,
    inventories: Seq<SymbolInventory>,
    probes: Seq<AbiProbeEvidence>,
    layouts: Seq<LayoutEvidence>,
    decls: Seq<DeclarationEvidence>,
    atoms: Seq<LinkAtom>,
    diagnostics: Seq<LincDiagnostic>,
) -> Seq<u8> {
    schema.canonical() + source.canonical() + target.canonical() + policy.canonical() + seq_canonical(native_inputs)
        + seq_canonical(inventories) + seq_canonical(probes) + seq_canonical(layouts) + seq_canonical(decls)
        + seq_canonical(atoms) + seq_canonical(diagnostics)
}

/// Encodes the canonical payload of a package with these contents.
fn write_payload(
    schema: &SchemaHeader,
    source: &SourceFingerprint,
    target: &TargetFingerprint,
    policy: &AnalysisPolicy,
    native_inputs: &[NativeInput],
    inventories: &[SymbolInventory],
    probes: &[AbiProbeEvidence],
    layouts: &[LayoutEvidence],
    decls: &[DeclarationEvidence],
    atoms: &[LinkAtom],
    diagnostics: &[LincDiagnostic],
) -> (out: Vec<u8>)
    ensures
        out@ == package_payload(
            *schema,
            *source,
            *target,
            *policy,
            native_inputs@,
            inventories@,
            probes@,
            layouts@,
            decls@,
            atoms@,
            diagnostics@,
        ),
{
    let mut out: Vec<u8> = Vec::new();
    let ghost start = out@;
    schema.write_canonical(&mut out);
    source.write_canonical(&mut out);
    proof { lemma_extend(start, schema.canonical(), source.canonical()); }
    let ghost acc = schema.canonical() + source.canonical();
    target.write_canonical(&mut out);
    proof { lemma_extend(start, acc, target.canonical()); }
    let ghost acc = acc + target.canonical();
    policy.write_canonical(&mut out);
    proof { lemma_extend(start, acc, policy.canonical()); }
    let ghost acc = acc + policy.canonical();
    write_items(native_inputs, &mut out);
    proof { lemma_extend(start, acc, seq_canonical(native_inputs@)); }
    let ghost acc = acc + seq_canonical(native_inputs@);
    write_items(inventories, &mut out);
    proof { lemma_extend(start, acc, seq_canonical(inventories@)); }
    let ghost acc = acc + seq_canonical(inventories@);
    write_items(probes, &mut out);
    proof { lemma_extend(start, acc, seq_canonical(probes@)); }
    let ghost acc = acc + seq_canonical(probes@);
    write_items(layouts, &mut out);
    proof { lemma_extend(start, acc, seq_canonical(layouts@)); }
    let ghost acc = acc + seq_canonical(layouts@);
    write_items(decls, &mut out);
    proof { lemma_extend(start, acc, seq_canonical(decls@)); }
    let ghost acc = acc + seq_canonical(decls@);
    write_items(atoms, &mut out);
    proof { lemma_extend(start, acc, seq_canonical(atoms@)); }
    let ghost acc = acc + seq_canonical(atoms@);
    write_items(diagnostics, &mut out);
    proof {
        lemma_extend(start, acc, seq_canonical(diagnostics@));
        assert(start =~= Seq::<u8>::empty());
        assert(out@ =~= acc + seq_canonical(diagnostics@));
    }
    out
}

/// `p` is the package built from `input`: its collections are the valid
/// canonical arrangement of `input`'s, its other parts are `input`'s, its
/// schema is the current one and its fingerprint is the digest of its
/// canonical payload.
pub open spec fn built_from(p: LinkAnalysisPackage, input: LinkAnalysisPackageInput) -> bool {
    &&& arrangement_valid(
        input,
        p.spec_inventories(),
        p.spec_probes(),
        p.spec_layouts(),
        p.spec_declarations(),
        p.spec_diagnostics(),
    )
    &&& p.spec_source_fingerprint() == input.source_fingerprint
    &&& p.spec_target_fingerprint() == input.target_fingerprint
    &&& p.spec_policy() == input.analysis_policy
    &&& p.spec_native_inputs() == input.native_inputs@
    &&& p.spec_atoms() == input.resolved_link_plan@
    &&& p.spec_schema().id@ == LINK_ANALYSIS_SCHEMA_ID@
    &&& p.spec_schema().version == LINK_ANALYSIS_SCHEMA_VERSION
    &&& p.spec_fingerprint()@ == digest_spec(
        encode_utf8(LINK_ANALYSIS_FINGERPRINT_DOMAIN@),
        seq![p.canonical_payload()],
    )
}

/// The unordered collections of a package are canonicalized, and nothing
/// else is: two inputs that differ only in the order of their inventories,
/// probes, layouts, declaration evidence and diagnostics are both accepted
/// or both refused, and when accepted they give the same package with the
/// same fingerprint.
pub proof fn lemma_collection_order_ignored(
    a: LinkAnalysisPackageInput,
    b: LinkAnalysisPackageInput,
    p: LinkAnalysisPackage,
    q: LinkAnalysisPackage,
)
    requires
        built_from(p, a),
        built_from(q, b),
        b.source_fingerprint == a.source_fingerprint,
        b.target_fingerprint == a.target_fingerprint,
        b.analysis_policy == a.analysis_policy,
        b.native_inputs@ == a.native_inputs@,
        b.resolved_link_plan@ == a.resolved_link_plan@,
        b.inventories@.to_multiset() == a.inventories@.to_multiset(),
        b.abi_probes@.to_multiset() == a.abi_probes@.to_multiset(),
        b.layouts@.to_multiset() == a.layouts@.to_multiset(),
        b.declaration_evidence@.to_multiset() == a.declaration_evidence@.to_multiset(),
        b.diagnostics@.to_multiset() == a.diagnostics@.to_multiset(),
    ensures
        p.spec_inventories() == q.spec_inventories(),
        p.spec_probes() == q.spec_probes(),
        p.spec_layouts() == q.spec_layouts(),
        p.spec_declarations() == q.spec_declarations(),
        p.spec_diagnostics() == q.spec_diagnostics(),
        p.canonical_payload() == q.canonical_payload(),
        p.spec_fingerprint()@ == q.spec_fingerprint()@,
{
    lemma_valid_arrangement_unique(
        a,
        p.spec_inventories(),
        p.spec_probes(),
        p.spec_layouts(),
        p.spec_declarations(),
        p.spec_diagnostics(),
        q.spec_inventories(),
        q.spec_probes(),
        q.spec_layouts(),
        q.spec_declarations(),
        q.spec_diagnostics(),
    );
    p.lemma_payload_parts();
    q.lemma_payload_parts();
}

/// Any input whose collections are a reordering of an accepted input's is
/// accepted too.
pub proof fn lemma_reordered_input_accepted(a: LinkAnalysisPackageInput, b: LinkAnalysisPackageInput, p: LinkAnalysisPackage)
    requires
        built_from(p, a),
        b.source_fingerprint == a.source_fingerprint,
        b.target_fingerprint == a.target_fingerprint,
        b.analysis_policy == a.analysis_policy,
        b.native_inputs@ == a.native_inputs@,
        b.resolved_link_plan@ == a.resolved_link_plan@,
        b.inventories@.to_multiset() == a.inventories@.to_multiset(),
        b.abi_probes@.to_multiset() == a.abi_probes@.to_multiset(),
        b.layouts@.to_multiset() == a.layouts@.to_multiset(),
        b.declaration_evidence@.to_multiset() == a.declaration_evidence@.to_multiset(),
        b.diagnostics@.to_multiset() == a.diagnostics@.to_multiset(),
    ensures
        canonical_arrangement_valid(b),
{
    assert(arrangement_valid(
        b,
        p.spec_inventories(),
        p.spec_probes(),
        p.spec_layouts(),
        p.spec_declarations(),
        p.spec_diagnostics(),
    ));
}

/// Some canonical arrangement of `input`'s collections is internally valid.
pub open spec fn canonical_arrangement_valid(input: LinkAnalysisPackageInput) -> bool {
    exists|
        i: Seq<SymbolInventory>,
        p: Seq<AbiProbeEvidence>,
        l: Seq<LayoutEvidence>,
        d: Seq<DeclarationEvidence>,
        g: Seq<LincDiagnostic>,
    | #[trigger] arrangement_valid(input, i, p, l, d, g)
}

/// A valid canonical arrangement is the only canonical arrangement: the
/// checks refuse repeated identities, so the key order leaves no choice.
proof fn lemma_valid_arrangement_unique(
    input: LinkAnalysisPackageInput,
    i: Seq<SymbolInventory>,
    p: Seq<AbiProbeEvidence>,
    l: Seq<LayoutEvidence>,
    d: Seq<DeclarationEvidence>,
    g: Seq<LincDiagnostic>,
    i2: Seq<SymbolInventory>,
    p2: Seq<AbiProbeEvidence>,
    l2: Seq<LayoutEvidence>,
    d2: Seq<DeclarationEvidence>,
    g2: Seq<LincDiagnostic>,
)
    requires
        arrangement_valid(input, i, p, l, d, g),
        keys_sorted(i2) && i2.to_multiset() == input.inventories@.to_multiset(),
        keys_sorted(p2) && p2.to_multiset() == input.abi_probes@.to_multiset(),
        keys_sorted(l2) && l2.to_multiset() == input.layouts@.to_multiset(),
        keys_sorted(d2) && d2.to_multiset() == input.declaration_evidence@.to_multiset(),
        keys_ascending(g2) && g2.to_multiset() == input.diagnostics@.to_multiset(),
    ensures
        i == i2 && p == p2 && l == l2 && d == d2 && g == g2,
{
    assert forall|a: int, b: int| 0 <= a < b < i.len() implies (#[trigger] i[a]).key_view() != (#[trigger] i[b]).key_view() by {
        if i[a].key_view() == i[b].key_view() {
            ProviderId::lemma_view_injective(inv_provider(i[a]), inv_provider(i[b]));
        }
    }
    lemma_distinct_keys_ascend(i);
    lemma_sorted_unique(i, i2);
    assert forall|a: int, b: int| 0 <= a < b < p.len() implies (#[trigger] p[a]).key_view() != (#[trigger] p[b]).key_view() by {
        if p[a].key_view() == p[b].key_view() {
            ProbeEvidenceId::lemma_view_injective(p[a].spec_id(), p[b].spec_id());
        }
    }
    lemma_distinct_keys_ascend(p);
    lemma_sorted_unique(p, p2);
    assert forall|a: int, b: int| 0 <= a < b < l.len() implies (#[trigger] l[a]).key_view() != (#[trigger] l[b]).key_view() by {
        if l[a].key_view() == l[b].key_view() {
            DeclarationId::lemma_view_injective(l[a].spec_declaration(), l[b].spec_declaration());
        }
    }
    lemma_distinct_keys_ascend(l);
    lemma_sorted_unique(l, l2);
    assert forall|a: int, b: int| 0 <= a < b < d.len() implies (#[trigger] d[a]).key_view() != (#[trigger] d[b]).key_view() by {
        if d[a].key_view() == d[b].key_view() {
            DeclarationId::lemma_view_injective(d[a].spec_input().declaration, d[b].spec_input().declaration);
        }
    }
    lemma_distinct_keys_ascend(d);
    lemma_sorted_unique(d, d2);
    lemma_ascending_sorted(g2);
    lemma_sorted_unique(g, g2);
}

impl LinkAnalysisPackage {
    #[verifier::type_invariant]
    closed spec fn inv(self) -> bool {
        &&& internal_valid(
            self.analysis_policy.spec_input(),
            self.source_fingerprint,
            self.target_fingerprint,
            self.native_inputs@,
            self.inventories@,
            self.abi_probes@,
            self.layouts@,
            self.declaration_evidence@,
            self.resolved_link_plan@,
            self.diagnostics@,
        )
        &&& canonical_order(self.inventories@, self.abi_probes@, self.layouts@, self.declaration_evidence@, self.diagnostics@)
    }

    pub closed spec fn spec_fingerprint(&self) -> LinkAnalysisFingerprint {
        self.fingerprint
    }

    /// The canonical payload the fingerprint is the digest of.
    pub closed spec fn canonical_payload(&self) -> Seq<u8> {
        package_payload(
            self.schema,
            self.source_fingerprint,
            self.target_fingerprint,
            self.analysis_policy,
            self.native_inputs@,
            self.inventories@,
            self.abi_probes@,
            self.layouts@,
            self.declaration_evidence@,
            self.resolved_link_plan@,
            self.diagnostics@,
        )
    }

    /// The payload is made of the package's parts, each taken as it is seen.
    pub proof fn lemma_payload_parts(&self)
        ensures
            self.canonical_payload() == package_payload(
                self.spec_schema(),
                self.spec_source_fingerprint(),
                self.spec_target_fingerprint(),
                self.spec_policy(),
                self.spec_native_inputs(),
                self.spec_inventories(),
                self.spec_probes(),
                self.spec_layouts(),
                self.spec_declarations(),
                self.spec_atoms(),
                self.spec_diagnostics(),
            ),
    {
    }

    /// The canonical payload bytes.
    pub fn canonical_payload_bytes(&self) -> (out: Vec<u8>)
        ensures
            out@ == self.canonical_payload(),
    {
        write_payload(
            &self.schema,
            &self.source_fingerprint,
            &self.target_fingerprint,
            &self.analysis_policy,
            self.native_inputs.as_slice(),
            self.inventories.as_slice(),
            self.abi_probes.as_slice(),
            self.layouts.as_slice(),
            self.declaration_evidence.as_slice(),
            self.resolved_link_plan.atoms(),
            self.diagnostics.as_slice(),
        )
    }

    pub closed spec fn spec_schema(&self) -> SchemaHeader {
        self.schema
    }

    pub closed spec fn spec_source_fingerprint(&self) -> SourceFingerprint {
        self.source_fingerprint
    }

    pub closed spec fn spec_target_fingerprint(&self) -> TargetFingerprint {
        self.target_fingerprint
    }

    pub closed spec fn spec_policy(&self) -> AnalysisPolicy {
        self.analysis_policy
    }

    pub closed spec fn spec_native_inputs(&self) -> Seq<NativeInput> {
        self.native_inputs@
    }

    pub closed spec fn spec_inventories(&self) -> Seq<SymbolInventory> {
        self.inventories@
    }

    pub closed spec fn spec_probes(&self) -> Seq<AbiProbeEvidence> {
        self.abi_probes@
    }

    pub closed spec fn spec_layouts(&self) -> Seq<LayoutEvidence> {
        self.layouts@
    }

    pub closed spec fn spec_declarations(&self) -> Seq<DeclarationEvidence> {
        self.declaration_evidence@
    }

    pub closed spec fn spec_atoms(&self) -> Seq<LinkAtom> {
        self.resolved_link_plan@
    }

    pub closed spec fn spec_diagnostics(&self) -> Seq<LincDiagnostic> {
        self.diagnostics@
    }

    /// The package is internally coherent and canonical.
    pub open spec fn spec_valid(&self) -> bool {
        &&& internal_valid(
            self.spec_policy().spec_input(),
            self.spec_source_fingerprint(),
            self.spec_target_fingerprint(),
            self.spec_native_inputs(),
            self.spec_inventories(),
            self.spec_probes(),
            self.spec_layouts(),
            self.spec_declarations(),
            self.spec_atoms(),
            self.spec_diagnostics(),
        )
        &&& canonical_order(
            self.spec_inventories(),
            self.spec_probes(),
            self.spec_layouts(),
            self.spec_declarations(),
            self.spec_diagnostics(),
        )
    }

    /// Canonicalizes the collections, then checks the whole package: it
    /// succeeds exactly when the collections, in canonical key order, pass
    /// every check. The fingerprint is the digest of the canonical payload.
    pub fn try_new(input: LinkAnalysisPackageInput) -> (res: Result<Self, ContractError>)
        ensures
            res matches Ok(p) ==> p.spec_valid() && p.spec_source_fingerprint() == input.source_fingerprint
                && p.spec_target_fingerprint() == input.target_fingerprint && p.spec_policy() == input.analysis_policy
                && p.spec_native_inputs() == input.native_inputs@ && p.spec_atoms() == input.resolved_link_plan@
                && p.spec_inventories().to_multiset() == input.inventories@.to_multiset()
                && p.spec_probes().to_multiset() == input.abi_probes@.to_multiset()
                && p.spec_layouts().to_multiset() == input.layouts@.to_multiset()
                && p.spec_declarations().to_multiset() == input.declaration_evidence@.to_multiset()
                && p.spec_diagnostics().to_multiset() == input.diagnostics@.to_multiset(),
            (exists|i: int, j: int|
                0 <= i < j < input.diagnostics@.len() && (#[trigger] input.diagnostics@[i]).key_view()
                    == (#[trigger] input.diagnostics@[j]).key_view()) ==> res == Err::<Self, ContractError>(
                ContractError::DuplicateDiagnostic,
            ),
            res is Ok <==> canonical_arrangement_valid(input),
            res matches Ok(p) ==> built_from(p, input),
            !(exists|i: int, j: int|
                0 <= i < j < input.diagnostics@.len() && (#[trigger] input.diagnostics@[i]).key_view()
                    == (#[trigger] input.diagnostics@[j]).key_view()) ==> (res matches Err(e) ==> exists|
                i: Seq<SymbolInventory>,
                p: Seq<AbiProbeEvidence>,
                l: Seq<LayoutEvidence>,
                d: Seq<DeclarationEvidence>,
                g: Seq<LincDiagnostic>,
            |
                #[trigger] arrangement_sorted(input, i, p, l, d, g) && arrangement_outcome(
                    input,
                    i,
                    p,
                    l,
                    d,
                    g,
                    Err::<(), ContractError>(e),
                )),
    {
        let ghost whole = input;
        let LinkAnalysisPackageInput {
            source_fingerprint,
            target_fingerprint,
            analysis_policy,
            native_inputs,
            inventories,
            abi_probes,
            layouts,
            declaration_evidence,
            resolved_link_plan,
            diagnostics,
        } = input;
        let (inventories, abi_probes, layouts, declaration_evidence, diagnostics) = match canonicalize_collections(
            inventories,
            abi_probes,
            layouts,
            declaration_evidence,
            diagnostics,
        ) {
            Ok(sorted) => sorted,
            Err(e) => {
                proof {
                    if canonical_arrangement_valid(whole) {
                        let (i, p, l, d, g) = choose|
                            i: Seq<SymbolInventory>,
                            p: Seq<AbiProbeEvidence>,
                            l: Seq<LayoutEvidence>,
                            d: Seq<DeclarationEvidence>,
                            g: Seq<LincDiagnostic>,
                        | #[trigger] arrangement_valid(whole, i, p, l, d, g);
                        lemma_distinct_keys(whole.diagnostics@, g);
                    }
                }
                return Err(e);
            },
        };
        let checked = validate_internal(
            &analysis_policy,
            source_fingerprint,
            target_fingerprint,
            native_inputs.as_slice(),
            inventories.as_slice(),
            abi_probes.as_slice(),
            layouts.as_slice(),
            declaration_evidence.as_slice(),
            &resolved_link_plan,
            diagnostics.as_slice(),
        );
        if let Err(e) = checked {
            proof {
                assert(arrangement_sorted(whole, inventories@, abi_probes@, layouts@, declaration_evidence@, diagnostics@));
                assert(arrangement_outcome(
                    whole,
                    inventories@,
                    abi_probes@,
                    layouts@,
                    declaration_evidence@,
                    diagnostics@,
                    Err::<(), ContractError>(e),
                ));
                if canonical_arrangement_valid(whole) {
                    let (i, p, l, d, g) = choose|
                        i: Seq<SymbolInventory>,
                        p: Seq<AbiProbeEvidence>,
                        l: Seq<LayoutEvidence>,
                        d: Seq<DeclarationEvidence>,
                        g: Seq<LincDiagnostic>,
                    | #[trigger] arrangement_valid(whole, i, p, l, d, g);
                    lemma_valid_arrangement_unique(
                        whole,
                        i,
                        p,
                        l,
                        d,
                        g,
                        inventories@,
                        abi_probes@,
                        layouts@,
                        declaration_evidence@,
                        diagnostics@,
                    );
                }
            }
            return Err(e);
        }
        proof {
            assert(arrangement_valid(whole, inventories@, abi_probes@, layouts@, declaration_evidence@, diagnostics@));
        }
        proof {
            lemma_sorted_adjacent(inventories@);
            lemma_sorted_adjacent(abi_probes@);
            lemma_sorted_adjacent(layouts@);
            lemma_sorted_adjacent(declaration_evidence@);
        }
        let schema = link_analysis_schema_v2();
        let payload = write_payload(
            &schema,
            &source_fingerprint,
            &target_fingerprint,
            &analysis_policy,
            native_inputs.as_slice(),
            inventories.as_slice(),
            abi_probes.as_slice(),
            layouts.as_slice(),
            declaration_evidence.as_slice(),
            resolved_link_plan.atoms(),
            diagnostics.as_slice(),
        );
        let fingerprint = LinkAnalysisFingerprint::derive(payload.as_slice());
        Ok(
            LinkAnalysisPackage {
                schema,
                fingerprint,
                source_fingerprint,
                target_fingerprint,
                analysis_policy,
                native_inputs,
                inventories,
                abi_probes,
                layouts,
                declaration_evidence,
                resolved_link_plan,
                diagnostics,
            },
        )
    }

    /// Accepts stored parts that are in canonical order and internally
    /// coherent, keeping their schema and fingerprint.
    pub fn from_parts(parts: LinkAnalysisPackageParts) -> (res: Result<Self, ContractError>)
        ensures
            res is Ok <==> canonical_order(
                parts.inventories@,
                parts.abi_probes@,
                parts.layouts@,
                parts.declaration_evidence@,
                parts.diagnostics@,
            ) && internal_valid(
                parts.analysis_policy.spec_input(),
                parts.source_fingerprint,
                parts.target_fingerprint,
                parts.native_inputs@,
                parts.inventories@,
                parts.abi_probes@,
                parts.layouts@,
                parts.declaration_evidence@,
                parts.resolved_link_plan@,
                parts.diagnostics@,
            ),
            res matches Ok(p) ==> p.spec_fingerprint() == parts.fingerprint && p.spec_schema() == parts.schema
                && p.spec_policy() == parts.analysis_policy && p.spec_source_fingerprint() == parts.source_fingerprint && p.spec_target_fingerprint()
                == parts.target_fingerprint && p.spec_native_inputs() == parts.native_inputs@ && p.spec_inventories()
                == parts.inventories@ && p.spec_probes() == parts.abi_probes@ && p.spec_layouts() == parts.layouts@
                && p.spec_declarations() == parts.declaration_evidence@ && p.spec_atoms() == parts.resolved_link_plan@
                && p.spec_diagnostics() == parts.diagnostics@,
    {
        validate_canonical_order(
            parts.inventories.as_slice(),
            parts.abi_probes.as_slice(),
            parts.layouts.as_slice(),
            parts.declaration_evidence.as_slice(),
            parts.diagnostics.as_slice(),
        )?;
        validate_internal(
            &parts.analysis_policy,
            parts.source_fingerprint,
            parts.target_fingerprint,
            parts.native_inputs.as_slice(),
            parts.inventories.as_slice(),
            parts.abi_probes.as_slice(),
            parts.layouts.as_slice(),
            parts.declaration_evidence.as_slice(),
            &parts.resolved_link_plan,
            parts.diagnostics.as_slice(),
        )?;
        Ok(
            LinkAnalysisPackage {
                schema: parts.schema,
                fingerprint: parts.fingerprint,
                source_fingerprint: parts.source_fingerprint,
                target_fingerprint: parts.target_fingerprint,
                analysis_policy: parts.analysis_policy,
                native_inputs: parts.native_inputs,
                inventories: parts.inventories,
                abi_probes: parts.abi_probes,
                layouts: parts.layouts,
                declaration_evidence: parts.declaration_evidence,
                resolved_link_plan: parts.resolved_link_plan,
                diagnostics: parts.diagnostics,
            },
        )
    }

    /// Every package is internally coherent and canonical: calling this
    /// makes that fact available about `self`.
    pub fn witness_valid(&self)
        ensures
            self.spec_valid(),
    {
        proof {
            use_type_invariant(self);
        }
    }

    pub fn schema(&self) -> (out: &SchemaHeader)
        ensures
            *out == self.spec_schema(),
    {
        &self.schema
    }

    pub fn fingerprint(&self) -> (out: LinkAnalysisFingerprint)
        ensures
            out == self.spec_fingerprint(),
    {
        self.fingerprint
    }

    pub fn source_fingerprint(&self) -> (out: SourceFingerprint)
        ensures
            out == self.spec_source_fingerprint(),
    {
        self.source_fingerprint
    }

    pub fn target_fingerprint(&self) -> (out: TargetFingerprint)
        ensures
            out == self.spec_target_fingerprint(),
    {
        self.target_fingerprint
    }

    pub fn analysis_policy(&self) -> (out: &AnalysisPolicy)
        ensures
            *out == self.spec_policy(),
    {
        &self.analysis_policy
    }

    pub fn native_inputs(&self) -> (out: &[NativeInput])
        ensures
            out@ == self.spec_native_inputs(),
    {
        self.native_inputs.as_slice()
    }

    pub fn inventories(&self) -> (out: &[SymbolInventory])
        ensures
            out@ == self.spec_inventories(),
    {
        self.inventories.as_slice()
    }

    pub fn abi_probes(&self) -> (out: &[AbiProbeEvidence])
        ensures
            out@ == self.spec_probes(),
    {
        self.abi_probes.as_slice()
    }

    pub fn layouts(&self) -> (out: &[LayoutEvidence])
        ensures
            out@ == self.spec_layouts(),
    {
        self.layouts.as_slice()
    }

    pub fn declaration_evidence(&self) -> (out: &[DeclarationEvidence])
        ensures
            out@ == self.spec_declarations(),
    {
        self.declaration_evidence.as_slice()
    }

    pub fn resolved_link_plan(&self) -> (out: &ResolvedLinkPlan)
        ensures
            out@ == self.spec_atoms(),
    {
        &self.resolved_link_plan
    }

    pub fn diagnostics(&self) -> (out: &[LincDiagnostic])
        ensures
            out@ == self.spec_diagnostics(),
    {
        self.diagnostics.as_slice()
    }
}

proof fn lemma_sorted_adjacent<T: SortKey>(s: Seq<T>)
    requires
        keys_sorted(s),
    ensures
        adjacent_sorted(s),
{
    assert forall|i: int| 0 <= i < s.len() - 1 implies lex_sign((#[trigger] s[i]).key_view(), s[i + 1].key_view()) <= 0 by {
        assert(lex_sign(s[i].key_view(), s[i + 1].key_view()) <= 0);
    }
}

} // verus!
