//! A complete source closure and the check that a link-analysis package
//! covers it exactly.
use vstd::prelude::*;

use super::analysis::{atom_artifact, has_probe, inv_provider, layout_for, find_layout, LinkAnalysisPackage};
use super::identity::ProviderId;
use super::link::LinkAtom;
use super::model::DependencyEdge;
use super::package::{contains_provider, linked_refusal, refusal_is, validate_linked_declaration};
use super::model::SymbolKind;
use super::source::ContentFingerprint;
use super::evidence::{ProbeSubjectOutcome, ProbeSubjectStatus};
use super::diagnostic::{DiagnosticEvidenceRef, LincDiagnostic};
use super::error::ContractError;
use super::evidence::{
    lemma_subject_sign_facts, subject_declaration, subject_sign_exec, CallableAbiAssessment, DeclarationEvidence,
    EvidenceConfidence, EvidenceSource, LayoutAssessment, ProbeMethod, ProbeRunnerArgument, ProbeRunnerEvidence,
    ProbeSubject, ProviderAssessment, SymbolAssessment,
};
use super::inventory::SymbolInventory;
use super::layout::{fingerprint_layouts, layout_fingerprints, EnumVariantEvidence, ExactInteger, LayoutEvidence, LayoutMember};
use super::model::{ObservedTarget, TargetSpec};
use super::probe::AbiProbeEvidence;
use super::request::{AnalysisPolicy, AnalysisPolicyInput, EvidenceAcceptancePolicy, ProbePolicy, RunnerPolicy, WeakSymbolPolicy};
use super::source::{CallingConvention, ChildId, DeclarationId, SourceFingerprint};
use crate::bytes::bytes_equal;

verus! {

// ---------------------------------------------------------------------------
// The source closure
// ---------------------------------------------------------------------------

/// Whether a declaration of the closure is needed as a definition or only
/// as a declaration.
#[derive(Debug, Clone, Copy, PartialEq, Eq, Hash, Structural)]
pub enum ClosureRequirement {
    Declaration,
    Definition,
}

#[derive(Debug, Clone, Copy, PartialEq, Eq, Hash, Structural)]
pub enum Linkage {
    External,
    Internal,
    Unlinked,
}

#[derive(Debug, Clone, Copy, PartialEq, Eq, Hash, Structural)]
pub enum RecordCompleteness {
    Complete,
    Incomplete,
}

/// An enumerator's value as the source states it.
#[derive(Debug, Clone, Copy, PartialEq, Eq)]
pub enum EnumValue {
    Evaluated { value: ExactInteger },
    Unevaluated,
}

/// One enumerator of a source enum.
#[derive(Debug, Clone, Copy, PartialEq, Eq)]
pub struct SourceVariant {
    pub id: ChildId,
    pub value: EnumValue,
}

#[derive(Debug, Clone, PartialEq, Eq)]
pub enum SourceDeclarationKind {
    Function { link_name: String, calling_convention: CallingConvention },
    Variable { link_name: String, thread_local: bool },
    Record { completeness: RecordCompleteness, fields: Vec<ChildId> },
    Enum { variants: Vec<SourceVariant> },
    TypeAlias,
    Unsupported,
}

/// One declaration of the source package.
#[derive(Debug, Clone, PartialEq, Eq)]
pub struct SourceDeclaration {
    pub id: DeclarationId,
    pub linkage: Linkage,
    pub kind: SourceDeclarationKind,
}

/// One source file, by identity and length.
#[derive(Debug, Clone, Copy, PartialEq, Eq, Hash)]
pub struct SourceFile {
    pub id: u32,
    pub byte_len: u32,
}

/// One declaration of the closure and what it is needed as.
#[derive(Debug, Clone, Copy, PartialEq, Eq)]
pub struct ClosureEntry {
    pub declaration: DeclarationId,
    pub requirement: ClosureRequirement,
}

/// A complete source package: its identity, target, files and declarations,
/// with the closure of declarations a binding needs. The compiler identity
/// and ABI flags are carried by their canonical encodings.
#[derive(Debug, Clone, PartialEq, Eq)]
pub struct CompleteSourcePackage {
    pub fingerprint: SourceFingerprint,
    pub target: TargetSpec,
    pub compiler: Vec<u8>,
    pub abi_flags: Vec<u8>,
    pub files: Vec<SourceFile>,
    pub declarations: Vec<SourceDeclaration>,
    pub closure: Vec<ClosureEntry>,
}

/// The first declaration of the source with identity `d`.
pub open spec fn source_declaration(decls: Seq<SourceDeclaration>, d: DeclarationId) -> Option<SourceDeclaration>
    decreases decls.len(),
{
    if decls.len() == 0 {
        None
    } else if decls[0].id == d {
        Some(decls[0])
    } else {
        source_declaration(decls.drop_first(), d)
    }
}

pub fn find_source_declaration<'a>(decls: &'a [SourceDeclaration], d: DeclarationId) -> (out: Option<&'a SourceDeclaration>)
    ensures
        match source_declaration(decls@, d) {
            Some(x) => out matches Some(o) && *o == x,
            None => out is None,
        },
{
    let mut i: usize = 0;
    assert(decls@.skip(0) =~= decls@);
    while i < decls.len()
        invariant
            i <= decls@.len(),
            source_declaration(decls@, d) == source_declaration(decls@.skip(i as int), d),
        decreases decls@.len() - i,
    {
        proof {
            assert(decls@.skip(i as int).drop_first() =~= decls@.skip(i + 1));
        }
        if decls[i].id.same(&d) {
            return Some(&decls[i]);
        }
        i = i + 1;
    }
    None
}

/// The declaration is in the closure.
pub open spec fn in_closure(closure: Seq<ClosureEntry>, d: DeclarationId) -> bool {
    exists|i: int| 0 <= i < closure.len() && (#[trigger] closure[i]).declaration == d
}

pub fn closure_contains(closure: &[ClosureEntry], d: DeclarationId) -> (out: bool)
    ensures
        out <==> in_closure(closure@, d),
{
    let mut i: usize = 0;
    while i < closure.len()
        invariant
            i <= closure@.len(),
            forall|k: int| 0 <= k < i ==> (#[trigger] closure@[k]).declaration != d,
        decreases closure@.len() - i,
    {
        if closure[i].declaration.same(&d) {
            return true;
        }
        i = i + 1;
    }
    false
}

/// The first declaration-evidence record for `d`.
pub open spec fn evidence_for(decls: Seq<DeclarationEvidence>, d: DeclarationId) -> Option<DeclarationEvidence>
    decreases decls.len(),
{
    if decls.len() == 0 {
        None
    } else if decls[0].spec_input().declaration == d {
        Some(decls[0])
    } else {
        evidence_for(decls.drop_first(), d)
    }
}

pub fn find_evidence<'a>(decls: &'a [DeclarationEvidence], d: DeclarationId) -> (out: Option<&'a DeclarationEvidence>)
    ensures
        match evidence_for(decls@, d) {
            Some(x) => out matches Some(o) && *o == x,
            None => out is None,
        },
{
    let mut i: usize = 0;
    assert(decls@.skip(0) =~= decls@);
    while i < decls.len()
        invariant
            i <= decls@.len(),
            evidence_for(decls@, d) == evidence_for(decls@.skip(i as int), d),
        decreases decls@.len() - i,
    {
        proof {
            assert(decls@.skip(i as int).drop_first() =~= decls@.skip(i + 1));
        }
        if decls[i].declaration().same(&d) {
            return Some(&decls[i]);
        }
        i = i + 1;
    }
    None
}

/// The first probe with identity `id`.
pub open spec fn probe_for(probes: Seq<AbiProbeEvidence>, id: super::identity::ProbeEvidenceId) -> Option<AbiProbeEvidence>
    decreases probes.len(),
{
    if probes.len() == 0 {
        None
    } else if probes[0].spec_id() == id {
        Some(probes[0])
    } else {
        probe_for(probes.drop_first(), id)
    }
}

pub fn find_probe_evidence<'a>(probes: &'a [AbiProbeEvidence], id: super::identity::ProbeEvidenceId) -> (out: Option<
    &'a AbiProbeEvidence,
>)
    ensures
        match probe_for(probes@, id) {
            Some(x) => out matches Some(o) && *o == x,
            None => out is None,
        },
{
    let mut i: usize = 0;
    assert(probes@.skip(0) =~= probes@);
    while i < probes.len()
        invariant
            i <= probes@.len(),
            probe_for(probes@, id) == probe_for(probes@.skip(i as int), id),
        decreases probes@.len() - i,
    {
        proof {
            assert(probes@.skip(i as int).drop_first() =~= probes@.skip(i + 1));
        }
        if probes[i].id().same(&id) {
            return Some(&probes[i]);
        }
        i = i + 1;
    }
    None
}

// ---------------------------------------------------------------------------
// Package-wide source checks
// ---------------------------------------------------------------------------

/// The policy a validated analysis requires: weak symbols rejected and only
/// measured evidence accepted.
pub open spec fn strict_policy(p: AnalysisPolicyInput) -> bool {
    p.weak_symbols == WeakSymbolPolicy::Reject && p.layout_evidence == EvidenceAcceptancePolicy::MeasuredOnly
        && p.callable_abi_evidence == EvidenceAcceptancePolicy::MeasuredOnly
}

pub open spec fn runner_argument_same(a: ProbeRunnerArgument, b: ProbeRunnerArgument) -> bool {
    match (a, b) {
        (ProbeRunnerArgument::Literal(x), ProbeRunnerArgument::Literal(y)) => x@ == y@,
        (ProbeRunnerArgument::ProbeExecutable, ProbeRunnerArgument::ProbeExecutable) => true,
        _ => false,
    }
}

pub open spec fn runner_arguments_same(a: Seq<ProbeRunnerArgument>, b: Seq<ProbeRunnerArgument>) -> bool {
    a.len() == b.len() && forall|i: int| 0 <= i < a.len() ==> runner_argument_same(#[trigger] a[i], b[i])
}

/// A probe's runner evidence agrees with the package's probe and runner policy.
pub open spec fn runner_policy_ok(probe: AbiProbeEvidence, policy: AnalysisPolicyInput) -> bool {
    let input = probe.spec_input();
    match (input.method, input.runner, policy.probe, policy.runner) {
        (
            ProbeMethod::ExecutedHarness,
            ProbeRunnerEvidence::Executed { executable_path, executable_fingerprint, arguments },
            ProbePolicy::CompileAndRun,
            RunnerPolicy::Explicit(command),
        ) => executable_path@ == command.spec_program() && executable_fingerprint == command.spec_fingerprint()
            && runner_arguments_same(arguments@, command.spec_arguments()),
        (ProbeMethod::CompilerLayoutDump, ProbeRunnerEvidence::NotExecuted, ProbePolicy::CompileOnly, _) => true,
        (ProbeMethod::CompilerLayoutDump, ProbeRunnerEvidence::NotExecuted, ProbePolicy::CompileAndRun, _) => true,
        (ProbeMethod::CompileTimeAssertion, ProbeRunnerEvidence::NotExecuted, ProbePolicy::CompileOnly, _) => true,
        (ProbeMethod::CompileTimeAssertion, ProbeRunnerEvidence::NotExecuted, ProbePolicy::CompileAndRun, _) => true,
        _ => false,
    }
}

fn runner_arguments_equal(a: &[ProbeRunnerArgument], b: &[ProbeRunnerArgument]) -> (out: bool)
    ensures
        out <==> runner_arguments_same(a@, b@),
{
    if a.len() != b.len() {
        return false;
    }
    let mut i: usize = 0;
    while i < a.len()
        invariant
            i <= a@.len(),
            a@.len() == b@.len(),
            forall|k: int| 0 <= k < i ==> runner_argument_same(#[trigger] a@[k], b@[k]),
        decreases a@.len() - i,
    {
        let same = match (&a[i], &b[i]) {
            (ProbeRunnerArgument::Literal(x), ProbeRunnerArgument::Literal(y)) => bytes_equal(x.as_slice(), y.as_slice()),
            (ProbeRunnerArgument::ProbeExecutable, ProbeRunnerArgument::ProbeExecutable) => true,
            _ => false,
        };
        if !same {
            return false;
        }
        i = i + 1;
    }
    true
}

/// Checks that a probe's runner evidence agrees with the package's probe and
/// runner policy.
pub fn validate_probe_runner_policy(probe: &AbiProbeEvidence, policy: &AnalysisPolicy) -> (res: Result<(), ContractError>)
    ensures
        runner_policy_ok(*probe, policy.spec_input()) ==> res is Ok,
        !runner_policy_ok(*probe, policy.spec_input()) ==> res == Err::<(), ContractError>(
            ContractError::InvalidPolicy { reason: "ABI probe runner evidence differs from package analysis policy" },
        ),
{
    let ok = match (probe.method(), probe.runner(), policy.probe(), policy.runner()) {
        (
            ProbeMethod::ExecutedHarness,
            ProbeRunnerEvidence::Executed { executable_path, executable_fingerprint, arguments },
            ProbePolicy::CompileAndRun,
            RunnerPolicy::Explicit(command),
        ) => bytes_equal(executable_path.as_slice(), command.program()) && executable_fingerprint.same(
            &command.executable_fingerprint(),
        ) && runner_arguments_equal(arguments.as_slice(), command.arguments()),
        (ProbeMethod::CompilerLayoutDump, ProbeRunnerEvidence::NotExecuted, ProbePolicy::CompileOnly, _) => true,
        (ProbeMethod::CompilerLayoutDump, ProbeRunnerEvidence::NotExecuted, ProbePolicy::CompileAndRun, _) => true,
        (ProbeMethod::CompileTimeAssertion, ProbeRunnerEvidence::NotExecuted, ProbePolicy::CompileOnly, _) => true,
        (ProbeMethod::CompileTimeAssertion, ProbeRunnerEvidence::NotExecuted, ProbePolicy::CompileAndRun, _) => true,
        _ => false,
    };
    if ok {
        Ok(())
    } else {
        Err(ContractError::InvalidPolicy { reason: "ABI probe runner evidence differs from package analysis policy" })
    }
}

/// Each probe used the source's compiler and ABI flags, the package's
/// execution policy, and a runner the policy allows.
pub open spec fn probes_match_source(probes: Seq<AbiProbeEvidence>, source: CompleteSourcePackage, policy: AnalysisPolicyInput) -> bool {
    forall|i: int|
        0 <= i < probes.len() ==> {
            let p = #[trigger] probes[i];
            &&& p.spec_input().compiler@ == source.compiler@
            &&& p.spec_input().abi_flags@ == source.abi_flags@
            &&& p.spec_input().execution_policy.spec_temporary_parent() == policy.probe_execution.spec_temporary_parent()
            &&& p.spec_input().execution_policy.spec_environment() == policy.probe_execution.spec_environment()
            &&& p.spec_input().execution_policy.spec_limits() == policy.probe_execution.spec_limits()
            &&& runner_policy_ok(p, policy)
        }
}

fn check_probes_against_source(probes: &[AbiProbeEvidence], source: &CompleteSourcePackage, policy: &AnalysisPolicy) -> (res:
    Result<(), ContractError>)
    ensures
        res is Ok <==> probes_match_source(probes@, *source, policy.spec_input()),
{
    let mut i: usize = 0;
    while i < probes.len()
        invariant
            i <= probes@.len(),
            forall|k: int| 0 <= k < i ==> {
                let p = #[trigger] probes@[k];
                &&& p.spec_input().compiler@ == source.compiler@
                &&& p.spec_input().abi_flags@ == source.abi_flags@
                &&& p.spec_input().execution_policy.spec_temporary_parent() == policy.spec_input().probe_execution.spec_temporary_parent()
                &&& p.spec_input().execution_policy.spec_environment() == policy.spec_input().probe_execution.spec_environment()
                &&& p.spec_input().execution_policy.spec_limits() == policy.spec_input().probe_execution.spec_limits()
                &&& runner_policy_ok(p, policy.spec_input())
            },
        decreases probes@.len() - i,
    {
        let probe = &probes[i];
        if !bytes_equal(probe.compiler(), source.compiler.as_slice()) || !bytes_equal(probe.abi_flags(), source.abi_flags.as_slice()) {
            return Err(ContractError::ProbeCompilerMismatch { probe: probe.id() });
        }
        if !probe.execution_policy().same(policy.probe_execution()) {
            return Err(
                ContractError::InvalidPolicy { reason: "ABI probe execution policy differs from package analysis policy" },
            );
        }
        validate_probe_runner_policy(probe, policy)?;
        i = i + 1;
    }
    Ok(())
}

/// Every provider was observed for the source's target.
pub open spec fn inventories_match_target(invs: Seq<SymbolInventory>, target: TargetSpec) -> bool {
    forall|i: int| 0 <= i < invs.len() ==> (#[trigger] invs[i]).spec_artifact().spec_observed_target().matches_spec(target)
}

fn check_inventory_targets(invs: &[SymbolInventory], target: &TargetSpec) -> (res: Result<(), ContractError>)
    ensures
        res is Ok <==> inventories_match_target(invs@, *target),
{
    let mut i: usize = 0;
    while i < invs.len()
        invariant
            i <= invs@.len(),
            forall|k: int| 0 <= k < i ==> (#[trigger] invs@[k]).spec_artifact().spec_observed_target().matches_spec(*target),
        decreases invs@.len() - i,
    {
        let artifact = invs[i].artifact();
        if !artifact.observed_target().matches_target(target) {
            return Err(ContractError::ObservedTargetMismatch { provider: artifact.provider_id() });
        }
        i = i + 1;
    }
    Ok(())
}

/// A layout measured by a compiler probe or corroborated, with strictly
/// measured confidence.
pub open spec fn layout_measured(l: LayoutEvidence) -> bool {
    l.spec_confidence() != EvidenceConfidence::Inferred && (l.spec_source() == EvidenceSource::CompilerProbe || l.spec_source()
        == EvidenceSource::Corroborated)
}

fn check_layouts_measured(layouts: &[LayoutEvidence]) -> (res: Result<(), ContractError>)
    ensures
        res is Ok <==> forall|i: int| 0 <= i < layouts@.len() ==> layout_measured(#[trigger] layouts@[i]),
{
    let mut i: usize = 0;
    while i < layouts.len()
        invariant
            i <= layouts@.len(),
            forall|k: int| 0 <= k < i ==> layout_measured(#[trigger] layouts@[k]),
        decreases layouts@.len() - i,
    {
        let source = layouts[i].source();
        if !layouts[i].confidence().is_strictly_measured() || !(source == EvidenceSource::CompilerProbe || source
            == EvidenceSource::Corroborated) {
            return Err(ContractError::InferredLayoutEvidence { declaration: layouts[i].declaration() });
        }
        i = i + 1;
    }
    Ok(())
}

fn check_evidence_in_closure(decls: &[DeclarationEvidence], closure: &[ClosureEntry]) -> (res: Result<(), ContractError>)
    ensures
        res is Ok <==> forall|i: int| 0 <= i < decls@.len() ==> in_closure(closure@, (#[trigger] decls@[i]).spec_input().declaration),
{
    let mut i: usize = 0;
    while i < decls.len()
        invariant
            i <= decls@.len(),
            forall|k: int| 0 <= k < i ==> in_closure(closure@, (#[trigger] decls@[k]).spec_input().declaration),
        decreases decls@.len() - i,
    {
        let declaration = decls[i].declaration();
        if !closure_contains(closure, declaration) {
            return Err(ContractError::DeclarationOutsideClosure { declaration });
        }
        i = i + 1;
    }
    Ok(())
}

// ---------------------------------------------------------------------------
// Layout owners
// ---------------------------------------------------------------------------

pub open spec fn field_in(fields: Seq<ChildId>, c: ChildId) -> bool {
    exists|i: int| 0 <= i < fields.len() && fields[i] == c
}

pub open spec fn variant_in(variants: Seq<SourceVariant>, c: ChildId) -> bool {
    exists|i: int| 0 <= i < variants.len() && (#[trigger] variants[i]).id == c
}

/// The first source variant with identity `c`.
pub open spec fn variant_for(variants: Seq<SourceVariant>, c: ChildId) -> Option<SourceVariant>
    decreases variants.len(),
{
    if variants.len() == 0 {
        None
    } else if variants[0].id == c {
        Some(variants[0])
    } else {
        variant_for(variants.drop_first(), c)
    }
}

/// The members of the layout are exactly those of the source declaration
/// (`members` names each layout member's child).
pub open spec fn members_match(members: Seq<ChildId>, source: Seq<ChildId>) -> bool {
    &&& forall|i: int| 0 <= i < members.len() ==> field_in(source, #[trigger] members[i])
    &&& forall|i: int| 0 <= i < source.len() ==> field_in(members, #[trigger] source[i])
}

pub open spec fn field_children(fields: Seq<super::evidence::FieldLayoutEvidence>) -> Seq<ChildId> {
    fields.map_values(|f: super::evidence::FieldLayoutEvidence| f.member_child())
}

pub open spec fn variant_children(variants: Seq<EnumVariantEvidence>) -> Seq<ChildId> {
    variants.map_values(|v: EnumVariantEvidence| v.member_child())
}

pub open spec fn source_variant_ids(variants: Seq<SourceVariant>) -> Seq<ChildId> {
    variants.map_values(|v: SourceVariant| v.id)
}

/// Every evaluated source enumerator has the measured value.
pub open spec fn values_match(variants: Seq<EnumVariantEvidence>, source: Seq<SourceVariant>) -> bool {
    forall|i: int|
        0 <= i < variants.len() ==> (variant_for(source, (#[trigger] variants[i]).member_child()) matches Some(sv) && (
        sv.value matches EnumValue::Evaluated { value } ==> value == variants[i].spec_value()))
}

/// The layout describes a declaration of the source of the same kind, with
/// exactly its members and, for enums, its evaluated values.
pub open spec fn layout_owner_ok(decls: Seq<SourceDeclaration>, layout: LayoutEvidence) -> bool {
    match source_declaration(decls, layout.spec_declaration()) {
        None => false,
        Some(d) => match (d.kind, layout) {
            (SourceDeclarationKind::Record { fields, .. }, LayoutEvidence::Record(r)) => members_match(
                field_children(r.spec_fields()),
                fields@,
            ),
            (SourceDeclarationKind::Enum { variants }, LayoutEvidence::Enum(e)) => members_match(
                variant_children(e.spec_variants()),
                source_variant_ids(variants@),
            ) && values_match(e.spec_variants(), variants@),
            _ => false,
        },
    }
}

fn child_listed(list: &[ChildId], c: ChildId) -> (out: bool)
    ensures
        out <==> field_in(list@, c),
{
    let mut i: usize = 0;
    while i < list.len()
        invariant
            i <= list@.len(),
            forall|k: int| 0 <= k < i ==> list@[k] != c,
        decreases list@.len() - i,
    {
        if list[i].same(&c) {
            return true;
        }
        i = i + 1;
    }
    false
}

fn member_ids<T: LayoutMember>(members: &[T]) -> (out: Vec<ChildId>)
    ensures
        out@ == members@.map_values(|m: T| m.member_child()),
{
    let mut out: Vec<ChildId> = Vec::new();
    let mut i: usize = 0;
    while i < members.len()
        invariant
            i <= members@.len(),
            out@ == members@.take(i as int).map_values(|m: T| m.member_child()),
        decreases members@.len() - i,
    {
        out.push(members[i].member_child_exec());
        proof {
            assert(members@.take(i + 1).map_values(|m: T| m.member_child()) =~= members@.take(i as int).map_values(
                |m: T| m.member_child(),
            ).push(members@[i as int].member_child()));
        }
        i = i + 1;
    }
    proof {
        assert(members@.take(members@.len() as int) =~= members@);
    }
    out
}

/// The first layout member missing from the source, or `None`; then whether
/// some source member is missing from the layout.
fn compare_members(declaration: DeclarationId, members: &Vec<ChildId>, source: &Vec<ChildId>) -> (res: Result<(), ContractError>)
    ensures
        res is Ok <==> members_match(members@, source@),
        res matches Err(ContractError::ForeignLayoutChild { declaration: d, child }) ==> d == declaration && !field_in(
            source@,
            child,
        ) && exists|i: int| 0 <= i < members@.len() && members@[i] == child && forall|j: int|
            0 <= j < i ==> field_in(source@, #[trigger] members@[j]),
        res is Err ==> (res matches Err(ContractError::ForeignLayoutChild { .. }) || res == Err::<(), ContractError>(
            ContractError::RequiredLayoutEvidence { declaration },
        )),
{
    let mut i: usize = 0;
    while i < members.len()
        invariant
            i <= members@.len(),
            forall|k: int| 0 <= k < i ==> field_in(source@, #[trigger] members@[k]),
        decreases members@.len() - i,
    {
        if !child_listed(source.as_slice(), members[i]) {
            return Err(ContractError::ForeignLayoutChild { declaration, child: members[i] });
        }
        i = i + 1;
    }
    let mut j: usize = 0;
    while j < source.len()
        invariant
            j <= source@.len(),
            forall|k: int| 0 <= k < members@.len() ==> field_in(source@, #[trigger] members@[k]),
            forall|k: int| 0 <= k < j ==> field_in(members@, #[trigger] source@[k]),
        decreases source@.len() - j,
    {
        if !child_listed(members.as_slice(), source[j]) {
            return Err(ContractError::RequiredLayoutEvidence { declaration });
        }
        j = j + 1;
    }
    Ok(())
}

proof fn lemma_variant_for(variants: Seq<SourceVariant>, c: ChildId)
    ensures
        variant_for(variants, c) is Some <==> field_in(source_variant_ids(variants), c),
        variant_for(variants, c) matches Some(v) ==> v.id == c,
    decreases variants.len(),
{
    if variants.len() > 0 {
        lemma_variant_for(variants.drop_first(), c);
        let ids = source_variant_ids(variants);
        let rest = source_variant_ids(variants.drop_first());
        assert(ids[0] == variants[0].id);
        if field_in(ids, c) && variants[0].id != c {
            let i = choose|i: int| 0 <= i < ids.len() && ids[i] == c;
            assert(rest[i - 1] == ids[i]);
        }
        if field_in(rest, c) {
            let i = choose|i: int| 0 <= i < rest.len() && rest[i] == c;
            assert(ids[i + 1] == rest[i]);
        }
    }
}

fn find_variant<'a>(variants: &'a [SourceVariant], c: ChildId) -> (out: Option<&'a SourceVariant>)
    ensures
        match variant_for(variants@, c) {
            Some(x) => out matches Some(o) && *o == x,
            None => out is None,
        },
{
    let mut i: usize = 0;
    assert(variants@.skip(0) =~= variants@);
    while i < variants.len()
        invariant
            i <= variants@.len(),
            variant_for(variants@, c) == variant_for(variants@.skip(i as int), c),
        decreases variants@.len() - i,
    {
        proof {
            assert(variants@.skip(i as int).drop_first() =~= variants@.skip(i + 1));
        }
        if variants[i].id.same(&c) {
            return Some(&variants[i]);
        }
        i = i + 1;
    }
    None
}

/// Checks that a layout describes a declaration of the source of the same
/// kind with exactly its members and, for an enum, its evaluated values.
pub fn validate_layout_owner(declarations: &[SourceDeclaration], layout: &LayoutEvidence) -> (res: Result<(), ContractError>)
    ensures
        res is Ok <==> layout_owner_ok(declarations@, *layout),
        source_declaration(declarations@, layout.spec_declaration()) is None ==> res == Err::<(), ContractError>(
            ContractError::InvalidLayoutDeclaration { declaration: layout.spec_declaration() },
        ),
{
    let declaration = layout.declaration();
    let owner = match find_source_declaration(declarations, declaration) {
        Some(owner) => owner,
        None => {
            return Err(ContractError::InvalidLayoutDeclaration { declaration });
        },
    };
    match (&owner.kind, layout) {
        (SourceDeclarationKind::Record { fields, .. }, LayoutEvidence::Record(record)) => {
            let members = member_ids(record.fields());
            assert(members@ =~= field_children(record.spec_fields()));
            compare_members(declaration, &members, fields)
        },
        (SourceDeclarationKind::Enum { variants }, LayoutEvidence::Enum(enumeration)) => {
            let measured = enumeration.variants();
            let members = member_ids(measured);
            assert(members@ =~= variant_children(enumeration.spec_variants()));
            let mut ids: Vec<ChildId> = Vec::new();
            let mut k: usize = 0;
            while k < variants.len()
                invariant
                    k <= variants@.len(),
                    ids@ == variants@.take(k as int).map_values(|v: SourceVariant| v.id),
                decreases variants@.len() - k,
            {
                ids.push(variants[k].id);
                proof {
                    assert(variants@.take(k + 1).map_values(|v: SourceVariant| v.id) =~= variants@.take(k as int).map_values(
                        |v: SourceVariant| v.id,
                    ).push(variants@[k as int].id));
                }
                k = k + 1;
            }
            proof {
                assert(variants@.take(variants@.len() as int) =~= variants@);
                assert(ids@ =~= source_variant_ids(variants@));
            }
            compare_members(declaration, &members, &ids)?;
            let mut i: usize = 0;
            while i < measured.len()
                invariant
                    i <= measured@.len(),
                    measured@ == enumeration.spec_variants(),
                    source_declaration(declarations@, layout.spec_declaration()) == Some(*owner),
                    owner.kind == (SourceDeclarationKind::Enum { variants: *variants }),
                    *layout == LayoutEvidence::Enum(*enumeration),
                    declaration == layout.spec_declaration(),
                    members_match(variant_children(enumeration.spec_variants()), source_variant_ids(variants@)),
                    forall|m: int|
                        0 <= m < i ==> (variant_for(variants@, (#[trigger] measured@[m]).member_child()) matches Some(sv) && (
                        sv.value matches EnumValue::Evaluated { value } ==> value == measured@[m].spec_value())),
                decreases measured@.len() - i,
            {
                let child = measured[i].child();
                proof {
                    lemma_variant_for(variants@, child);
                    assert(variant_children(enumeration.spec_variants())[i as int] == child);
                }
                let variant = match find_variant(variants.as_slice(), child) {
                    Some(v) => v,
                    None => {
                        return Err(ContractError::ForeignLayoutChild { declaration, child });
                    },
                };
                if let EnumValue::Evaluated { value } = &variant.value {
                    if *value != *measured[i].value() {
                        return Err(ContractError::EnumValueMismatch { declaration, child: variant.id });
                    }
                }
                i = i + 1;
            }
            Ok(())
        },
        _ => Err(ContractError::InvalidLayoutDeclaration { declaration }),
    }
}

// ---------------------------------------------------------------------------
// The plan's providers
// ---------------------------------------------------------------------------

/// Atom `i` links provider `p`.
pub open spec fn planned_at(atoms: Seq<LinkAtom>, i: int, p: ProviderId) -> bool {
    0 <= i < atoms.len() && (atom_artifact(atoms[i]) matches Some(a) && a.spec_provider_id() == p)
}

/// The first atom that links `p`.
#[verifier::opaque]
pub open spec fn plan_position(atoms: Seq<LinkAtom>, p: ProviderId) -> Option<int> {
    if exists|i: int| planned_at(atoms, i, p) {
        Some(choose|i: int| planned_at(atoms, i, p) && forall|j: int| 0 <= j < i ==> !planned_at(atoms, j, p))
    } else {
        None
    }
}

/// The providers the plan links, each once, in order of first appearance.
pub open spec fn plan_providers(atoms: Seq<LinkAtom>) -> Seq<ProviderId>
    decreases atoms.len(),
{
    if atoms.len() == 0 {
        Seq::empty()
    } else {
        let rest = plan_providers(atoms.drop_last());
        match atom_artifact(atoms.last()) {
            Some(a) => if rest.contains(a.spec_provider_id()) {
                rest
            } else {
                rest.push(a.spec_provider_id())
            },
            None => rest,
        }
    }
}

fn planned_providers(atoms: &[LinkAtom]) -> (out: Vec<ProviderId>)
    ensures
        out@ == plan_providers(atoms@),
{
    let mut out: Vec<ProviderId> = Vec::new();
    let mut i: usize = 0;
    while i < atoms.len()
        invariant
            i <= atoms@.len(),
            out@ == plan_providers(atoms@.take(i as int)),
        decreases atoms@.len() - i,
    {
        proof {
            assert(atoms@.take(i + 1).drop_last() =~= atoms@.take(i as int));
            assert(atoms@.take(i + 1).last() == atoms@[i as int]);
        }
        if let Some(artifact) = atoms[i].artifact() {
            let provider = artifact.provider_id();
            if !contains_provider(out.as_slice(), provider) {
                out.push(provider);
            }
        }
        i = i + 1;
    }
    proof {
        assert(atoms@.take(atoms@.len() as int) =~= atoms@);
    }
    out
}

fn find_plan_position(atoms: &[LinkAtom], p: ProviderId) -> (out: Option<usize>)
    ensures
        match out {
            Some(u) => plan_position(atoms@, p) == Some(u as int),
            None => plan_position(atoms@, p) is None,
        },
{
    let mut i: usize = 0;
    while i < atoms.len()
        invariant
            i <= atoms@.len(),
            forall|j: int| 0 <= j < i ==> !planned_at(atoms@, j, p),
        decreases atoms@.len() - i,
    {
        if let Some(artifact) = atoms[i].artifact() {
            if artifact.provider_id().same(&p) {
                proof {
                    reveal(plan_position);
                    assert(planned_at(atoms@, i as int, p));
                    let c = choose|c: int| planned_at(atoms@, c, p) && forall|j: int| 0 <= j < c ==> !planned_at(atoms@, j, p);
                    if c < i {
                        assert(!planned_at(atoms@, c, p));
                    } else if c > i {
                        assert(!planned_at(atoms@, i as int, p));
                    }
                }
                return Some(i);
            }
        }
        i = i + 1;
    }
    proof {
        reveal(plan_position);
    }
    None
}

/// The edge is bound, both ends are planned, and the parent first.
pub open spec fn edge_planned(parent: ProviderId, edge: DependencyEdge, atoms: Seq<LinkAtom>) -> bool {
    edge.spec_provider() matches Some(child) && (plan_position(atoms, parent) matches Some(pp) && plan_position(atoms, child) matches Some(
        cp,
    ) && pp < cp)
}

/// Every edge is bound, both ends are planned, and the parent first.
pub open spec fn edges_planned(parent: ProviderId, edges: Seq<DependencyEdge>, atoms: Seq<LinkAtom>) -> bool {
    forall|k: int| 0 <= k < edges.len() ==> edge_planned(parent, #[trigger] edges[k], atoms)
}

/// Every dependency edge is bound, both ends are planned, and the parent is
/// planned before the child.
pub open spec fn strict_dependencies_ok(invs: Seq<SymbolInventory>, atoms: Seq<LinkAtom>) -> bool {
    forall|i: int| 0 <= i < invs.len() ==> edges_planned(inv_provider(#[trigger] invs[i]), invs[i].spec_edges(), atoms)
}

fn check_edges_planned(parent: ProviderId, edges: &[DependencyEdge], atoms: &[LinkAtom]) -> (res: Result<(), ContractError>)
    ensures
        res is Ok <==> edges_planned(parent, edges@, atoms@),
{
    let mut k: usize = 0;
    while k < edges.len()
        invariant
            k <= edges@.len(),
            forall|m: int| 0 <= m < k ==> edge_planned(parent, #[trigger] edges@[m], atoms@),
        decreases edges@.len() - k,
    {
        let child = match edges[k].provider() {
            Some(child) => child,
            None => {
                return Err(ContractError::UnresolvedDependency { parent });
            },
        };
        let parent_position = match find_plan_position(atoms, parent) {
            Some(position) => position,
            None => {
                return Err(ContractError::ProviderNotInPlan { provider: parent });
            },
        };
        let child_position = match find_plan_position(atoms, child) {
            Some(position) => position,
            None => {
                return Err(ContractError::ProviderNotInPlan { provider: child });
            },
        };
        if parent_position >= child_position {
            return Err(ContractError::DependencyPlanOrder { parent, child });
        }
        assert(edge_planned(parent, edges@[k as int], atoms@));
        k = k + 1;
    }
    Ok(())
}

/// Checks that every dependency edge is bound and that each parent is linked
/// before its children.
pub fn validate_strict_dependencies(invs: &[SymbolInventory], atoms: &[LinkAtom]) -> (res: Result<(), ContractError>)
    ensures
        res is Ok <==> strict_dependencies_ok(invs@, atoms@),
{
    let mut i: usize = 0;
    while i < invs.len()
        invariant
            i <= invs@.len(),
            forall|a: int| 0 <= a < i ==> edges_planned(inv_provider(#[trigger] invs@[a]), invs@[a].spec_edges(), atoms@),
        decreases invs@.len() - i,
    {
        check_edges_planned(invs[i].artifact().provider_id(), invs[i].dependency_edges(), atoms)?;
        i = i + 1;
    }
    Ok(())
}

// ---------------------------------------------------------------------------
// Diagnostics and probe subjects against the source
// ---------------------------------------------------------------------------

/// The first file with identity `id`.
pub open spec fn file_for(files: Seq<SourceFile>, id: u32) -> Option<SourceFile>
    decreases files.len(),
{
    if files.len() == 0 {
        None
    } else if files[0].id == id {
        Some(files[0])
    } else {
        file_for(files.drop_first(), id)
    }
}

fn find_file(files: &[SourceFile], id: u32) -> (out: Option<SourceFile>)
    ensures
        out == file_for(files@, id),
{
    let mut i: usize = 0;
    assert(files@.skip(0) =~= files@);
    while i < files.len()
        invariant
            i <= files@.len(),
            file_for(files@, id) == file_for(files@.skip(i as int), id),
        decreases files@.len() - i,
    {
        proof {
            assert(files@.skip(i as int).drop_first() =~= files@.skip(i + 1));
        }
        if files[i].id == id {
            return Some(files[i]);
        }
        i = i + 1;
    }
    None
}

/// A diagnostic names declarations of the closure, a non-empty range of a
/// source file, and evidence that agrees with its own identities.
pub open spec fn diagnostic_source_ok(d: LincDiagnostic, source: CompleteSourcePackage, decls: Seq<DeclarationEvidence>) -> bool {
    &&& (d.spec_declaration() matches Some(x) ==> in_closure(source.closure@, x))
    &&& (d.spec_context().spec_source_range() matches Some(r) ==> (file_for(source.files@, r.file) matches Some(f) && r.start
        < r.end && r.end <= f.byte_len))
    &&& match d.spec_context().spec_evidence() {
        Some(DiagnosticEvidenceRef::Declaration { declaration }) => evidence_for(decls, declaration) is Some,
        Some(DiagnosticEvidenceRef::Layout { declaration }) => d.spec_declaration() == Some(declaration),
        Some(DiagnosticEvidenceRef::Symbol { provider, .. }) => d.spec_provider() == Some(provider),
        None => true,
    }
}

fn check_diagnostic_source(d: &LincDiagnostic, source: &CompleteSourcePackage, decls: &[DeclarationEvidence]) -> (res: Result<
    (),
    ContractError,
>)
    ensures
        res is Ok <==> diagnostic_source_ok(*d, *source, decls@),
{
    if let Some(declaration) = d.declaration() {
        if !closure_contains(source.closure.as_slice(), declaration) {
            return Err(ContractError::DeclarationOutsideClosure { declaration });
        }
    }
    let context = d.context();
    if let Some(range) = context.source_range() {
        let file = match find_file(source.files.as_slice(), range.file) {
            Some(file) => file,
            None => {
                return Err(
                    ContractError::InvalidDiagnosticContext { reason: "source range references a file outside the PARC package" },
                );
            },
        };
        if range.start >= range.end || range.end > file.byte_len {
            return Err(ContractError::InvalidDiagnosticContext { reason: "source range is empty or outside the PARC file" });
        }
    }
    match context.evidence() {
        Some(DiagnosticEvidenceRef::Declaration { declaration }) => {
            if find_evidence(decls, *declaration).is_none() {
                return Err(
                    ContractError::InvalidDiagnosticContext { reason: "declaration evidence identity is absent from the package" },
                );
            }
        },
        Some(DiagnosticEvidenceRef::Layout { declaration }) => {
            let same = match d.declaration() {
                Some(own) => own.same(declaration),
                None => false,
            };
            if !same {
                return Err(ContractError::InvalidDiagnosticContext { reason: "layout evidence and diagnostic declarations differ" });
            }
        },
        Some(DiagnosticEvidenceRef::Symbol { provider, .. }) => {
            let same = match d.provider() {
                Some(own) => own.same(provider),
                None => false,
            };
            if !same {
                return Err(ContractError::InvalidDiagnosticContext { reason: "symbol evidence and diagnostic providers differ" });
            }
        },
        None => {},
    }
    Ok(())
}

fn check_diagnostics_source(diags: &[LincDiagnostic], source: &CompleteSourcePackage, decls: &[DeclarationEvidence]) -> (res:
    Result<(), ContractError>)
    ensures
        res is Ok <==> forall|i: int| 0 <= i < diags@.len() ==> diagnostic_source_ok(#[trigger] diags@[i], *source, decls@),
{
    let mut i: usize = 0;
    while i < diags.len()
        invariant
            i <= diags@.len(),
            forall|k: int| 0 <= k < i ==> diagnostic_source_ok(#[trigger] diags@[k], *source, decls@),
        decreases diags@.len() - i,
    {
        check_diagnostic_source(&diags[i], source, decls)?;
        i = i + 1;
    }
    Ok(())
}

/// What a probe subject measures fits the declaration's kind.
pub open spec fn subject_fits(subject: ProbeSubject, kind: SourceDeclarationKind) -> bool {
    match (subject, kind) {
        (ProbeSubject::RecordLayout { .. }, SourceDeclarationKind::Record { .. }) => true,
        (ProbeSubject::EnumRepresentation { .. }, SourceDeclarationKind::Enum { .. }) => true,
        (ProbeSubject::CallableAbi { .. }, SourceDeclarationKind::Function { .. }) => true,
        _ => false,
    }
}

pub open spec fn subject_source_ok(subject: ProbeSubject, source: CompleteSourcePackage) -> bool {
    in_closure(source.closure@, subject_declaration(subject)) && (source_declaration(
        source.declarations@,
        subject_declaration(subject),
    ) matches Some(d) && subject_fits(subject, d.kind))
}

/// Every subject of every probe is a declaration of the closure whose kind
/// the subject can measure.
pub open spec fn probe_subjects_ok(probes: Seq<AbiProbeEvidence>, source: CompleteSourcePackage) -> bool {
    forall|i: int, k: int|
        0 <= i < probes.len() && 0 <= k < probes[i].spec_input().subjects@.len() ==> subject_source_ok(
            #[trigger] probes[i].spec_input().subjects@[k],
            source,
        )
}

pub open spec fn subject_text(subject: ProbeSubject) -> &'static str {
    match subject {
        ProbeSubject::RecordLayout { .. } => "record layout",
        ProbeSubject::EnumRepresentation { .. } => "enum representation",
        ProbeSubject::CallableAbi { .. } => "callable ABI",
    }
}

fn subject_text_exec(subject: ProbeSubject) -> (out: &'static str)
    ensures
        out == subject_text(subject),
{
    match subject {
        ProbeSubject::RecordLayout { .. } => "record layout",
        ProbeSubject::EnumRepresentation { .. } => "enum representation",
        ProbeSubject::CallableAbi { .. } => "callable ABI",
    }
}

/// Checks every probe subject against the source closure.
pub fn validate_probe_subjects_against_source(probes: &[AbiProbeEvidence], source: &CompleteSourcePackage) -> (res: Result<
    (),
    ContractError,
>)
    ensures
        res is Ok <==> probe_subjects_ok(probes@, *source),
{
    let mut i: usize = 0;
    while i < probes.len()
        invariant
            i <= probes@.len(),
            forall|a: int, k: int|
                0 <= a < i && 0 <= k < probes@[a].spec_input().subjects@.len() ==> subject_source_ok(
                    #[trigger] probes@[a].spec_input().subjects@[k],
                    *source,
                ),
        decreases probes@.len() - i,
    {
        let subjects = probes[i].subjects();
        let mut k: usize = 0;
        while k < subjects.len()
            invariant
                k <= subjects@.len(),
                i < probes@.len(),
                subjects@ == probes@[i as int].spec_input().subjects@,
                forall|m: int| 0 <= m < k ==> subject_source_ok(#[trigger] subjects@[m], *source),
            decreases subjects@.len() - k,
        {
            let subject = subjects[k];
            let declaration = subject.declaration();
            if !closure_contains(source.closure.as_slice(), declaration) {
                return Err(ContractError::DeclarationOutsideClosure { declaration });
            }
            let owner = match find_source_declaration(source.declarations.as_slice(), declaration) {
                Some(owner) => owner,
                None => {
                    return Err(ContractError::DeclarationOutsideClosure { declaration });
                },
            };
            let fits = match (subject, &owner.kind) {
                (ProbeSubject::RecordLayout { .. }, SourceDeclarationKind::Record { .. }) => true,
                (ProbeSubject::EnumRepresentation { .. }, SourceDeclarationKind::Enum { .. }) => true,
                (ProbeSubject::CallableAbi { .. }, SourceDeclarationKind::Function { .. }) => true,
                _ => false,
            };
            if !fits {
                return Err(
                    ContractError::ProbeSubjectMismatch { probe: probes[i].id(), declaration, subject: subject_text_exec(subject) },
                );
            }
            k = k + 1;
        }
        i = i + 1;
    }
    Ok(())
}

// ---------------------------------------------------------------------------
// Declarations of the closure
// ---------------------------------------------------------------------------

pub open spec fn provider_symbol_not_required(e: DeclarationEvidence) -> bool {
    e.spec_input().provider is NotRequired && e.spec_input().symbol is NotRequired
}

pub open spec fn callable_not_applicable(e: DeclarationEvidence) -> bool {
    e.spec_input().callable_abi is NotApplicable
}

pub open spec fn no_layout_dimension(e: DeclarationEvidence, layouts: Seq<LayoutEvidence>) -> bool {
    e.spec_input().layout is NotRequired && layout_for(layouts, e.spec_input().declaration) is None
}

/// Some outcome of the probe verifies `subject`.
pub open spec fn probe_verifies(p: AbiProbeEvidence, subject: ProbeSubject) -> bool {
    exists|j: int|
        0 <= j < p.spec_input().subject_outcomes@.len() && (#[trigger] p.spec_input().subject_outcomes@[j]).spec_subject() == subject
            && p.spec_input().subject_outcomes@[j].spec_status() is Verified
}

/// The callable-ABI assessment confirms the expected convention with
/// measured confidence, citing a probe that verified the callable ABI by a
/// method able to establish it.
pub open spec fn callable_abi_ok(
    declaration: DeclarationId,
    expected: CallingConvention,
    a: CallableAbiAssessment,
    probes: Seq<AbiProbeEvidence>,
) -> bool {
    match a {
        CallableAbiAssessment::Confirmed { calling_convention, confidence, probe } => calling_convention == expected
            && confidence != EvidenceConfidence::Inferred && (probe_for(probes, probe) matches Some(p)
            && p.spec_input().subjects@.contains(ProbeSubject::CallableAbi { declaration }) && probe_verifies(
            p,
            ProbeSubject::CallableAbi { declaration },
        ) && p.spec_input().method != ProbeMethod::CompilerLayoutDump),
        _ => false,
    }
}

/// Checks a callable declaration's ABI evidence.
pub fn validate_callable_abi(
    declaration: DeclarationId,
    expected: CallingConvention,
    assessment: &CallableAbiAssessment,
    probes: &[AbiProbeEvidence],
) -> (res: Result<(), ContractError>)
    ensures
        res is Ok <==> callable_abi_ok(declaration, expected, *assessment, probes@),
{
    let (convention, confidence, probe) = match assessment {
        CallableAbiAssessment::Confirmed { calling_convention, confidence, probe } => (*calling_convention, *confidence, *probe),
        _ => {
            return Err(ContractError::RequiredCallableAbiEvidence { declaration });
        },
    };
    if convention != expected || !confidence.is_strictly_measured() {
        return Err(ContractError::RequiredCallableAbiEvidence { declaration });
    }
    let evidence = match find_probe_evidence(probes, probe) {
        Some(evidence) => evidence,
        None => {
            return Err(ContractError::MissingProbeEvidence { probe });
        },
    };
    let subject = ProbeSubject::CallableAbi { declaration };
    if !evidence.supports(subject) || !evidence.verified(subject) {
        return Err(ContractError::ProbeSubjectMismatch { probe, declaration, subject: "callable ABI" });
    }
    if evidence.method() == ProbeMethod::CompilerLayoutDump {
        return Err(ContractError::ProbeMethodMismatch { probe, subject: "callable ABI" });
    }
    Ok(())
}

/// The first outcome for `subject`.
pub open spec fn first_outcome(outcomes: Seq<ProbeSubjectOutcome>, subject: ProbeSubject) -> Option<ProbeSubjectOutcome>
    decreases outcomes.len(),
{
    if outcomes.len() == 0 {
        None
    } else if outcomes[0].spec_subject() == subject {
        Some(outcomes[0])
    } else {
        first_outcome(outcomes.drop_first(), subject)
    }
}

pub(crate) fn find_outcome<'a>(outcomes: &'a [ProbeSubjectOutcome], subject: ProbeSubject) -> (out: Option<&'a ProbeSubjectOutcome>)
    ensures
        match first_outcome(outcomes@, subject) {
            Some(x) => out matches Some(o) && *o == x,
            None => out is None,
        },
{
    let mut i: usize = 0;
    assert(outcomes@.skip(0) =~= outcomes@);
    while i < outcomes.len()
        invariant
            i <= outcomes@.len(),
            first_outcome(outcomes@, subject) == first_outcome(outcomes@.skip(i as int), subject),
        decreases outcomes@.len() - i,
    {
        proof {
            assert(outcomes@.skip(i as int).drop_first() =~= outcomes@.skip(i + 1));
            lemma_subject_sign_facts(outcomes@[i as int].spec_subject(), subject, subject);
        }
        if subject_sign_exec(outcomes[i].subject(), subject) == 0 {
            return Some(&outcomes[i]);
        }
        i = i + 1;
    }
    None
}

/// The shape fingerprint given for the first layout of declaration `d`;
/// `fingerprints` holds one per layout, in the layouts' order.
pub open spec fn layout_fingerprint_for(
    layouts: Seq<LayoutEvidence>,
    fingerprints: Seq<ContentFingerprint>,
    d: DeclarationId,
) -> Option<ContentFingerprint>
    decreases layouts.len(),
{
    if layouts.len() == 0 || fingerprints.len() == 0 {
        None
    } else if layouts[0].spec_declaration() == d {
        Some(fingerprints[0])
    } else {
        layout_fingerprint_for(layouts.drop_first(), fingerprints.drop_first(), d)
    }
}

fn find_layout_fingerprint(layouts: &[LayoutEvidence], fingerprints: &[ContentFingerprint], d: DeclarationId) -> (out: Option<
    ContentFingerprint,
>)
    ensures
        out == layout_fingerprint_for(layouts@, fingerprints@, d),
{
    let mut i: usize = 0;
    assert(layouts@.skip(0) =~= layouts@);
    assert(fingerprints@.skip(0) =~= fingerprints@);
    while i < layouts.len() && i < fingerprints.len()
        invariant
            i <= layouts@.len(),
            i <= fingerprints@.len(),
            layout_fingerprint_for(layouts@, fingerprints@, d) == layout_fingerprint_for(
                layouts@.skip(i as int),
                fingerprints@.skip(i as int),
                d,
            ),
        decreases layouts@.len() - i,
    {
        proof {
            assert(layouts@.skip(i as int).drop_first() =~= layouts@.skip(i + 1));
            assert(fingerprints@.skip(i as int).drop_first() =~= fingerprints@.skip(i + 1));
        }
        if layouts[i].declaration().same(&d) {
            return Some(fingerprints[i]);
        }
        i = i + 1;
    }
    None
}

/// The layout assessment is available and strictly measured, agrees with
/// the declaration's layout record, and cites a probe that verified
/// `subject` with an outcome bound to that layout's shape fingerprint.
pub open spec fn required_layout_ok(
    declaration: DeclarationId,
    e: DeclarationEvidence,
    layouts: Seq<LayoutEvidence>,
    fingerprints: Seq<ContentFingerprint>,
    probes: Seq<AbiProbeEvidence>,
    subject: ProbeSubject,
) -> bool {
    match e.spec_input().layout {
        LayoutAssessment::Available { confidence, probe } => layout_for(layouts, declaration) matches Some(l) && confidence
            != EvidenceConfidence::Inferred && l.spec_confidence() != EvidenceConfidence::Inferred && confidence
            == l.spec_confidence() && probe == l.spec_probe() && (probe_for(probes, probe) matches Some(p)
            && p.spec_input().subjects@.contains(subject) && probe_verifies(p, subject) && (first_outcome(
            p.spec_input().subject_outcomes@,
            subject,
        ) matches Some(o) && (o.spec_status() matches ProbeSubjectStatus::Verified { evidence_fingerprint }
            && layout_fingerprint_for(layouts, fingerprints, declaration) == Some(evidence_fingerprint)))),
        _ => false,
    }
}

/// Checks a record's or enum's required layout evidence.
pub fn validate_required_layout(
    declaration: DeclarationId,
    evidence: &DeclarationEvidence,
    layouts: &[LayoutEvidence],
    fingerprints: &[ContentFingerprint],
    probes: &[AbiProbeEvidence],
    subject: ProbeSubject,
) -> (res: Result<(), ContractError>)
    ensures
        res is Ok <==> required_layout_ok(declaration, *evidence, layouts@, fingerprints@, probes@, subject),
{
    let label = subject_text_exec(subject);
    let (confidence, probe) = match evidence.layout() {
        LayoutAssessment::Available { confidence, probe } => (*confidence, *probe),
        _ => {
            return Err(ContractError::RequiredLayoutEvidence { declaration });
        },
    };
    let layout = match find_layout(layouts, declaration) {
        Some(layout) => layout,
        None => {
            return Err(ContractError::RequiredLayoutEvidence { declaration });
        },
    };
    if !confidence.is_strictly_measured() || !layout.confidence().is_strictly_measured() || confidence != layout.confidence()
        || !probe.same(&layout.probe()) {
        return Err(ContractError::InferredLayoutEvidence { declaration });
    }
    let evidence = match find_probe_evidence(probes, probe) {
        Some(evidence) => evidence,
        None => {
            return Err(ContractError::MissingProbeEvidence { probe });
        },
    };
    if !evidence.supports(subject) || !evidence.verified(subject) {
        return Err(ContractError::ProbeSubjectMismatch { probe, declaration, subject: label });
    }
    let actual = match find_outcome(evidence.subject_outcomes(), subject) {
        Some(outcome) => match outcome.status() {
            ProbeSubjectStatus::Verified { evidence_fingerprint } => *evidence_fingerprint,
            ProbeSubjectStatus::Rejected { .. } => {
                return Err(ContractError::ProbeSubjectMismatch { probe, declaration, subject: label });
            },
        },
        None => {
            return Err(ContractError::ProbeSubjectMismatch { probe, declaration, subject: label });
        },
    };
    let expected = find_layout_fingerprint(layouts, fingerprints, declaration);
    let same = match expected {
        Some(expected) => actual.same(&expected),
        None => false,
    };
    if !same {
        return Err(ContractError::ProbeOutcomeFingerprintMismatch { probe, declaration });
    }
    Ok(())
}

/// Every dimension is "not required" or "not applicable".
pub open spec fn unlinked_ok(e: DeclarationEvidence, layouts: Seq<LayoutEvidence>) -> bool {
    provider_symbol_not_required(e) && no_layout_dimension(e, layouts) && callable_not_applicable(e)
}

/// The evidence a declaration of the closure needs, by its kind, linkage and
/// requirement.
pub open spec fn declaration_covered(
    d: SourceDeclaration,
    requirement: ClosureRequirement,
    e: DeclarationEvidence,
    invs: Seq<SymbolInventory>,
    plan: Seq<ProviderId>,
    layouts: Seq<LayoutEvidence>,
    fingerprints: Seq<ContentFingerprint>,
    probes: Seq<AbiProbeEvidence>,
) -> bool {
    match d.kind {
        SourceDeclarationKind::Function { link_name, calling_convention } => if d.linkage == Linkage::External {
            no_layout_dimension(e, layouts) && linked_refusal(
                link_name@,
                SymbolKind::Function,
                Some(calling_convention),
                e.spec_input(),
                invs,
                plan,
            ) is None && callable_abi_ok(d.id, calling_convention, e.spec_input().callable_abi, probes)
        } else {
            unlinked_ok(e, layouts)
        },
        SourceDeclarationKind::Variable { link_name, thread_local } => if d.linkage == Linkage::External {
            no_layout_dimension(e, layouts) && callable_not_applicable(e) && linked_refusal(
                link_name@,
                if thread_local {
                    SymbolKind::ThreadLocal
                } else {
                    SymbolKind::Data
                },
                None,
                e.spec_input(),
                invs,
                plan,
            ) is None
        } else {
            unlinked_ok(e, layouts)
        },
        SourceDeclarationKind::Record { completeness, .. } => if requirement == ClosureRequirement::Definition && completeness
            == RecordCompleteness::Complete {
            provider_symbol_not_required(e) && callable_not_applicable(e) && required_layout_ok(
                d.id,
                e,
                layouts,
                fingerprints,
                probes,
                ProbeSubject::RecordLayout { declaration: d.id },
            )
        } else {
            unlinked_ok(e, layouts)
        },
        SourceDeclarationKind::Enum { .. } => if requirement == ClosureRequirement::Definition {
            provider_symbol_not_required(e) && callable_not_applicable(e) && required_layout_ok(
                d.id,
                e,
                layouts,
                fingerprints,
                probes,
                ProbeSubject::EnumRepresentation { declaration: d.id },
            )
        } else {
            unlinked_ok(e, layouts)
        },
        _ => unlinked_ok(e, layouts),
    }
}

/// A closure entry names a source declaration with an evidence record that
/// covers it.
pub open spec fn entry_covered(
    entry: ClosureEntry,
    source: CompleteSourcePackage,
    decls: Seq<DeclarationEvidence>,
    invs: Seq<SymbolInventory>,
    plan: Seq<ProviderId>,
    layouts: Seq<LayoutEvidence>,
    fingerprints: Seq<ContentFingerprint>,
    probes: Seq<AbiProbeEvidence>,
) -> bool {
    source_declaration(source.declarations@, entry.declaration) matches Some(d) && (evidence_for(decls, entry.declaration) matches Some(
        e,
    ) && declaration_covered(d, entry.requirement, e, invs, plan, layouts, fingerprints, probes))
}

/// What a closure entry is answered when its checks fail: a declaration
/// outside the source, missing evidence, or, for an external function or
/// variable whose other dimensions pass, the first refusal of its provider
/// and symbol evidence (`linked_refusal`), such as an invisible symbol or
/// several visible providers.
pub open spec fn entry_answer(
    entry: ClosureEntry,
    source: CompleteSourcePackage,
    decls: Seq<DeclarationEvidence>,
    invs: Seq<SymbolInventory>,
    plan: Seq<ProviderId>,
    layouts: Seq<LayoutEvidence>,
    e: ContractError,
) -> bool {
    match source_declaration(source.declarations@, entry.declaration) {
        None => e == ContractError::DeclarationOutsideClosure { declaration: entry.declaration },
        Some(d) => match evidence_for(decls, entry.declaration) {
            None => e == ContractError::RequiredDeclarationEvidence { declaration: entry.declaration },
            Some(ev) => match d.kind {
                SourceDeclarationKind::Function { link_name, calling_convention } => (d.linkage == Linkage::External
                    && no_layout_dimension(ev, layouts) && linked_refusal(
                    link_name@,
                    SymbolKind::Function,
                    Some(calling_convention),
                    ev.spec_input(),
                    invs,
                    plan,
                ) is Some) ==> refusal_is(
                    e,
                    entry.declaration,
                    linked_refusal(link_name@, SymbolKind::Function, Some(calling_convention), ev.spec_input(), invs, plan)->Some_0,
                ),
                SourceDeclarationKind::Variable { link_name, thread_local } => {
                    let kind = if thread_local {
                        SymbolKind::ThreadLocal
                    } else {
                        SymbolKind::Data
                    };
                    (d.linkage == Linkage::External && no_layout_dimension(ev, layouts) && callable_not_applicable(ev)
                        && linked_refusal(link_name@, kind, None, ev.spec_input(), invs, plan) is Some) ==> refusal_is(
                        e,
                        entry.declaration,
                        linked_refusal(link_name@, kind, None, ev.spec_input(), invs, plan)->Some_0,
                    )
                },
                _ => true,
            },
        },
    }
}

/// The answer to the first closure entry, in closure order, that the
/// package does not cover.
pub open spec fn closure_answer(
    source: CompleteSourcePackage,
    decls: Seq<DeclarationEvidence>,
    invs: Seq<SymbolInventory>,
    plan: Seq<ProviderId>,
    layouts: Seq<LayoutEvidence>,
    fingerprints: Seq<ContentFingerprint>,
    probes: Seq<AbiProbeEvidence>,
    e: ContractError,
) -> bool {
    exists|i: int|
        0 <= i < source.closure@.len() && (forall|k: int|
            0 <= k < i ==> entry_covered(#[trigger] source.closure@[k], source, decls, invs, plan, layouts, fingerprints, probes))
            && !entry_covered(source.closure@[i], source, decls, invs, plan, layouts, fingerprints, probes)
            && #[trigger] entry_answer(source.closure@[i], source, decls, invs, plan, layouts, e)
}

fn require_provider_and_symbol_not_required(declaration: DeclarationId, evidence: &DeclarationEvidence) -> (res: Result<
    (),
    ContractError,
>)
    ensures
        res is Ok <==> provider_symbol_not_required(*evidence),
{
    let provider_ok = match evidence.provider() {
        ProviderAssessment::NotRequired => true,
        _ => false,
    };
    let symbol_ok = match evidence.symbol() {
        SymbolAssessment::NotRequired => true,
        _ => false,
    };
    if !provider_ok || !symbol_ok {
        return Err(
            ContractError::IncoherentDeclarationEvidence {
                declaration,
                reason: "non-linked declaration must not carry provider or symbol evidence",
            },
        );
    }
    Ok(())
}

fn require_callable_not_applicable(declaration: DeclarationId, evidence: &DeclarationEvidence) -> (res: Result<(), ContractError>)
    ensures
        res is Ok <==> callable_not_applicable(*evidence),
{
    match evidence.callable_abi() {
        CallableAbiAssessment::NotApplicable => Ok(()),
        _ => Err(
            ContractError::IncoherentDeclarationEvidence {
                declaration,
                reason: "non-callable declaration must mark callable ABI not applicable",
            },
        ),
    }
}

fn validate_no_layout_dimension(declaration: DeclarationId, evidence: &DeclarationEvidence, layouts: &[LayoutEvidence]) -> (res:
    Result<(), ContractError>)
    requires
        declaration == evidence.spec_input().declaration,
    ensures
        res is Ok <==> no_layout_dimension(*evidence, layouts@),
{
    let not_required = match evidence.layout() {
        LayoutAssessment::NotRequired => true,
        _ => false,
    };
    if !not_required || find_layout(layouts, declaration).is_some() {
        return Err(
            ContractError::IncoherentDeclarationEvidence {
                declaration,
                reason: "declaration does not require concrete layout evidence",
            },
        );
    }
    Ok(())
}

fn check_unlinked(declaration: DeclarationId, evidence: &DeclarationEvidence, layouts: &[LayoutEvidence]) -> (res: Result<
    (),
    ContractError,
>)
    requires
        declaration == evidence.spec_input().declaration,
    ensures
        res is Ok <==> unlinked_ok(*evidence, layouts@),
{
    require_provider_and_symbol_not_required(declaration, evidence)?;
    validate_no_layout_dimension(declaration, evidence, layouts)?;
    require_callable_not_applicable(declaration, evidence)
}

fn check_closure_entry(
    entry: &ClosureEntry,
    source: &CompleteSourcePackage,
    decls: &[DeclarationEvidence],
    invs: &[SymbolInventory],
    plan: &[ProviderId],
    layouts: &[LayoutEvidence],
    fingerprints: &[ContentFingerprint],
    probes: &[AbiProbeEvidence],
) -> (res: Result<(), ContractError>)
    ensures
        res is Ok <==> entry_covered(*entry, *source, decls@, invs@, plan@, layouts@, fingerprints@, probes@),
        res matches Err(e) ==> entry_answer(*entry, *source, decls@, invs@, plan@, layouts@, e),
{
    let declaration_id = entry.declaration;
    let declaration = match find_source_declaration(source.declarations.as_slice(), declaration_id) {
        Some(declaration) => declaration,
        None => {
            return Err(ContractError::DeclarationOutsideClosure { declaration: declaration_id });
        },
    };
    let evidence = match find_evidence(decls, declaration_id) {
        Some(evidence) => evidence,
        None => {
            return Err(ContractError::RequiredDeclarationEvidence { declaration: declaration_id });
        },
    };
    proof {
        lemma_source_declaration(source.declarations@, declaration_id);
        lemma_evidence_for(decls@, declaration_id);
    }
    match &declaration.kind {
        SourceDeclarationKind::Function { link_name, calling_convention } => {
            if declaration.linkage == Linkage::External {
                let dimension = validate_no_layout_dimension(declaration_id, evidence, layouts);
                if dimension.is_err() {
                    return dimension;
                }
                let linked = validate_linked_declaration(
                    declaration_id,
                    link_name.as_str(),
                    SymbolKind::Function,
                    Some(*calling_convention),
                    evidence,
                    invs,
                    plan,
                );
                if linked.is_err() {
                    return linked;
                }
                validate_callable_abi(declaration_id, *calling_convention, evidence.callable_abi(), probes)
            } else {
                check_unlinked(declaration_id, evidence, layouts)
            }
        },
        SourceDeclarationKind::Variable { link_name, thread_local } => {
            if declaration.linkage == Linkage::External {
                let dimension = validate_no_layout_dimension(declaration_id, evidence, layouts);
                if dimension.is_err() {
                    return dimension;
                }
                let callable = require_callable_not_applicable(declaration_id, evidence);
                if callable.is_err() {
                    return callable;
                }
                let kind = if *thread_local {
                    SymbolKind::ThreadLocal
                } else {
                    SymbolKind::Data
                };
                validate_linked_declaration(declaration_id, link_name.as_str(), kind, None, evidence, invs, plan)
            } else {
                check_unlinked(declaration_id, evidence, layouts)
            }
        },
        SourceDeclarationKind::Record { completeness, .. } => {
            if entry.requirement == ClosureRequirement::Definition && *completeness == RecordCompleteness::Complete {
                require_provider_and_symbol_not_required(declaration_id, evidence)?;
                require_callable_not_applicable(declaration_id, evidence)?;
                validate_required_layout(
                    declaration_id,
                    evidence,
                    layouts,
                    fingerprints,
                    probes,
                    ProbeSubject::RecordLayout { declaration: declaration_id },
                )
            } else {
                check_unlinked(declaration_id, evidence, layouts)
            }
        },
        SourceDeclarationKind::Enum { .. } => {
            if entry.requirement == ClosureRequirement::Definition {
                require_provider_and_symbol_not_required(declaration_id, evidence)?;
                require_callable_not_applicable(declaration_id, evidence)?;
                validate_required_layout(
                    declaration_id,
                    evidence,
                    layouts,
                    fingerprints,
                    probes,
                    ProbeSubject::EnumRepresentation { declaration: declaration_id },
                )
            } else {
                check_unlinked(declaration_id, evidence, layouts)
            }
        },
        _ => check_unlinked(declaration_id, evidence, layouts),
    }
}

proof fn lemma_source_declaration(decls: Seq<SourceDeclaration>, d: DeclarationId)
    ensures
        source_declaration(decls, d) matches Some(x) ==> x.id == d,
    decreases decls.len(),
{
    if decls.len() > 0 {
        lemma_source_declaration(decls.drop_first(), d);
    }
}

proof fn lemma_evidence_for(decls: Seq<DeclarationEvidence>, d: DeclarationId)
    ensures
        evidence_for(decls, d) matches Some(x) ==> x.spec_input().declaration == d,
    decreases decls.len(),
{
    if decls.len() > 0 {
        lemma_evidence_for(decls.drop_first(), d);
    }
}

/// Evidence found for `d` sits at some position of `decls`.
proof fn lemma_evidence_position(decls: Seq<DeclarationEvidence>, d: DeclarationId)
    requires
        evidence_for(decls, d) is Some,
    ensures
        exists|i: int| 0 <= i < decls.len() && (#[trigger] decls[i]).spec_input().declaration == d,
    decreases decls.len(),
{
    if decls[0].spec_input().declaration != d {
        lemma_evidence_position(decls.drop_first(), d);
        let i = choose|i: int| 0 <= i < decls.drop_first().len() && (#[trigger] decls.drop_first()[i]).spec_input().declaration == d;
        assert(decls[i + 1] == decls.drop_first()[i]);
    } else {
        assert(decls[0].spec_input().declaration == d);
    }
}

/// What a package that covers a source guarantees: it describes that source
/// and target, its policy rejects weak symbols and accepts measured
/// evidence only, no declaration evidence or layout lies outside the
/// closure, and every declaration of the closure has exactly one evidence
/// record.
pub open spec fn covered_package_facts(source: CompleteSourcePackage, package: LinkAnalysisPackage) -> bool {
    &&& package.spec_source_fingerprint() == source.fingerprint
    &&& package.spec_target_fingerprint() == source.target.fingerprint
    &&& strict_policy(package.spec_policy().spec_input())
    &&& forall|i: int|
            0 <= i < package.spec_declarations().len() ==> in_closure(
                source.closure@,
                (#[trigger] package.spec_declarations()[i]).spec_input().declaration,
            )
    &&& forall|i: int|
            0 <= i < package.spec_layouts().len() ==> in_closure(source.closure@, (#[trigger] package.spec_layouts()[i]).spec_declaration())
    &&& forall|k: int|
            0 <= k < source.closure@.len() ==> exists|i: int|
                0 <= i < package.spec_declarations().len() && (#[trigger] package.spec_declarations()[i]).spec_input().declaration
                    == (#[trigger] source.closure@[k]).declaration && forall|j: int|
                    0 <= j < package.spec_declarations().len() && (#[trigger] package.spec_declarations()[j]).spec_input().declaration
                        == source.closure@[k].declaration ==> j == i
}

/// A package that covers a source has the guarantees of `covered_package_facts`.
pub proof fn lemma_covered_package_facts(
    source: CompleteSourcePackage,
    package: LinkAnalysisPackage,
)
    requires
        covers_source(source, package),
        package.spec_valid(),
    ensures
        covered_package_facts(source, package),
{
    let decls = package.spec_declarations();
    assert forall|k: int| 0 <= k < source.closure@.len() implies exists|i: int|
        0 <= i < decls.len() && (#[trigger] decls[i]).spec_input().declaration == (#[trigger] source.closure@[k]).declaration
            && forall|j: int| 0 <= j < decls.len() && (#[trigger] decls[j]).spec_input().declaration == source.closure@[k].declaration ==> j == i by {
        let d = source.closure@[k].declaration;
        assert(entry_covered(
            source.closure@[k],
            source,
            decls,
            package.spec_inventories(),
            plan_providers(package.spec_atoms()),
            package.spec_layouts(),
            layout_fingerprints(package.spec_layouts()),
            package.spec_probes(),
        ));
        lemma_evidence_position(decls, d);
        let i = choose|i: int| 0 <= i < decls.len() && (#[trigger] decls[i]).spec_input().declaration == d;
        assert forall|j: int| 0 <= j < decls.len() && (#[trigger] decls[j]).spec_input().declaration == d implies j == i by {
            if j < i {
                assert(decls[j].spec_input().declaration != decls[i].spec_input().declaration);
            } else if j > i {
                assert(decls[i].spec_input().declaration != decls[j].spec_input().declaration);
            }
        }
    }
}

// ---------------------------------------------------------------------------
// The whole check
// ---------------------------------------------------------------------------

/// A package covers a complete source exactly: it describes this source and
/// target under the strict policy; its probes used the source's compiler and
/// the package's execution and runner policy; its providers match the target;
/// its layouts are measured and describe declarations of the closure with
/// exactly their members; dependencies are planned parent first; its
/// diagnostics and probe subjects refer to the source; and every declaration
/// of the closure has evidence of the kind it needs, each measured layout
/// bound to its own shape fingerprint.
pub open spec fn covers_source(source: CompleteSourcePackage, package: LinkAnalysisPackage) -> bool {
    &&& source_checks_ok(source, package)
    &&& closure_covered(source, package)
}

/// Every closure entry is covered by the package's evidence.
pub open spec fn closure_covered(source: CompleteSourcePackage, package: LinkAnalysisPackage) -> bool {
    forall|i: int|
        0 <= i < source.closure@.len() ==> entry_covered(
            #[trigger] source.closure@[i],
            source,
            package.spec_declarations(),
            package.spec_inventories(),
            plan_providers(package.spec_atoms()),
            package.spec_layouts(),
            layout_fingerprints(package.spec_layouts()),
            package.spec_probes(),
        )
}

/// What `validate_against_source` answers: success exactly when the package
/// covers the source; a foreign source, then a foreign target, refused with
/// the fingerprints' mismatch; and, once every check before the closure
/// passes, the answer to the first closure entry left uncovered.
pub open spec fn against_source_outcome(
    source: CompleteSourcePackage,
    package: LinkAnalysisPackage,
    res: Result<(), ContractError>,
) -> bool {
    &&& res is Ok <==> covers_source(source, package)
    &&& package.spec_source_fingerprint() != source.fingerprint ==> res == Err::<(), ContractError>(
        ContractError::SourceFingerprintMismatch { expected: source.fingerprint, actual: package.spec_source_fingerprint() },
    )
    &&& package.spec_source_fingerprint() == source.fingerprint && package.spec_target_fingerprint() != source.target.fingerprint
        ==> res == Err::<(), ContractError>(
        ContractError::TargetFingerprintMismatch { expected: source.target.fingerprint, actual: package.spec_target_fingerprint() },
    )
    &&& source_checks_ok(source, package) ==> (res matches Err(e) ==> closure_answer(
        source,
        package.spec_declarations(),
        package.spec_inventories(),
        plan_providers(package.spec_atoms()),
        package.spec_layouts(),
        layout_fingerprints(package.spec_layouts()),
        package.spec_probes(),
        e,
    ))
}

/// Every check of a package against a source but the closure coverage.
pub open spec fn source_checks_ok(source: CompleteSourcePackage, package: LinkAnalysisPackage) -> bool {
    let policy = package.spec_policy().spec_input();
    let probes = package.spec_probes();
    let layouts = package.spec_layouts();
    let decls = package.spec_declarations();
    let invs = package.spec_inventories();
    let atoms = package.spec_atoms();
    &&& package.spec_source_fingerprint() == source.fingerprint
    &&& package.spec_target_fingerprint() == source.target.fingerprint
    &&& strict_policy(policy)
    &&& !(probes.len() > 0 && policy.probe == ProbePolicy::Disabled)
    &&& probes_match_source(probes, source, policy)
    &&& inventories_match_target(invs, source.target)
    &&& forall|i: int| 0 <= i < layouts.len() ==> layout_measured(#[trigger] layouts[i])
    &&& forall|i: int| 0 <= i < decls.len() ==> in_closure(source.closure@, (#[trigger] decls[i]).spec_input().declaration)
    &&& forall|i: int|
        0 <= i < layouts.len() ==> in_closure(source.closure@, (#[trigger] layouts[i]).spec_declaration()) && layout_owner_ok(
            source.declarations@,
            layouts[i],
        )
    &&& strict_dependencies_ok(invs, atoms)
    &&& forall|i: int| 0 <= i < package.spec_diagnostics().len() ==> diagnostic_source_ok(
        #[trigger] package.spec_diagnostics()[i],
        source,
        decls,
    )
    &&& probe_subjects_ok(probes, source)
}

fn check_layout_owners(layouts: &[LayoutEvidence], source: &CompleteSourcePackage) -> (res: Result<(), ContractError>)
    ensures
        res is Ok <==> forall|i: int|
            0 <= i < layouts@.len() ==> in_closure(source.closure@, (#[trigger] layouts@[i]).spec_declaration())
                && layout_owner_ok(source.declarations@, layouts@[i]),
{
    let mut i: usize = 0;
    while i < layouts.len()
        invariant
            i <= layouts@.len(),
            forall|k: int|
                0 <= k < i ==> in_closure(source.closure@, (#[trigger] layouts@[k]).spec_declaration()) && layout_owner_ok(
                    source.declarations@,
                    layouts@[k],
                ),
        decreases layouts@.len() - i,
    {
        let declaration = layouts[i].declaration();
        if !closure_contains(source.closure.as_slice(), declaration) {
            return Err(ContractError::DeclarationOutsideClosure { declaration });
        }
        validate_layout_owner(source.declarations.as_slice(), &layouts[i])?;
        i = i + 1;
    }
    Ok(())
}

fn check_closure(
    source: &CompleteSourcePackage,
    decls: &[DeclarationEvidence],
    invs: &[SymbolInventory],
    plan: &[ProviderId],
    layouts: &[LayoutEvidence],
    fingerprints: &[ContentFingerprint],
    probes: &[AbiProbeEvidence],
) -> (res: Result<(), ContractError>)
    ensures
        res is Ok <==> forall|i: int|
            0 <= i < source.closure@.len() ==> entry_covered(
                #[trigger] source.closure@[i],
                *source,
                decls@,
                invs@,
                plan@,
                layouts@,
                fingerprints@,
                probes@,
            ),
        res matches Err(e) ==> closure_answer(*source, decls@, invs@, plan@, layouts@, fingerprints@, probes@, e),
{
    let mut i: usize = 0;
    while i < source.closure.len()
        invariant
            i <= source.closure@.len(),
            forall|k: int|
                0 <= k < i ==> entry_covered(
                    #[trigger] source.closure@[k],
                    *source,
                    decls@,
                    invs@,
                    plan@,
                    layouts@,
                    fingerprints@,
                    probes@,
                ),
        decreases source.closure@.len() - i,
    {
        let entry = check_closure_entry(&source.closure[i], source, decls, invs, plan, layouts, fingerprints, probes);
        if entry.is_err() {
            assert(entry_answer(source.closure@[i as int], *source, decls@, invs@, plan@, layouts@, entry->Err_0));
            return entry;
        }
        i = i + 1;
    }
    Ok(())
}

/// Checks that a package covers a complete source exactly (see
/// `covers_source`).
pub fn validate_against_source(
    source: &CompleteSourcePackage,
    package: &LinkAnalysisPackage,
) -> (res: Result<(), ContractError>)
    ensures
        res is Ok <==> covers_source(*source, *package),
        package.spec_source_fingerprint() != source.fingerprint ==> res == Err::<(), ContractError>(
            ContractError::SourceFingerprintMismatch { expected: source.fingerprint, actual: package.spec_source_fingerprint() },
        ),
        package.spec_source_fingerprint() == source.fingerprint && package.spec_target_fingerprint() != source.target.fingerprint
            ==> res == Err::<(), ContractError>(
            ContractError::TargetFingerprintMismatch {
                expected: source.target.fingerprint,
                actual: package.spec_target_fingerprint(),
            },
        ),
        against_source_outcome(*source, *package, res),
{
    let actual_source = package.source_fingerprint();
    if !actual_source.same(&source.fingerprint) {
        return Err(ContractError::SourceFingerprintMismatch { expected: source.fingerprint, actual: actual_source });
    }
    let actual_target = package.target_fingerprint();
    if !actual_target.same(&source.target.fingerprint) {
        return Err(ContractError::TargetFingerprintMismatch { expected: source.target.fingerprint, actual: actual_target });
    }
    let policy = package.analysis_policy();
    if policy.weak_symbols() != WeakSymbolPolicy::Reject || policy.layout_evidence() != EvidenceAcceptancePolicy::MeasuredOnly
        || policy.callable_abi_evidence() != EvidenceAcceptancePolicy::MeasuredOnly {
        return Err(
            ContractError::InvalidPolicy { reason: "validated analysis requires reject-weak and measured-only evidence policy" },
        );
    }
    let probes = package.abi_probes();
    if probes.len() > 0 && policy.probe() == ProbePolicy::Disabled {
        return Err(ContractError::InvalidPolicy { reason: "disabled probe policy cannot carry ABI probe evidence" });
    }
    check_probes_against_source(probes, source, policy)?;
    let invs = package.inventories();
    check_inventory_targets(invs, &source.target)?;
    let layouts = package.layouts();
    check_layouts_measured(layouts)?;
    let decls = package.declaration_evidence();
    check_evidence_in_closure(decls, source.closure.as_slice())?;
    check_layout_owners(layouts, source)?;
    let atoms = package.resolved_link_plan().atoms();
    let plan = planned_providers(atoms);
    validate_strict_dependencies(invs, atoms)?;
    check_diagnostics_source(package.diagnostics(), source, decls)?;
    validate_probe_subjects_against_source(probes, source)?;
    let fingerprints = fingerprint_layouts(layouts);
    check_closure(source, decls, invs, plan.as_slice(), layouts, fingerprints.as_slice(), probes)
}

/// A package shown to cover a complete source closure exactly.
#[derive(Debug, PartialEq, Eq)]
pub struct ValidatedLinkAnalysis {
    package: LinkAnalysisPackage,
}

impl ValidatedLinkAnalysis {
    pub closed spec fn spec_package(&self) -> LinkAnalysisPackage {
        self.package
    }

    /// Accepts `package` when it covers `source` exactly.
    pub fn try_new(source: &CompleteSourcePackage, package: LinkAnalysisPackage) -> (res: Result<Self, ContractError>)
        ensures
            res is Ok <==> covers_source(*source, package),
            res matches Ok(v) ==> v.spec_package() == package && covered_package_facts(*source, package),
            res matches Err(e) ==> against_source_outcome(*source, package, Err(e)),
    {
        match validate_against_source(source, &package) {
            Ok(()) => {
                package.witness_valid();
                proof {
                    lemma_covered_package_facts(*source, package);
                }
                Ok(ValidatedLinkAnalysis { package })
            },
            Err(e) => Err(e),
        }
    }

    pub fn package(&self) -> (out: &LinkAnalysisPackage)
        ensures
            *out == self.spec_package(),
    {
        &self.package
    }

    pub fn into_package(self) -> (out: LinkAnalysisPackage)
        ensures
            out == self.spec_package(),
    {
        self.package
    }
}

} // verus!
