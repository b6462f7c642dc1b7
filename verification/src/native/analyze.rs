//! The analyzer boundary: one resolver and the strict evidence validator.
use vstd::prelude::*;

use super::error::NativeError;
use super::inspect::InspectionLimits;
use super::resolve::{LibraryPreference, NativeResolution, NativeResolver};
use super::validate::{
    declaration_verdict, exact_evidence, AbiShapeEvidence, DeclarationVerdict, StrictDeclarationRequest,
    StrictEvidenceValidator,
};
use crate::contract::model::is_valid_text;
use crate::contract::order::{compare_bytes, lex_sign};
use crate::contract::validated::{ClosureEntry, Linkage};
use crate::contract::analysis::layout_for;
use crate::contract::diagnostic::{DiagnosticEvidenceRef, LincDiagnostic};
use crate::contract::evidence::{
    CallableAbiAssessment, DeclarationEvidence, DeclarationEvidenceInput, LayoutAssessment, ProviderAssessment,
    SymbolAssessment,
};
use crate::contract::layout::LayoutEvidence;
use crate::contract::model::SymbolDecoration;
use crate::contract::probe::AbiProbeEvidence;
use crate::contract::validated::{
    closure_contains, find_source_declaration, in_closure, source_declaration, ClosureRequirement, CompleteSourcePackage,
    RecordCompleteness, SourceDeclaration, SourceDeclarationKind,
};
use crate::contract::DeclarationId;
use crate::contract::analysis::{built_from, canonical_arrangement_valid, LinkAnalysisPackage, LinkAnalysisPackageInput};
use crate::contract::validated::against_source_outcome;
use crate::contract::ContractError;
use crate::contract::canonical::SortKey;
use crate::contract::model::NativeInput;
use crate::contract::request::AnalysisPolicy;
use crate::contract::validated::{covered_package_facts, covers_source, ValidatedLinkAnalysis};
use vstd::string::StringExecFns;

verus! {

/// Resolves providers and validates their evidence as one operation.
#[derive(Debug, Clone)]
pub struct NativeAnalyzer {
    resolver: NativeResolver,
    validator: StrictEvidenceValidator,
}

impl NativeAnalyzer {
    pub closed spec fn spec_resolver(&self) -> NativeResolver {
        self.resolver
    }

    /// An analyzer around `resolver`.
    pub fn new(resolver: NativeResolver) -> (out: Self)
        ensures
            out.spec_resolver() == resolver,
    {
        NativeAnalyzer { resolver, validator: StrictEvidenceValidator }
    }

    /// An analyzer around the default resolver.
    pub fn with_defaults() -> (out: Self)
        ensures
            out.spec_resolver().spec_inspector().spec_limits() == InspectionLimits::default_limits_spec(),
            out.spec_resolver().spec_configuration().spec_search_paths() == Seq::<Seq<u8>>::empty(),
            out.spec_resolver().spec_configuration().spec_max_transitive() == super::resolve::DEFAULT_MAX_TRANSITIVE_DEPENDENCIES,
            out.spec_resolver().spec_configuration().spec_preference() == LibraryPreference::DynamicOnly,
    {
        NativeAnalyzer::new(NativeResolver::with_defaults())
    }

    pub fn resolver(&self) -> (out: &NativeResolver)
        ensures
            *out == self.spec_resolver(),
    {
        &self.resolver
    }

    pub fn validator(&self) -> (out: StrictEvidenceValidator)
        ensures
            out == StrictEvidenceValidator,
    {
        self.validator
    }
}

/// A strict-validation request for one linked source declaration: its
/// symbol decoration and callable evidence. Provider and symbol facts come
/// from the analyzer's own resolution.
#[derive(Debug, Clone, PartialEq, Eq)]
pub struct NativeDeclarationRequest {
    declaration: DeclarationId,
    decoration: SymbolDecoration,
    callable_abi: CallableAbiAssessment,
    abi_shape: Option<AbiShapeEvidence>,
}

impl NativeDeclarationRequest {
    pub closed spec fn spec_declaration(&self) -> DeclarationId {
        self.declaration
    }

    pub closed spec fn spec_decoration(&self) -> SymbolDecoration {
        self.decoration
    }

    pub closed spec fn spec_callable_abi(&self) -> CallableAbiAssessment {
        self.callable_abi
    }

    pub closed spec fn spec_abi_shape(&self) -> Option<AbiShapeEvidence> {
        self.abi_shape
    }

    pub fn new(
        declaration: DeclarationId,
        decoration: SymbolDecoration,
        callable_abi: CallableAbiAssessment,
        abi_shape: Option<AbiShapeEvidence>,
    ) -> (out: Self)
        ensures
            out.spec_declaration() == declaration,
            out.spec_decoration() == decoration,
            out.spec_callable_abi() == callable_abi,
            out.spec_abi_shape() == abi_shape,
    {
        NativeDeclarationRequest { declaration, decoration, callable_abi, abi_shape }
    }

    pub fn declaration(&self) -> (out: DeclarationId)
        ensures
            out == self.spec_declaration(),
    {
        self.declaration
    }

    pub fn decoration(&self) -> (out: &SymbolDecoration)
        ensures
            *out == self.spec_decoration(),
    {
        &self.decoration
    }

    pub fn callable_abi(&self) -> (out: &CallableAbiAssessment)
        ensures
            *out == self.spec_callable_abi(),
    {
        &self.callable_abi
    }

    pub fn abi_shape(&self) -> (out: Option<&AbiShapeEvidence>)
        ensures
            match self.spec_abi_shape() {
                Some(shape) => out matches Some(o) && *o == shape,
                None => out is None,
            },
    {
        match &self.abi_shape {
            Some(shape) => Some(shape),
            None => None,
        }
    }
}

/// The measured inputs the analyzer consumes beside its own resolution.
#[derive(Debug, Clone, PartialEq, Eq, Default)]
pub struct NativeAnalysisInput {
    pub abi_probes: Vec<AbiProbeEvidence>,
    pub layouts: Vec<LayoutEvidence>,
    pub declarations: Vec<NativeDeclarationRequest>,
    pub diagnostics: Vec<LincDiagnostic>,
}

/// Refuses two requests for the same declaration.
pub fn check_request_ids(declarations: &[NativeDeclarationRequest]) -> (res: Result<(), NativeError>)
    ensures
        res is Ok <==> forall|i: int, j: int|
            0 <= i < j < declarations@.len() ==> (#[trigger] declarations@[i]).spec_declaration()
                != (#[trigger] declarations@[j]).spec_declaration(),
        res matches Err(e) ==> e is InvalidPolicy,
{
    let mut i: usize = 0;
    while i < declarations.len()
        invariant
            i <= declarations@.len(),
            forall|a: int, b: int|
                0 <= a < b < i ==> (#[trigger] declarations@[a]).spec_declaration() != (#[trigger] declarations@[b]).spec_declaration(),
        decreases declarations@.len() - i,
    {
        let id = declarations[i].declaration();
        let mut j: usize = 0;
        while j < i
            invariant
                j <= i < declarations@.len(),
                id == declarations@[i as int].spec_declaration(),
                forall|k: int| 0 <= k < j ==> (#[trigger] declarations@[k]).spec_declaration() != id,
            decreases i - j,
        {
            if declarations[j].declaration().same(&id) {
                proof {
                    assert(declarations@[j as int].spec_declaration() == declarations@[i as int].spec_declaration());
                }
                return Err(
                    NativeError::InvalidPolicy {
                        detail: "duplicate strict declaration request ".to_owned().concat(id.to_string().as_str()),
                    },
                );
            }
            j = j + 1;
        }
        i = i + 1;
    }
    Ok(())
}

/// Every explicit probe, layout and diagnostic is bound to the source and
/// target, and layout references in diagnostics stay inside the closure.
pub open spec fn explicit_evidence_ok(
    source: CompleteSourcePackage,
    probes: Seq<AbiProbeEvidence>,
    layouts: Seq<LayoutEvidence>,
    diags: Seq<LincDiagnostic>,
) -> bool {
    &&& forall|i: int|
        0 <= i < probes.len() ==> (#[trigger] probes[i]).spec_input().source_fingerprint == source.fingerprint
            && probes[i].spec_input().target_fingerprint == source.target.fingerprint
    &&& forall|i: int|
        0 <= i < layouts.len() ==> (#[trigger] layouts[i]).spec_source_fingerprint() == source.fingerprint
            && layouts[i].spec_target_fingerprint() == source.target.fingerprint
    &&& forall|i: int|
        0 <= i < diags.len() ==> (#[trigger] diags[i]).spec_context().spec_target_fingerprint() == source.target.fingerprint
            && (diags[i].spec_context().spec_evidence() matches Some(DiagnosticEvidenceRef::Layout { declaration }) ==> in_closure(
            source.closure@,
            declaration,
        ))
}

/// Checks that the explicit evidence handed to the analyzer belongs to this
/// source and target.
pub fn validate_explicit_evidence(source: &CompleteSourcePackage, input: &NativeAnalysisInput) -> (res: Result<(), NativeError>)
    ensures
        res is Ok <==> explicit_evidence_ok(*source, input.abi_probes@, input.layouts@, input.diagnostics@),
        res matches Err(e) ==> (e is InvalidPolicy || e is AbiMismatch),
{
    let expected_source = source.fingerprint;
    let expected_target = source.target.fingerprint;
    let mut i: usize = 0;
    while i < input.abi_probes.len()
        invariant
            i <= input.abi_probes@.len(),
            expected_source == source.fingerprint,
            expected_target == source.target.fingerprint,
            forall|k: int|
                0 <= k < i ==> (#[trigger] input.abi_probes@[k]).spec_input().source_fingerprint == source.fingerprint
                    && input.abi_probes@[k].spec_input().target_fingerprint == source.target.fingerprint,
        decreases input.abi_probes@.len() - i,
    {
        let probe = &input.abi_probes[i];
        if !probe.source_fingerprint().same(&expected_source) || !probe.target_fingerprint().same(&expected_target) {
            return Err(
                NativeError::InvalidPolicy {
                    detail: "probe ".to_owned().concat(probe.id().to_string().as_str()).concat(
                        " has stale source or target fingerprints",
                    ),
                },
            );
        }
        i = i + 1;
    }
    let mut i: usize = 0;
    while i < input.layouts.len()
        invariant
            i <= input.layouts@.len(),
            expected_source == source.fingerprint,
            expected_target == source.target.fingerprint,
            forall|k: int|
                0 <= k < i ==> (#[trigger] input.layouts@[k]).spec_source_fingerprint() == source.fingerprint
                    && input.layouts@[k].spec_target_fingerprint() == source.target.fingerprint,
        decreases input.layouts@.len() - i,
    {
        let layout = &input.layouts[i];
        if !layout.source_fingerprint().same(&expected_source) || !layout.target_fingerprint().same(&expected_target) {
            return Err(
                NativeError::AbiMismatch {
                    declaration: layout.declaration(),
                    detail: "layout has stale source or target fingerprints".to_owned(),
                },
            );
        }
        i = i + 1;
    }
    let mut i: usize = 0;
    while i < input.diagnostics.len()
        invariant
            i <= input.diagnostics@.len(),
            expected_target == source.target.fingerprint,
            forall|k: int|
                0 <= k < i ==> (#[trigger] input.diagnostics@[k]).spec_context().spec_target_fingerprint()
                    == source.target.fingerprint && (input.diagnostics@[k].spec_context().spec_evidence() matches Some(
                    DiagnosticEvidenceRef::Layout { declaration },
                ) ==> in_closure(source.closure@, declaration)),
        decreases input.diagnostics@.len() - i,
    {
        let diagnostic = &input.diagnostics[i];
        if !diagnostic.context().target_fingerprint().same(&expected_target) {
            return Err(
                NativeError::InvalidPolicy {
                    detail: "diagnostic ".to_owned().concat(diagnostic.code().as_str()).concat(
                        " has a stale target fingerprint",
                    ),
                },
            );
        }
        if let Some(DiagnosticEvidenceRef::Layout { declaration }) = diagnostic.context().evidence() {
            if !closure_contains(source.closure.as_slice(), *declaration) {
                return Err(
                    NativeError::InvalidPolicy {
                        detail: "diagnostic layout reference ".to_owned().concat(declaration.to_string().as_str()).concat(
                            " is outside the source closure",
                        ),
                    },
                );
            }
        }
        i = i + 1;
    }
    Ok(())
}

/// A record that is complete and needed as a definition, or an enum needed
/// as a definition, requires a measured layout.
pub open spec fn requires_layout(d: SourceDeclaration, requirement: ClosureRequirement) -> bool {
    match d.kind {
        SourceDeclarationKind::Record { completeness, .. } => requirement == ClosureRequirement::Definition && completeness
            == RecordCompleteness::Complete,
        SourceDeclarationKind::Enum { .. } => requirement == ClosureRequirement::Definition,
        _ => false,
    }
}

/// How many layouts describe declaration `d`.
pub open spec fn layout_count(layouts: Seq<LayoutEvidence>, d: DeclarationId) -> nat
    decreases layouts.len(),
{
    if layouts.len() == 0 {
        0
    } else {
        layout_count(layouts.drop_last(), d) + if layouts.last().spec_declaration() == d {
            1nat
        } else {
            0nat
        }
    }
}

/// The evidence record of a closure member that links nothing: provider,
/// symbol and callable dimensions not required, and a layout assessment
/// citing the declaration's one measured layout when it needs one.
pub open spec fn unlinked_input(
    source: CompleteSourcePackage,
    declaration: DeclarationId,
    layout: LayoutAssessment,
) -> DeclarationEvidenceInput {
    DeclarationEvidenceInput {
        declaration,
        source_fingerprint: source.fingerprint,
        target_fingerprint: source.target.fingerprint,
        provider: ProviderAssessment::NotRequired,
        symbol: SymbolAssessment::NotRequired,
        layout,
        callable_abi: CallableAbiAssessment::NotApplicable,
    }
}

proof fn lemma_layout_count_first(layouts: Seq<LayoutEvidence>, d: DeclarationId)
    ensures
        layout_count(layouts, d) > 0 <==> layout_for(layouts, d) is Some,
        layout_for(layouts, d) matches Some(l) ==> l.spec_declaration() == d,
    decreases layouts.len(),
{
    if layouts.len() > 0 {
        lemma_layout_count_first(layouts.drop_last(), d);
        lemma_layout_for_push(layouts.drop_last(), layouts.last(), d);
        assert(layouts.drop_last().push(layouts.last()) =~= layouts);
    }
}

proof fn lemma_layout_for_push(layouts: Seq<LayoutEvidence>, x: LayoutEvidence, d: DeclarationId)
    ensures
        layout_for(layouts.push(x), d) == if layout_for(layouts, d) is Some {
            layout_for(layouts, d)
        } else if x.spec_declaration() == d {
            Some(x)
        } else {
            None
        },
    decreases layouts.len(),
{
    assert(layouts.push(x)[0] == if layouts.len() > 0 {
        layouts[0]
    } else {
        x
    });
    if layouts.len() > 0 {
        assert(layouts.push(x).drop_first() =~= layouts.drop_first().push(x));
        lemma_layout_for_push(layouts.drop_first(), x, d);
    } else {
        assert(layouts.push(x).drop_first() =~= Seq::<LayoutEvidence>::empty());
    }
}

/// The evidence record of a closure member that links nothing.
pub fn unlinked_evidence(
    source: &CompleteSourcePackage,
    declaration: DeclarationId,
    requirement: ClosureRequirement,
    layouts: &[LayoutEvidence],
) -> (res: Result<DeclarationEvidence, NativeError>)
    ensures
        match source_declaration(source.declarations@, declaration) {
            None => res matches Err(NativeError::InvalidPolicy { .. }),
            Some(d) => if !requires_layout(d, requirement) {
                (res matches Ok(e) && e.spec_input() == unlinked_input(*source, declaration, LayoutAssessment::NotRequired))
            } else if layout_count(layouts@, declaration) == 0 {
                (res matches Err(NativeError::AbiMismatch { declaration: x, detail }) && x == declaration && detail@
                    == "definition-required source type has no measured layout"@)
            } else if layout_count(layouts@, declaration) > 1 {
                (res matches Err(NativeError::AbiMismatch { declaration: x, detail }) && x == declaration && detail@
                    == "source type has duplicate measured layouts"@)
            } else {
                (layout_for(layouts@, declaration) matches Some(l) && res matches Ok(e) && e.spec_input()
                    == unlinked_input(
                    *source,
                    declaration,
                    LayoutAssessment::Available { confidence: l.spec_confidence(), probe: l.spec_probe() },
                ))
            },
        },
{
    let owner = match find_source_declaration(source.declarations.as_slice(), declaration) {
        Some(owner) => owner,
        None => {
            return Err(
                NativeError::InvalidPolicy {
                    detail: "closure declaration ".to_owned().concat(declaration.to_string().as_str()).concat(" is missing"),
                },
            );
        },
    };
    let needs = match &owner.kind {
        SourceDeclarationKind::Record { completeness, .. } => requirement == ClosureRequirement::Definition && *completeness
            == RecordCompleteness::Complete,
        SourceDeclarationKind::Enum { .. } => requirement == ClosureRequirement::Definition,
        _ => false,
    };
    let layout = if needs {
        let mut first: Option<&LayoutEvidence> = None;
        let mut count: usize = 0;
        let mut i: usize = 0;
        while i < layouts.len()
            invariant
                i <= layouts@.len(),
                count as nat == layout_count(layouts@.take(i as int), declaration),
                count <= i,
                match layout_for(layouts@.take(i as int), declaration) {
                    Some(l) => first == Some(&l),
                    None => first is None,
                },
            decreases layouts@.len() - i,
        {
            proof {
                assert(layouts@.take(i + 1).drop_last() =~= layouts@.take(i as int));
                assert(layouts@.take(i + 1) =~= layouts@.take(i as int).push(layouts@[i as int]));
                lemma_layout_for_push(layouts@.take(i as int), layouts@[i as int], declaration);
            }
            if layouts[i].declaration().same(&declaration) {
                count = count + 1;
                if first.is_none() {
                    first = Some(&layouts[i]);
                }
            }
            i = i + 1;
        }
        proof {
            assert(layouts@.take(layouts@.len() as int) =~= layouts@);
        }
        if count == 0 {
            return Err(
                NativeError::AbiMismatch {
                    declaration,
                    detail: "definition-required source type has no measured layout".to_owned(),
                },
            );
        }
        if count > 1 {
            return Err(
                NativeError::AbiMismatch { declaration, detail: "source type has duplicate measured layouts".to_owned() },
            );
        }
        proof {
            lemma_layout_count_first(layouts@, declaration);
        }
        let evidence = match first {
            Some(evidence) => evidence,
            None => {
                return Err(
                    NativeError::AbiMismatch {
                        declaration,
                        detail: "definition-required source type has no measured layout".to_owned(),
                    },
                );
            },
        };
        LayoutAssessment::Available { confidence: evidence.confidence(), probe: evidence.probe() }
    } else {
        LayoutAssessment::NotRequired
    };
    let input = DeclarationEvidenceInput {
        declaration,
        source_fingerprint: source.fingerprint,
        target_fingerprint: source.target.fingerprint,
        provider: ProviderAssessment::NotRequired,
        symbol: SymbolAssessment::NotRequired,
        layout,
        callable_abi: CallableAbiAssessment::NotApplicable,
    };
    match DeclarationEvidence::try_new(input) {
        Ok(evidence) => Ok(evidence),
        Err(e) => Err(NativeError::Contract(e)),
    }
}


// ---------------------------------------------------------------------------
// Evidence for the whole closure
// ---------------------------------------------------------------------------

/// A source declaration that links a provider symbol: an external function
/// or variable.
pub open spec fn is_linked(d: SourceDeclaration) -> bool {
    (d.kind is Function || d.kind is Variable) && d.linkage == Linkage::External
}

/// No two requests name the same declaration.
pub open spec fn request_ids_distinct(reqs: Seq<NativeDeclarationRequest>) -> bool {
    forall|i: int, j: int|
        0 <= i < j < reqs.len() ==> (#[trigger] reqs[i]).spec_declaration() != (#[trigger] reqs[j]).spec_declaration()
}

pub open spec fn has_request(reqs: Seq<NativeDeclarationRequest>, d: DeclarationId) -> bool {
    exists|k: int| 0 <= k < reqs.len() && (#[trigger] reqs[k]).spec_declaration() == d
}

/// The request for declaration `d`.
pub open spec fn request_for(reqs: Seq<NativeDeclarationRequest>, d: DeclarationId) -> int {
    choose|k: int| 0 <= k < reqs.len() && (#[trigger] reqs[k]).spec_declaration() == d
}

/// Entry `i` is the first closure entry that names its declaration.
pub open spec fn first_entry(closure: Seq<ClosureEntry>, i: int) -> bool {
    forall|j: int| 0 <= j < i ==> (#[trigger] closure[j]).declaration != closure[i].declaration
}

/// The verdict of the strict validator on the request for a linked
/// declaration, with no declaration layout.
pub open spec fn request_verdict(
    source: CompleteSourcePackage,
    resolution: NativeResolution,
    req: NativeDeclarationRequest,
    shape_ok: bool,
) -> DeclarationVerdict {
    declaration_verdict(
        source,
        resolution,
        req.spec_declaration(),
        req.spec_decoration(),
        LayoutAssessment::NotRequired,
        req.spec_callable_abi(),
        req.spec_abi_shape(),
        shape_ok,
    )
}

/// Whether closure entry `i` yields evidence: its declaration is in the
/// source; a linked one has a request, met at its first entry, that the
/// strict validator accepts with valid names; an unlinked one that needs a
/// layout has exactly one.
pub open spec fn entry_yields(
    source: CompleteSourcePackage,
    resolution: NativeResolution,
    layouts: Seq<LayoutEvidence>,
    reqs: Seq<NativeDeclarationRequest>,
    checks: Seq<Result<(), NativeError>>,
    i: int,
) -> bool {
    let entry = source.closure@[i];
    match source_declaration(source.declarations@, entry.declaration) {
        None => false,
        Some(d) => if is_linked(d) {
            &&& first_entry(source.closure@, i)
            &&& has_request(reqs, entry.declaration)
            &&& request_verdict(source, resolution, reqs[request_for(reqs, entry.declaration)], checks[request_for(reqs, entry.declaration)] is Ok)
                matches DeclarationVerdict::Accepted { symbol, expected_name, .. }
            &&& is_valid_text(expected_name)
            &&& is_valid_text(symbol.spec_input().name@)
        } else {
            requires_layout(d, entry.requirement) ==> layout_count(layouts, entry.declaration) == 1
        },
    }
}

/// The evidence of closure entry `i`.
pub open spec fn entry_evidence(
    e: DeclarationEvidenceInput,
    source: CompleteSourcePackage,
    resolution: NativeResolution,
    layouts: Seq<LayoutEvidence>,
    reqs: Seq<NativeDeclarationRequest>,
    checks: Seq<Result<(), NativeError>>,
    i: int,
) -> bool {
    let entry = source.closure@[i];
    match source_declaration(source.declarations@, entry.declaration) {
        None => false,
        Some(d) => if is_linked(d) {
            let req = reqs[request_for(reqs, entry.declaration)];
            &&& request_verdict(source, resolution, req, checks[request_for(reqs, entry.declaration)] is Ok)
                matches DeclarationVerdict::Accepted { artifact, symbol, expected_name, kind }
            &&& exact_evidence(
                e,
                source,
                entry.declaration,
                req.spec_decoration(),
                LayoutAssessment::NotRequired,
                req.spec_callable_abi(),
                artifact,
                symbol,
                expected_name,
                kind,
            )
        } else if requires_layout(d, entry.requirement) {
            layout_for(layouts, entry.declaration) matches Some(l) && e == unlinked_input(
                source,
                entry.declaration,
                LayoutAssessment::Available { confidence: l.spec_confidence(), probe: l.spec_probe() },
            )
        } else {
            e == unlinked_input(source, entry.declaration, LayoutAssessment::NotRequired)
        },
    }
}

/// Declaration `d` of the source is linked.
pub open spec fn linked_declaration(source: CompleteSourcePackage, d: DeclarationId) -> bool {
    source_declaration(source.declarations@, d) matches Some(x) && is_linked(x)
}

/// One of the first `n` closure entries names the linked declaration `d`.
pub open spec fn consumed(source: CompleteSourcePackage, n: int, d: DeclarationId) -> bool {
    exists|j: int| 0 <= j < n && (#[trigger] source.closure@[j]).declaration == d && linked_declaration(source, d)
}

/// Every request names a linked declaration of the closure.
pub open spec fn requests_in_closure(source: CompleteSourcePackage, reqs: Seq<NativeDeclarationRequest>) -> bool {
    forall|k: int| 0 <= k < reqs.len() ==> consumed(source, source.closure@.len() as int, (#[trigger] reqs[k]).spec_declaration())
}

proof fn lemma_consumed_step(source: CompleteSourcePackage, n: int, d: DeclarationId)
    requires
        0 <= n < source.closure@.len(),
    ensures
        consumed(source, n + 1, d) <==> (consumed(source, n, d) || (source.closure@[n].declaration == d
            && linked_declaration(source, d))),
{
    if consumed(source, n + 1, d) && !(source.closure@[n].declaration == d && linked_declaration(source, d)) {
        let j = choose|j: int| 0 <= j < n + 1 && (#[trigger] source.closure@[j]).declaration == d && linked_declaration(source, d);
        assert(j < n);
    }
    if source.closure@[n].declaration == d && linked_declaration(source, d) {
        assert(source.closure@[n].declaration == d);
    }
}

fn find_id(ids: &Vec<DeclarationId>, d: DeclarationId) -> (out: Option<usize>)
    ensures
        match out {
            Some(k) => k < ids@.len() && ids@[k as int] == d,
            None => forall|t: int| 0 <= t < ids@.len() ==> ids@[t] != d,
        },
{
    let mut k: usize = 0;
    while k < ids.len()
        invariant
            k <= ids@.len(),
            forall|t: int| 0 <= t < k ==> ids@[t] != d,
        decreases ids@.len() - k,
    {
        if ids[k].same(&d) {
            return Some(k);
        }
        k = k + 1;
    }
    None
}

fn take_all<T>(items: Vec<T>) -> (out: Vec<Option<T>>)
    ensures
        out@.len() == items@.len(),
        forall|k: int| 0 <= k < items@.len() ==> out@[k] == Some(#[trigger] items@[k]),
{
    let ghost orig = items@;
    let mut rest = items;
    let mut out: Vec<Option<T>> = Vec::new();
    while rest.len() > 0
        invariant
            out@.len() + rest@.len() == orig.len(),
            rest@ == orig.skip(out@.len() as int),
            forall|k: int| 0 <= k < out@.len() ==> out@[k] == Some(orig[k]),
        decreases rest@.len(),
    {
        let ghost n: int = out@.len() as int;
        let x = rest.remove(0);
        out.push(Some(x));
        proof {
            assert(rest@ =~= orig.skip(n + 1));
        }
    }
    out
}

fn is_linked_exec(d: &SourceDeclaration) -> (out: bool)
    ensures
        out == is_linked(*d),
{
    let kind_linked = match &d.kind {
        SourceDeclarationKind::Function { .. } | SourceDeclarationKind::Variable { .. } => true,
        _ => false,
    };
    kind_linked && d.linkage == Linkage::External
}

impl NativeAnalyzer {
    /// The evidence of every closure member, in closure order: a linked
    /// member through the strict validator with its request (whose shape
    /// verdict is the matching entry of `shape_checks`), any other member
    /// through its layout. Duplicate requests, members without a request and
    /// requests that name no linked member are refused.
    #[verifier::rlimit(60)]
    pub fn closure_evidence(
        &self,
        source: &CompleteSourcePackage,
        resolution: &NativeResolution,
        layouts: &[LayoutEvidence],
        declarations: Vec<NativeDeclarationRequest>,
        shape_checks: Vec<Result<(), NativeError>>,
    ) -> (res: Result<Vec<DeclarationEvidence>, NativeError>)
        requires
            shape_checks@.len() == declarations@.len(),
        ensures
            !request_ids_distinct(declarations@) ==> res matches Err(NativeError::InvalidPolicy { .. }),
            res is Ok <==> {
                &&& request_ids_distinct(declarations@)
                &&& forall|i: int| 0 <= i < source.closure@.len() ==> entry_yields(*source, *resolution, layouts@, declarations@, shape_checks@, i)
                &&& requests_in_closure(*source, declarations@)
            },
            res matches Ok(v) ==> v@.len() == source.closure@.len() && forall|i: int|
                0 <= i < v@.len() ==> entry_evidence(
                    (#[trigger] v@[i]).spec_input(),
                    *source,
                    *resolution,
                    layouts@,
                    declarations@,
                    shape_checks@,
                    i,
                ),
    {
        let ghost reqs = declarations@;
        let ghost checks = shape_checks@;
        match check_request_ids(declarations.as_slice()) {
            Ok(()) => {},
            Err(e) => {
                return Err(e);
            },
        }
        let ids: Vec<DeclarationId> = {
            let mut ids: Vec<DeclarationId> = Vec::new();
            let mut k: usize = 0;
            while k < declarations.len()
                invariant
                    k <= declarations@.len(),
                    ids@.len() == k,
                    forall|t: int| 0 <= t < k ==> ids@[t] == (#[trigger] declarations@[t]).spec_declaration(),
                decreases declarations@.len() - k,
            {
                ids.push(declarations[k].declaration());
                k = k + 1;
            }
            ids
        };
        let mut requests = take_all(declarations);
        let mut verdicts = take_all(shape_checks);
        let mut evidence: Vec<DeclarationEvidence> = Vec::new();
        let closure = source.closure.as_slice();
        let mut i: usize = 0;
        while i < closure.len()
            invariant
                i <= closure@.len(),
                closure@ == source.closure@,
                reqs == declarations@,
                checks == shape_checks@,
                request_ids_distinct(reqs),
                reqs.len() == checks.len(),
                ids@.len() == reqs.len(),
                forall|t: int| 0 <= t < reqs.len() ==> ids@[t] == (#[trigger] reqs[t]).spec_declaration(),
                requests@.len() == reqs.len(),
                verdicts@.len() == reqs.len(),
                forall|t: int|
                    0 <= t < reqs.len() ==> (consumed(*source, i as int, #[trigger] reqs[t].spec_declaration())
                        ==> requests@[t] is None && verdicts@[t] is None),
                forall|t: int|
                    0 <= t < reqs.len() ==> (!consumed(*source, i as int, #[trigger] reqs[t].spec_declaration())
                        ==> requests@[t] == Some(reqs[t]) && verdicts@[t] == Some(checks[t])),
                evidence@.len() == i,
                forall|j: int| 0 <= j < i ==> entry_yields(*source, *resolution, layouts@, reqs, checks, j),
                forall|j: int|
                    0 <= j < i ==> entry_evidence(
                        (#[trigger] evidence@[j]).spec_input(),
                        *source,
                        *resolution,
                        layouts@,
                        reqs,
                        checks,
                        j,
                    ),
            decreases closure@.len() - i,
        {
            let entry = &closure[i];
            let ghost n = i as int;
            let declaration = match find_source_declaration(source.declarations.as_slice(), entry.declaration) {
                Some(d) => d,
                None => {
                    proof {
                        assert(!entry_yields(*source, *resolution, layouts@, reqs, checks, n));
                    }
                    return Err(
                        NativeError::InvalidPolicy {
                            detail: "complete source closure lost declaration ".to_owned().concat(
                                entry.declaration.to_string().as_str(),
                            ),
                        },
                    );
                },
            };
            proof {
                assert forall|t: int| 0 <= t < reqs.len() implies consumed(*source, n + 1, #[trigger] reqs[t].spec_declaration())
                    <==> (consumed(*source, n, reqs[t].spec_declaration()) || (entry.declaration == reqs[t].spec_declaration()
                    && linked_declaration(*source, entry.declaration))) by {
                    lemma_consumed_step(*source, n, reqs[t].spec_declaration());
                }
            }
            if is_linked_exec(declaration) {
                let found = find_id(&ids, entry.declaration);
                let slot = match found {
                    Some(k) => k,
                    None => {
                        proof {
                            if has_request(reqs, entry.declaration) {
                                let k = choose|k: int| 0 <= k < reqs.len() && (#[trigger] reqs[k]).spec_declaration() == entry.declaration;
                                assert(ids@[k] == reqs[k].spec_declaration());
                            }
                            assert(!entry_yields(*source, *resolution, layouts@, reqs, checks, n));
                        }
                        return Err(
                            NativeError::AbiMismatch {
                                declaration: entry.declaration,
                                detail: "linked closure member has no strict declaration request".to_owned(),
                            },
                        );
                    },
                };
                proof {
                    assert(reqs[slot as int].spec_declaration() == entry.declaration);
                    assert(has_request(reqs, entry.declaration));
                    let k = request_for(reqs, entry.declaration);
                    if k != slot as int {
                        if k < slot as int {
                            assert(reqs[k].spec_declaration() != reqs[slot as int].spec_declaration());
                        } else {
                            assert(reqs[slot as int].spec_declaration() != reqs[k].spec_declaration());
                        }
                    }
                    assert(request_for(reqs, entry.declaration) == slot as int);
                }
                let ghost requests_before = requests@;
                let ghost verdicts_before = verdicts@;
                let explicit = match requests[slot].take() {
                    Some(r) => r,
                    None => {
                        proof {
                            assert(consumed(*source, n, reqs[slot as int].spec_declaration()));
                            let j = choose|j: int|
                                0 <= j < n && (#[trigger] source.closure@[j]).declaration == entry.declaration
                                    && linked_declaration(*source, entry.declaration);
                            assert(!first_entry(source.closure@, n));
                            assert(!entry_yields(*source, *resolution, layouts@, reqs, checks, n));
                        }
                        return Err(
                            NativeError::AbiMismatch {
                                declaration: entry.declaration,
                                detail: "linked closure member has no strict declaration request".to_owned(),
                            },
                        );
                    },
                };
                proof {
                    assert(!consumed(*source, n, reqs[slot as int].spec_declaration()));
                    assert(explicit == reqs[slot as int]);
                    assert forall|j: int| 0 <= j < n implies (#[trigger] source.closure@[j]).declaration
                        != source.closure@[n].declaration by {
                        if source.closure@[j].declaration == source.closure@[n].declaration {
                            assert(consumed(*source, n, reqs[slot as int].spec_declaration()));
                        }
                    }
                    assert(first_entry(source.closure@, n));
                }
                let check = match verdicts[slot].take() {
                    Some(c) => c,
                    None => Ok(()),
                };
                proof {
                    assert(check == checks[slot as int]);
                    assert forall|t: int| 0 <= t < reqs.len() implies (consumed(*source, n + 1, #[trigger] reqs[t].spec_declaration())
                        ==> requests@[t] is None && verdicts@[t] is None) && (!consumed(*source, n + 1, reqs[t].spec_declaration())
                        ==> requests@[t] == Some(reqs[t]) && verdicts@[t] == Some(checks[t])) by {
                        if t != slot as int {
                            assert(requests@[t] == requests_before[t]);
                            assert(verdicts@[t] == verdicts_before[t]);
                            if t < slot as int {
                                assert(reqs[t].spec_declaration() != reqs[slot as int].spec_declaration());
                            } else {
                                assert(reqs[slot as int].spec_declaration() != reqs[t].spec_declaration());
                            }
                        }
                    }
                }
                let NativeDeclarationRequest { declaration: id, decoration, callable_abi, abi_shape } = explicit;
                let result = self.validator.validate_declaration(
                    source,
                    resolution,
                    StrictDeclarationRequest {
                        declaration: id,
                        decoration,
                        layout: LayoutAssessment::NotRequired,
                        callable_abi,
                        abi_shape: match &abi_shape {
                            Some(shape) => Some(shape),
                            None => None,
                        },
                    },
                    check,
                );
                match result {
                    Ok(e) => {
                        let ghost before = evidence@;
                        evidence.push(e);
                        proof {
                            assert(entry_yields(*source, *resolution, layouts@, reqs, checks, n));
                            assert(entry_evidence(e.spec_input(), *source, *resolution, layouts@, reqs, checks, n));
                            assert forall|j: int| 0 <= j < n + 1 implies entry_evidence(
                                (#[trigger] evidence@[j]).spec_input(),
                                *source,
                                *resolution,
                                layouts@,
                                reqs,
                                checks,
                                j,
                            ) by {
                                if j < n {
                                    assert(evidence@[j] == before[j]);
                                }
                            }
                        }
                    },
                    Err(e) => {
                        proof {
                            assert(!entry_yields(*source, *resolution, layouts@, reqs, checks, n));
                        }
                        return Err(e);
                    },
                }
            } else {
                match unlinked_evidence(source, entry.declaration, entry.requirement, layouts) {
                    Ok(e) => {
                        let ghost before = evidence@;
                        evidence.push(e);
                        proof {
                            assert(entry_yields(*source, *resolution, layouts@, reqs, checks, n));
                            assert(entry_evidence(e.spec_input(), *source, *resolution, layouts@, reqs, checks, n));
                            assert forall|j: int| 0 <= j < n + 1 implies entry_evidence(
                                (#[trigger] evidence@[j]).spec_input(),
                                *source,
                                *resolution,
                                layouts@,
                                reqs,
                                checks,
                                j,
                            ) by {
                                if j < n {
                                    assert(evidence@[j] == before[j]);
                                }
                            }
                        }
                    },
                    Err(e) => {
                        proof {
                            assert(!entry_yields(*source, *resolution, layouts@, reqs, checks, n));
                        }
                        return Err(e);
                    },
                }
            }
            i = i + 1;
        }
        let ghost total = closure@.len() as int;
        let mut leftover: Option<usize> = None;
        let mut k: usize = 0;
        while k < requests.len()
            invariant
                k <= requests@.len(),
                requests@.len() == ids@.len(),
                leftover matches Some(b) ==> b < k && requests@[b as int] is Some,
                leftover is None ==> forall|t: int| 0 <= t < k ==> requests@[t] is None,
                reqs == declarations@,
            decreases requests@.len() - k,
        {
            if requests[k].is_some() {
                leftover = match leftover {
                    None => Some(k),
                    Some(b) => if compare_bytes(ids[k].as_bytes().as_slice(), ids[b].as_bytes().as_slice()) < 0 {
                        Some(k)
                    } else {
                        Some(b)
                    },
                };
            }
            k = k + 1;
        }
        match leftover {
            Some(b) => {
                proof {
                    assert(!consumed(*source, total, reqs[b as int].spec_declaration()));
                    assert(!requests_in_closure(*source, reqs));
                }
                return Err(
                    NativeError::InvalidPolicy {
                        detail: "strict declaration request ".to_owned().concat(ids[b].to_string().as_str()).concat(
                            " is not a linked member of the source closure",
                        ),
                    },
                );
            },
            None => {},
        }
        proof {
            assert forall|t: int| 0 <= t < reqs.len() implies consumed(*source, total, #[trigger] reqs[t].spec_declaration()) by {
                assert(requests@[t] is None);
            }
        }
        Ok(evidence)
    }
}


/// The conditions under which `closure_evidence` gives every closure member
/// its evidence.
pub open spec fn closure_evidence_ok(
    source: CompleteSourcePackage,
    resolution: NativeResolution,
    layouts: Seq<LayoutEvidence>,
    reqs: Seq<NativeDeclarationRequest>,
    checks: Seq<Result<(), NativeError>>,
) -> bool {
    &&& request_ids_distinct(reqs)
    &&& forall|i: int| 0 <= i < source.closure@.len() ==> entry_yields(source, resolution, layouts, reqs, checks, i)
    &&& requests_in_closure(source, reqs)
}

/// `evidence` holds, in closure order, the evidence of each closure member.
pub open spec fn closure_evidence_of(
    evidence: Seq<DeclarationEvidence>,
    source: CompleteSourcePackage,
    resolution: NativeResolution,
    layouts: Seq<LayoutEvidence>,
    reqs: Seq<NativeDeclarationRequest>,
    checks: Seq<Result<(), NativeError>>,
) -> bool {
    &&& evidence.len() == source.closure@.len()
    &&& forall|i: int|
        0 <= i < evidence.len() ==> entry_evidence((#[trigger] evidence[i]).spec_input(), source, resolution, layouts, reqs, checks, i)
}

/// `b` is the package input assembled from these parts: the source's
/// fingerprints, the policy and native inputs, the resolution's inventories
/// and plan, the explicit probes, layouts and diagnostics, and, in closure
/// order, the evidence of each closure member.
pub open spec fn assembled_input(
    b: LinkAnalysisPackageInput,
    source: CompleteSourcePackage,
    policy: AnalysisPolicy,
    native_inputs: Seq<NativeInput>,
    resolution: NativeResolution,
    input: NativeAnalysisInput,
    checks: Seq<Result<(), NativeError>>,
) -> bool {
    &&& b.source_fingerprint == source.fingerprint
    &&& b.target_fingerprint == source.target.fingerprint
    &&& b.analysis_policy == policy
    &&& b.native_inputs@ == native_inputs
    &&& b.inventories@ == resolution.spec_inventories()
    &&& b.abi_probes@ == input.abi_probes@
    &&& b.layouts@ == input.layouts@
    &&& closure_evidence_of(b.declaration_evidence@, source, resolution, input.layouts@, input.declarations@, checks)
    &&& b.resolved_link_plan@ == resolution.spec_plan()@
    &&& b.diagnostics@ == input.diagnostics@
}

/// What `LinkAnalysisPackage::try_new` answers when it refuses `b` with `e`.
pub open spec fn package_refusal(b: LinkAnalysisPackageInput, e: ContractError) -> bool {
    &&& !canonical_arrangement_valid(b)
    &&& (exists|i: int, j: int|
        0 <= i < j < b.diagnostics@.len() && (#[trigger] b.diagnostics@[i]).key_view() == (#[trigger] b.diagnostics@[j]).key_view())
        ==> e == ContractError::DuplicateDiagnostic
}

/// Every package input assembled from these parts is internally valid, and
/// the package built from it covers the source.
pub open spec fn assembly_covers(
    source: CompleteSourcePackage,
    policy: AnalysisPolicy,
    native_inputs: Seq<NativeInput>,
    resolution: NativeResolution,
    input: NativeAnalysisInput,
    checks: Seq<Result<(), NativeError>>,
) -> bool {
    forall|b: LinkAnalysisPackageInput|
        #[trigger] assembled_input(b, source, policy, native_inputs, resolution, input, checks) ==> canonical_arrangement_valid(b)
            && forall|p: LinkAnalysisPackage| #[trigger] built_from(p, b) ==> covers_source(source, p)
}

impl NativeAnalyzer {
    /// Analyzes a request whose providers were resolved as `resolution`. The
    /// explicit evidence must belong to the source and target, every closure
    /// member gets its evidence (a linked member's callable-shape verdict is
    /// the matching entry of `shape_checks`), and the package built from the
    /// resolution's plan and inventories, the request's policy and native
    /// inputs and that evidence must cover the source: only a validated
    /// analysis is returned.
    pub fn analyze_resolved(
        &self,
        source: &CompleteSourcePackage,
        policy: AnalysisPolicy,
        native_inputs: Vec<NativeInput>,
        resolution: NativeResolution,
        input: NativeAnalysisInput,
        shape_checks: Vec<Result<(), NativeError>>,
    ) -> (res: Result<ValidatedLinkAnalysis, NativeError>)
        requires
            shape_checks@.len() == input.declarations@.len(),
        ensures
            !explicit_evidence_ok(*source, input.abi_probes@, input.layouts@, input.diagnostics@) ==> (res matches Err(e)
                && (e is InvalidPolicy || e is AbiMismatch)),
            explicit_evidence_ok(*source, input.abi_probes@, input.layouts@, input.diagnostics@) && !closure_evidence_ok(
                *source,
                resolution,
                input.layouts@,
                input.declarations@,
                shape_checks@,
            ) ==> res is Err,
            explicit_evidence_ok(*source, input.abi_probes@, input.layouts@, input.diagnostics@) && closure_evidence_ok(
                *source,
                resolution,
                input.layouts@,
                input.declarations@,
                shape_checks@,
            ) ==> (res matches Err(e) ==> e is Contract),
            explicit_evidence_ok(*source, input.abi_probes@, input.layouts@, input.diagnostics@) && closure_evidence_ok(
                *source,
                resolution,
                input.layouts@,
                input.declarations@,
                shape_checks@,
            ) && assembly_covers(*source, policy, native_inputs@, resolution, input, shape_checks@) ==> res is Ok,
            explicit_evidence_ok(*source, input.abi_probes@, input.layouts@, input.diagnostics@) && closure_evidence_ok(
                *source,
                resolution,
                input.layouts@,
                input.declarations@,
                shape_checks@,
            ) ==> (res matches Err(NativeError::Contract(c)) ==> exists|b: LinkAnalysisPackageInput|
                #[trigger] assembled_input(b, *source, policy, native_inputs@, resolution, input, shape_checks@) && (package_refusal(b, c)
                    || (canonical_arrangement_valid(b) && exists|p: LinkAnalysisPackage|
                    #[trigger] built_from(p, b) && against_source_outcome(*source, p, Err(c))))),
            res matches Ok(v) ==> {
                let p = v.spec_package();
                &&& explicit_evidence_ok(*source, input.abi_probes@, input.layouts@, input.diagnostics@)
                &&& closure_evidence_ok(*source, resolution, input.layouts@, input.declarations@, shape_checks@)
                &&& covers_source(*source, p)
                &&& covered_package_facts(*source, p)
                &&& p.spec_policy() == policy
                &&& p.spec_native_inputs() == native_inputs@
                &&& p.spec_atoms() == resolution.spec_plan()@
                &&& p.spec_inventories().to_multiset() == resolution.spec_inventories().to_multiset()
                &&& p.spec_probes().to_multiset() == input.abi_probes@.to_multiset()
                &&& p.spec_layouts().to_multiset() == input.layouts@.to_multiset()
                &&& p.spec_diagnostics().to_multiset() == input.diagnostics@.to_multiset()
                &&& exists|evidence: Seq<DeclarationEvidence>|
                    #[trigger] closure_evidence_of(
                        evidence,
                        *source,
                        resolution,
                        input.layouts@,
                        input.declarations@,
                        shape_checks@,
                    ) && p.spec_declarations().to_multiset() == evidence.to_multiset()
            },
    {
        let ghost whole_input = input;
        let ghost pol = policy;
        let ghost inputs_seen = native_inputs@;
        match validate_explicit_evidence(source, &input) {
            Ok(()) => {},
            Err(e) => {
                return Err(e);
            },
        }
        let NativeAnalysisInput { abi_probes, layouts, declarations, diagnostics } = input;
        let ghost reqs = declarations@;
        let ghost checks_seen = shape_checks@;
        let evidence = match self.closure_evidence(source, &resolution, layouts.as_slice(), declarations, shape_checks) {
            Ok(evidence) => evidence,
            Err(e) => {
                return Err(e);
            },
        };
        proof {
            assert(closure_evidence_of(evidence@, *source, resolution, layouts@, reqs, shape_checks@));
        }
        let ghost resolved = resolution;
        let (resolved_link_plan, inventories) = resolution.into_parts();
        let package_input = LinkAnalysisPackageInput {
            source_fingerprint: source.fingerprint,
            target_fingerprint: source.target.fingerprint,
            analysis_policy: policy,
            native_inputs,
            inventories,
            abi_probes,
            layouts,
            declaration_evidence: evidence,
            resolved_link_plan,
            diagnostics,
        };
        let ghost assembled = package_input;
        proof {
            assert(assembled_input(assembled, *source, pol, inputs_seen, resolved, whole_input, checks_seen));
        }
        let package = match LinkAnalysisPackage::try_new(package_input) {
            Ok(package) => package,
            Err(e) => {
                proof {
                    assert(package_refusal(assembled, e));
                }
                return Err(NativeError::Contract(e));
            },
        };
        match ValidatedLinkAnalysis::try_new(source, package) {
            Ok(v) => Ok(v),
            Err(e) => {
                proof {
                    assert(built_from(package, assembled));
                }
                Err(NativeError::Contract(e))
            },
        }
    }
}

} // verus!
