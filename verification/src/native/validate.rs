//! Measured callable-ABI shapes: how each parameter and the return value of
//! a function is passed, bound to the source type it was measured for.
use vstd::prelude::*;

use super::certify::{decimal, decimal_spec};
use super::error::NativeError;
use super::resolve::NativeResolution;
use super::sysv::{ReturnConvention, ValuePassing};
use crate::bytes::bytes_equal;
use crate::contract::evidence::{
    valid_alignment, valid_alignment_spec, CallableAbiAssessment, DeclarationEvidence, DeclarationEvidenceInput,
    EvidenceConfidence, LayoutAssessment, ProviderAssessment, SymbolAssessment, SymbolReference,
};
use crate::contract::inventory::SymbolInventory;
use crate::contract::link::LinkAtom;
use crate::contract::model::{
    is_valid_text, ResolvedArtifact, SymbolBinding, SymbolDecoration, SymbolDirection, SymbolKind, SymbolRecord,
    SymbolVisibility,
};
use crate::contract::package::{canonical_symbol_spelling, spelling_spec};
use crate::contract::request::WeakSymbolPolicy;
use crate::contract::validated::{find_source_declaration, source_declaration, CompleteSourcePackage, SourceDeclaration, SourceDeclarationKind};
use crate::contract::error::ContractError;
use crate::contract::identity::ProviderId;
use crate::contract::{
    CallingConvention, ContentFingerprint, DeclarationId, ProbeEvidenceId, SourceFingerprint, TargetFingerprint,
};
use crate::text::str_eq;
use super::classify::{classify_value, expected_layout, expected_layout_spec, value_classification, AbiPosition, AbiType, RecordShape};
use super::sysv::{return_convention, return_convention_spec};
use crate::contract::probe::AbiProbeEvidence;
use crate::contract::evidence::{ProbeSubject, ProbeSubjectStatus};
use crate::contract::validated::{find_outcome, find_probe_evidence, first_outcome, probe_for};
use crate::contract::{Architecture, Endian, Environment, ObjectFormat, OperatingSystem, TargetSpec};
use crate::contract::payload::{seq_canonical, write_items, Canonical};
use crate::contract::canonical::be64;
use crate::contract::identity::digest_spec;
use crate::contract::source::CONTENT_FINGERPRINT_DOMAIN;
use vstd::utf8::encode_utf8;
use vstd::string::StringExecFns;

verus! {

/// One measured ABI dimension, bound to the fingerprint of its source type.
#[derive(Debug, Clone, Copy, PartialEq, Eq)]
pub struct AbiDimension {
    source_type: ContentFingerprint,
    size_bits: u64,
    alignment_bits: u32,
    passing: ValuePassing,
}

/// A dimension's alignment is valid, and only ignored values are empty.
pub open spec fn dimension_error(size_bits: u64, alignment_bits: u32, passing: ValuePassing) -> Option<&'static str> {
    if !valid_alignment_spec(alignment_bits) {
        Some("ABI dimension alignment must be a power of two of at least 8 bits")
    } else if size_bits == 0 && passing != ValuePassing::Ignore {
        Some("non-ignored ABI dimension must have nonzero size")
    } else {
        None
    }
}

impl AbiDimension {
    pub closed spec fn spec_source_type(&self) -> ContentFingerprint {
        self.source_type
    }

    pub closed spec fn spec_size_bits(&self) -> u64 {
        self.size_bits
    }

    pub closed spec fn spec_alignment_bits(&self) -> u32 {
        self.alignment_bits
    }

    pub closed spec fn spec_passing(&self) -> ValuePassing {
        self.passing
    }

    /// A dimension for the source type with fingerprint `source_type`.
    pub fn try_new(source_type: ContentFingerprint, size_bits: u64, alignment_bits: u32, passing: ValuePassing) -> (res: Result<
        Self,
        NativeError,
    >)
        ensures
            match dimension_error(size_bits, alignment_bits, passing) {
                Some(reason) => res matches Err(NativeError::InvalidPolicy { detail }) && detail@ == reason@,
                None => res matches Ok(d) && d.spec_source_type() == source_type && d.spec_size_bits() == size_bits
                    && d.spec_alignment_bits() == alignment_bits && d.spec_passing() == passing,
            },
    {
        if !valid_alignment(alignment_bits) {
            return Err(
                NativeError::InvalidPolicy {
                    detail: "ABI dimension alignment must be a power of two of at least 8 bits".to_owned(),
                },
            );
        }
        if size_bits == 0 && passing != ValuePassing::Ignore {
            return Err(NativeError::InvalidPolicy { detail: "non-ignored ABI dimension must have nonzero size".to_owned() });
        }
        Ok(AbiDimension { source_type, size_bits, alignment_bits, passing })
    }

    pub fn source_type(&self) -> (out: ContentFingerprint)
        ensures
            out == self.spec_source_type(),
    {
        self.source_type
    }

    pub fn size_bits(&self) -> (out: u64)
        ensures
            out == self.spec_size_bits(),
    {
        self.size_bits
    }

    pub fn alignment_bits(&self) -> (out: u32)
        ensures
            out == self.spec_alignment_bits(),
    {
        self.alignment_bits
    }

    pub fn passing(&self) -> (out: ValuePassing)
        ensures
            out == self.spec_passing(),
    {
        self.passing
    }
}

impl Canonical for ValuePassing {
    open spec fn canonical(&self) -> Seq<u8> {
        match self {
            ValuePassing::Ignore => seq![0u8],
            ValuePassing::Direct => seq![1u8],
            ValuePassing::SplitRegisters => seq![2u8],
            ValuePassing::Indirect => seq![3u8],
        }
    }

    fn write_canonical(&self, out: &mut Vec<u8>) {
        match self {
            ValuePassing::Ignore => out.push(0u8),
            ValuePassing::Direct => out.push(1u8),
            ValuePassing::SplitRegisters => out.push(2u8),
            ValuePassing::Indirect => out.push(3u8),
        }
    }
}

impl Canonical for ReturnConvention {
    open spec fn canonical(&self) -> Seq<u8> {
        match self {
            ReturnConvention::Void => seq![0u8],
            ReturnConvention::Direct => seq![1u8],
            ReturnConvention::RegisterPair => seq![2u8],
            ReturnConvention::IndirectSret => seq![3u8],
        }
    }

    fn write_canonical(&self, out: &mut Vec<u8>) {
        match self {
            ReturnConvention::Void => out.push(0u8),
            ReturnConvention::Direct => out.push(1u8),
            ReturnConvention::RegisterPair => out.push(2u8),
            ReturnConvention::IndirectSret => out.push(3u8),
        }
    }
}

impl Canonical for AbiDimension {
    open spec fn canonical(&self) -> Seq<u8> {
        self.spec_source_type().canonical() + self.spec_size_bits().canonical() + self.spec_alignment_bits().canonical()
            + self.spec_passing().canonical()
    }

    fn write_canonical(&self, out: &mut Vec<u8>) {
        let ghost start = out@;
        self.source_type.write_canonical(out);
        self.size_bits.write_canonical(out);
        self.alignment_bits.write_canonical(out);
        self.passing.write_canonical(out);
        proof {
            assert(out@ =~= start + self.canonical());
        }
    }
}

/// The domain that separates callable-shape fingerprints from other content.
pub const CALLABLE_SHAPE_DOMAIN: &'static str = "follang.linc.callable-abi-shape.v1";

/// The measured calling shape of one function declaration.
#[derive(Debug, Clone, PartialEq, Eq)]
pub struct AbiShapeEvidence {
    declaration: DeclarationId,
    source_fingerprint: SourceFingerprint,
    target_fingerprint: TargetFingerprint,
    calling_convention: CallingConvention,
    variadic: bool,
    parameters: Vec<AbiDimension>,
    return_value: AbiDimension,
    return_convention: ReturnConvention,
    probe: ProbeEvidenceId,
}

impl AbiShapeEvidence {
    pub closed spec fn spec_declaration(&self) -> DeclarationId {
        self.declaration
    }

    pub closed spec fn spec_probe(&self) -> ProbeEvidenceId {
        self.probe
    }

    pub closed spec fn spec_parameters(&self) -> Seq<AbiDimension> {
        self.parameters@
    }

    pub closed spec fn spec_source_fingerprint(&self) -> SourceFingerprint {
        self.source_fingerprint
    }

    pub closed spec fn spec_target_fingerprint(&self) -> TargetFingerprint {
        self.target_fingerprint
    }

    pub closed spec fn spec_calling_convention(&self) -> CallingConvention {
        self.calling_convention
    }

    pub closed spec fn spec_variadic(&self) -> bool {
        self.variadic
    }

    pub closed spec fn spec_return_value(&self) -> AbiDimension {
        self.return_value
    }

    pub closed spec fn spec_return_convention(&self) -> ReturnConvention {
        self.return_convention
    }

    pub fn try_new(
        declaration: DeclarationId,
        source_fingerprint: SourceFingerprint,
        target_fingerprint: TargetFingerprint,
        calling_convention: CallingConvention,
        variadic: bool,
        parameters: Vec<AbiDimension>,
        return_value: AbiDimension,
        return_convention: ReturnConvention,
        probe: ProbeEvidenceId,
    ) -> (res: Result<Self, NativeError>)
        ensures
            res matches Ok(s) && s.spec_declaration() == declaration && s.spec_probe() == probe && s.spec_parameters()
                == parameters@ && s.spec_source_fingerprint() == source_fingerprint && s.spec_target_fingerprint()
                == target_fingerprint && s.spec_calling_convention() == calling_convention && s.spec_variadic() == variadic
                && s.spec_return_value() == return_value && s.spec_return_convention() == return_convention,
    {
        Ok(
            AbiShapeEvidence {
                declaration,
                source_fingerprint,
                target_fingerprint,
                calling_convention,
                variadic,
                parameters,
                return_value,
                return_convention,
                probe,
            },
        )
    }

    pub fn declaration(&self) -> (out: DeclarationId)
        ensures
            out == self.spec_declaration(),
    {
        self.declaration
    }

    pub fn source_fingerprint(&self) -> (out: SourceFingerprint)
        ensures
            out == self.spec_source_fingerprint(),
    {
        self.source_fingerprint
    }

    pub fn target_fingerprint(&self) -> (out: TargetFingerprint)
        ensures
            out == self.spec_target_fingerprint(),
    {
        self.target_fingerprint
    }

    pub fn calling_convention(&self) -> (out: CallingConvention)
        ensures
            out == self.spec_calling_convention(),
    {
        self.calling_convention
    }

    pub fn variadic(&self) -> (out: bool)
        ensures
            out == self.spec_variadic(),
    {
        self.variadic
    }

    pub fn parameters(&self) -> (out: &[AbiDimension])
        ensures
            out@ == self.spec_parameters(),
    {
        self.parameters.as_slice()
    }

    pub fn return_value(&self) -> (out: AbiDimension)
        ensures
            out == self.spec_return_value(),
    {
        self.return_value
    }

    pub fn return_convention(&self) -> (out: ReturnConvention)
        ensures
            out == self.spec_return_convention(),
    {
        self.return_convention
    }

    pub fn probe(&self) -> (out: ProbeEvidenceId)
        ensures
            out == self.spec_probe(),
    {
        self.probe
    }

    /// The bytes the shape's fingerprint is taken over: everything but the
    /// probe, which in turn binds this fingerprint in its outcome.
    pub closed spec fn fingerprint_payload(&self) -> Seq<u8> {
        be64(encode_utf8(CALLABLE_SHAPE_DOMAIN@).len() as u64) + encode_utf8(CALLABLE_SHAPE_DOMAIN@)
            + self.declaration.canonical() + self.source_fingerprint.canonical() + self.target_fingerprint.canonical()
            + self.calling_convention.canonical() + self.variadic.canonical() + seq_canonical(self.parameters@)
            + self.return_value.canonical() + self.return_convention.canonical()
    }

    /// The content fingerprint of the shape without its probe.
    pub fn fingerprint(&self) -> (out: ContentFingerprint)
        ensures
            out@ == digest_spec(encode_utf8(CONTENT_FINGERPRINT_DOMAIN@), seq![self.fingerprint_payload()]),
    {
        let mut payload: Vec<u8> = Vec::new();
        let domain = String::from_str(CALLABLE_SHAPE_DOMAIN);
        domain.write_canonical(&mut payload);
        self.declaration.write_canonical(&mut payload);
        self.source_fingerprint.write_canonical(&mut payload);
        self.target_fingerprint.write_canonical(&mut payload);
        self.calling_convention.write_canonical(&mut payload);
        self.variadic.write_canonical(&mut payload);
        write_items(self.parameters.as_slice(), &mut payload);
        self.return_value.write_canonical(&mut payload);
        self.return_convention.write_canonical(&mut payload);
        proof {
            assert(payload@ =~= self.fingerprint_payload());
        }
        ContentFingerprint::from_content(payload.as_slice())
    }
}


// ---------------------------------------------------------------------------
// Provider symbol selection
// ---------------------------------------------------------------------------

/// Rust's `Debug` text of a string: the text in double quotes, with quotes,
/// backslashes and unprintable characters escaped.
pub uninterp spec fn debug_text(s: Seq<char>) -> Seq<char>;

/// Calls std's `Debug` formatting of a string slice (`format!("{:?}", s)`).
/// Its result is named by `debug_text` and not described further.
#[verifier::external_body]
fn debug_quoted(s: &str) -> (out: String)
    ensures
        out@ == debug_text(s@),
{
    format!("{:?}", s)
}

/// Two decorations are the same variant with the same contents.
pub open spec fn decoration_same(a: SymbolDecoration, b: SymbolDecoration) -> bool {
    match a {
        SymbolDecoration::Undecorated => b is Undecorated,
        SymbolDecoration::LeadingUnderscore => b is LeadingUnderscore,
        SymbolDecoration::Stdcall { stack_bytes } => b matches SymbolDecoration::Stdcall { stack_bytes: y } && y
            == stack_bytes,
        SymbolDecoration::Versioned { version, is_default } => b matches SymbolDecoration::Versioned {
            version: w,
            is_default: e,
        } && w@ == version@ && e == is_default,
        SymbolDecoration::Other { spelling } => b matches SymbolDecoration::Other { spelling: t } && t@ == spelling@,
    }
}

fn decorations_match(a: &SymbolDecoration, b: &SymbolDecoration) -> (out: bool)
    ensures
        out <==> decoration_same(*a, *b),
{
    match a {
        SymbolDecoration::Undecorated => match b {
            SymbolDecoration::Undecorated => true,
            _ => false,
        },
        SymbolDecoration::LeadingUnderscore => match b {
            SymbolDecoration::LeadingUnderscore => true,
            _ => false,
        },
        SymbolDecoration::Stdcall { stack_bytes } => match b {
            SymbolDecoration::Stdcall { stack_bytes: y } => *y == *stack_bytes,
            _ => false,
        },
        SymbolDecoration::Versioned { version, is_default } => match b {
            SymbolDecoration::Versioned { version: w, is_default: e } => *e == *is_default && bytes_equal(
                w.as_slice(),
                version.as_slice(),
            ),
            _ => false,
        },
        SymbolDecoration::Other { spelling } => match b {
            SymbolDecoration::Other { spelling: t } => bytes_equal(t.as_slice(), spelling.as_slice()),
            _ => false,
        },
    }
}

/// The provider an atom links, if it links an artifact.
pub open spec fn atom_provider(a: LinkAtom) -> Option<ProviderId> {
    match a {
        LinkAtom::Object(x) => Some(x.spec_provider_id()),
        LinkAtom::StaticLibrary(x) => Some(x.spec_provider_id()),
        LinkAtom::DynamicLibrary(x) => Some(x.spec_provider_id()),
        LinkAtom::ImportLibrary(x) => Some(x.spec_provider_id()),
        LinkAtom::Framework { artifact, .. } => Some(artifact.spec_provider_id()),
        _ => None,
    }
}

/// Some atom of the plan links provider `p`.
pub open spec fn plan_links(atoms: Seq<LinkAtom>, p: ProviderId) -> bool {
    exists|i: int| 0 <= i < atoms.len() && atom_provider(#[trigger] atoms[i]) == Some(p)
}

fn plan_contains(atoms: &[LinkAtom], p: ProviderId) -> (out: bool)
    ensures
        out <==> plan_links(atoms@, p),
{
    let mut i: usize = 0;
    while i < atoms.len()
        invariant
            i <= atoms@.len(),
            forall|k: int| 0 <= k < i ==> atom_provider(#[trigger] atoms@[k]) != Some(p),
        decreases atoms@.len() - i,
    {
        match atoms[i].artifact() {
            Some(artifact) => {
                if artifact.provider_id().same(&p) {
                    assert(atom_provider(atoms@[i as int]) == Some(p));
                    return true;
                }
            },
            None => {},
        }
        i = i + 1;
    }
    false
}

/// What the strict validator looks for: a link name, its decoration, the
/// declared and confirmed calling conventions, the symbol kind and the
/// weak-provider policy.
pub struct SymbolQuery {
    pub name: Seq<char>,
    pub decoration: SymbolDecoration,
    pub expected_convention: Option<CallingConvention>,
    pub confirmed_convention: Option<CallingConvention>,
    pub kind: SymbolKind,
    pub policy: WeakSymbolPolicy,
}

/// How the inventory's target spells the queried name.
pub open spec fn spelling_of(inv: SymbolInventory, q: SymbolQuery) -> Result<Seq<char>, &'static str> {
    spelling_spec(
        q.name,
        q.decoration,
        inv.spec_artifact().spec_observed_target().spec_parts(),
        q.expected_convention,
        q.confirmed_convention,
    )
}

pub open spec fn in_plan(atoms: Seq<LinkAtom>, inv: SymbolInventory) -> bool {
    plan_links(atoms, inv.spec_artifact().spec_provider_id())
}

/// The refusal of the first inventory in the plan whose target cannot spell
/// the queried name.
pub open spec fn spelling_failure(invs: Seq<SymbolInventory>, atoms: Seq<LinkAtom>, q: SymbolQuery) -> Option<
    &'static str,
>
    decreases invs.len(),
{
    if invs.len() == 0 {
        None
    } else {
        match spelling_failure(invs.drop_last(), atoms, q) {
            Some(e) => Some(e),
            None => if in_plan(atoms, invs.last()) {
                match spelling_of(invs.last(), q) {
                    Err(e) => Some(e),
                    Ok(_) => None,
                }
            } else {
                None
            },
        }
    }
}

/// The symbols spelled `s` with decoration `dec`, each with its artifact.
pub open spec fn matching_symbols(
    art: ResolvedArtifact,
    syms: Seq<SymbolRecord>,
    s: Seq<char>,
    dec: SymbolDecoration,
) -> Seq<(ResolvedArtifact, SymbolRecord)>
    decreases syms.len(),
{
    if syms.len() == 0 {
        Seq::empty()
    } else {
        let rest = matching_symbols(art, syms.drop_last(), s, dec);
        if syms.last().spec_input().name@ == s && decoration_same(syms.last().spec_input().decoration, dec) {
            rest.push((art, syms.last()))
        } else {
            rest
        }
    }
}

/// Every symbol of the plan's inventories that carries the queried name as
/// its target spells it, in inventory and symbol order.
pub open spec fn named_candidates(invs: Seq<SymbolInventory>, atoms: Seq<LinkAtom>, q: SymbolQuery) -> Seq<
    (ResolvedArtifact, SymbolRecord),
>
    decreases invs.len(),
{
    if invs.len() == 0 {
        Seq::empty()
    } else {
        let rest = named_candidates(invs.drop_last(), atoms, q);
        let inv = invs.last();
        if in_plan(atoms, inv) {
            match spelling_of(inv, q) {
                Ok(s) => rest + matching_symbols(inv.spec_artifact(), inv.spec_symbols(), s, q.decoration),
                Err(_) => rest,
            }
        } else {
            rest
        }
    }
}

/// An exported weak symbol that other artifacts can see.
pub open spec fn weak_visible(r: SymbolRecord) -> bool {
    let i = r.spec_input();
    &&& i.direction == SymbolDirection::Exported
    &&& i.binding == SymbolBinding::Weak
    &&& (i.visibility == SymbolVisibility::Default || i.visibility == SymbolVisibility::Protected)
}

/// Why a named symbol cannot satisfy a public extern, if it cannot.
pub open spec fn rejection_reason(r: SymbolRecord, q: SymbolQuery) -> Option<&'static str> {
    let i = r.spec_input();
    if i.direction != SymbolDirection::Exported {
        Some("symbol is an import")
    } else if i.binding == SymbolBinding::Weak && q.policy != WeakSymbolPolicy::AllowUnique {
        Some("weak providers are rejected by analysis policy")
    } else if i.binding == SymbolBinding::Local {
        Some("local providers cannot satisfy public externs")
    } else if !(i.visibility == SymbolVisibility::Default || i.visibility == SymbolVisibility::Protected) {
        Some("hidden/internal providers cannot satisfy public externs")
    } else if i.kind != q.kind {
        Some("provider has the wrong symbol kind")
    } else {
        None
    }
}

/// The candidates that no reason rejects, in order.
pub open spec fn acceptable_candidates(c: Seq<(ResolvedArtifact, SymbolRecord)>, q: SymbolQuery) -> Seq<
    (ResolvedArtifact, SymbolRecord),
>
    decreases c.len(),
{
    if c.len() == 0 {
        Seq::empty()
    } else {
        let rest = acceptable_candidates(c.drop_last(), q);
        if rejection_reason(c.last().1, q) is None {
            rest.push(c.last())
        } else {
            rest
        }
    }
}

/// Every candidate that no reason rejects is an exported, globally or
/// (where allowed) weakly bound, default- or protected-visibility symbol of
/// the queried kind.
proof fn lemma_acceptable_are_public(c: Seq<(ResolvedArtifact, SymbolRecord)>, q: SymbolQuery)
    ensures
        forall|t: int| 0 <= t < acceptable_candidates(c, q).len() ==> rejection_reason(
            (#[trigger] acceptable_candidates(c, q)[t]).1,
            q,
        ) is None,
    decreases c.len(),
{
    if c.len() > 0 {
        lemma_acceptable_are_public(c.drop_last(), q);
    }
}

/// A symbol bound locally cannot satisfy a public extern, nor can an import,
/// a hidden or internal symbol, one of another kind, or a weak one where the
/// policy does not allow weak providers: whatever the query, each has a
/// rejection reason.
pub proof fn lemma_private_symbols_rejected(r: SymbolRecord, q: SymbolQuery)
    ensures
        r.spec_input().binding == SymbolBinding::Local ==> rejection_reason(r, q) is Some,
        r.spec_input().direction != SymbolDirection::Exported ==> rejection_reason(r, q) is Some,
        !(r.spec_input().visibility == SymbolVisibility::Default || r.spec_input().visibility == SymbolVisibility::Protected)
            ==> rejection_reason(r, q) is Some,
        r.spec_input().kind != q.kind ==> rejection_reason(r, q) is Some,
        r.spec_input().binding == SymbolBinding::Weak && q.policy != WeakSymbolPolicy::AllowUnique ==> rejection_reason(r, q) is Some,
{
}

/// The provider symbol that selection settles on is exported, not local,
/// of default or protected visibility and of the queried kind, and weak
/// only where the policy allows a unique weak provider.
pub proof fn lemma_selected_provider_is_public(invs: Seq<SymbolInventory>, atoms: Seq<LinkAtom>, q: SymbolQuery)
    requires
        symbol_selection(invs, atoms, q) is Ok,
    ensures
        ({
            let r = symbol_selection(invs, atoms, q)->Ok_0.1.spec_input();
            &&& r.direction == SymbolDirection::Exported
            &&& r.binding != SymbolBinding::Local
            &&& r.visibility == SymbolVisibility::Default || r.visibility == SymbolVisibility::Protected
            &&& r.kind == q.kind
            &&& r.binding == SymbolBinding::Weak ==> q.policy == WeakSymbolPolicy::AllowUnique
        }),
{
    let c = named_candidates(invs, atoms, q);
    lemma_acceptable_are_public(c, q);
    let a = acceptable_candidates(c, q);
    assert(rejection_reason(a[0].1, q) is None);
    lemma_private_symbols_rejected(a[0].1, q);
}

/// The reasons the rejected candidates were rejected, in order.
pub open spec fn rejection_reasons(c: Seq<(ResolvedArtifact, SymbolRecord)>, q: SymbolQuery) -> Seq<Seq<char>>
    decreases c.len(),
{
    if c.len() == 0 {
        Seq::empty()
    } else {
        let rest = rejection_reasons(c.drop_last(), q);
        match rejection_reason(c.last().1, q) {
            Some(reason) => rest.push(reason@),
            None => rest,
        }
    }
}

/// The texts joined by `"; "`.
pub open spec fn joined(r: Seq<Seq<char>>) -> Seq<char>
    decreases r.len(),
{
    if r.len() == 0 {
        Seq::empty()
    } else if r.len() == 1 {
        r[0]
    } else {
        joined(r.drop_last()) + seq![';', ' '] + r.last()
    }
}

/// The one provider symbol that satisfies the query, or the refusal text.
pub open spec fn symbol_selection(invs: Seq<SymbolInventory>, atoms: Seq<LinkAtom>, q: SymbolQuery) -> Result<
    (ResolvedArtifact, SymbolRecord),
    Seq<char>,
> {
    match spelling_failure(invs, atoms, q) {
        Some(e) => Err(e@),
        None => {
            let c = named_candidates(invs, atoms, q);
            let a = acceptable_candidates(c, q);
            if c.len() == 0 {
                Err("missing exact provider symbol "@ + debug_text(q.name))
            } else if q.policy == WeakSymbolPolicy::Reject && exists|t: int|
                0 <= t < c.len() && weak_visible(#[trigger] c[t].1) {
                Err("weak provider participates in the exact-name candidate set"@)
            } else if a.len() == 1 {
                Ok(a[0])
            } else if a.len() == 0 {
                Err(joined(rejection_reasons(c, q)))
            } else {
                Err(decimal_spec(a.len()) + " visible providers are ambiguous"@)
            }
        },
    }
}

proof fn lemma_failure_prefix(invs: Seq<SymbolInventory>, atoms: Seq<LinkAtom>, q: SymbolQuery, m: int)
    requires
        0 <= m <= invs.len(),
        spelling_failure(invs.take(m), atoms, q) is Some,
    ensures
        spelling_failure(invs, atoms, q) == spelling_failure(invs.take(m), atoms, q),
    decreases invs.len(),
{
    if m == invs.len() {
        assert(invs.take(m) =~= invs);
    } else {
        assert(invs.drop_last().take(m) =~= invs.take(m));
        lemma_failure_prefix(invs.drop_last(), atoms, q, m);
    }
}

/// The artifact and record a pair of indexes names.
pub open spec fn pair_at(invs: Seq<SymbolInventory>, p: (usize, usize)) -> (ResolvedArtifact, SymbolRecord) {
    (invs[p.0 as int].spec_artifact(), invs[p.0 as int].spec_symbols()[p.1 as int])
}

pub open spec fn pairs_view(invs: Seq<SymbolInventory>, ps: Seq<(usize, usize)>) -> Seq<(ResolvedArtifact, SymbolRecord)> {
    ps.map_values(|p: (usize, usize)| pair_at(invs, p))
}

pub open spec fn pairs_in_range(invs: Seq<SymbolInventory>, ps: Seq<(usize, usize)>) -> bool {
    forall|t: int|
        0 <= t < ps.len() ==> (#[trigger] ps[t]).0 < invs.len() && ps[t].1 < invs[ps[t].0 as int].spec_symbols().len()
}

fn is_weak_visible(r: &SymbolRecord) -> (out: bool)
    ensures
        out <==> weak_visible(*r),
{
    let visibility = r.visibility();
    r.direction() == SymbolDirection::Exported && r.binding() == SymbolBinding::Weak && (visibility
        == SymbolVisibility::Default || visibility == SymbolVisibility::Protected)
}

fn symbol_rejection(r: &SymbolRecord, kind: SymbolKind, policy: WeakSymbolPolicy) -> (out: Option<&'static str>)
    ensures
        forall|q: SymbolQuery| q.kind == kind && q.policy == policy ==> out == rejection_reason(*r, q),
        r.spec_input().binding == SymbolBinding::Local ==> out is Some,
        r.spec_input().direction != SymbolDirection::Exported ==> out is Some,
{
    let binding = r.binding();
    let visibility = r.visibility();
    if r.direction() != SymbolDirection::Exported {
        Some("symbol is an import")
    } else if binding == SymbolBinding::Weak && policy != WeakSymbolPolicy::AllowUnique {
        Some("weak providers are rejected by analysis policy")
    } else if binding == SymbolBinding::Local {
        Some("local providers cannot satisfy public externs")
    } else if !(visibility == SymbolVisibility::Default || visibility == SymbolVisibility::Protected) {
        Some("hidden/internal providers cannot satisfy public externs")
    } else if r.kind() != kind {
        Some("provider has the wrong symbol kind")
    } else {
        None
    }
}

fn join_reasons(reasons: &Vec<&'static str>) -> (out: String)
    ensures
        out@ == joined(reasons@.map_values(|r: &'static str| r@)),
{
    let ghost texts = reasons@.map_values(|r: &'static str| r@);
    let mut out = String::new();
    let mut i: usize = 0;
    while i < reasons.len()
        invariant
            i <= reasons@.len(),
            texts == reasons@.map_values(|r: &'static str| r@),
            out@ == joined(texts.take(i as int)),
        decreases reasons@.len() - i,
    {
        proof {
            assert(texts.take(i + 1).drop_last() =~= texts.take(i as int));
            reveal_strlit("; ");
        }
        if i > 0 {
            out = out.concat("; ");
        }
        out = out.concat(reasons[i]);
        proof {
            if i == 0 {
                assert(texts.take(1) =~= seq![texts[0]]);
            }
        }
        i = i + 1;
    }
    proof {
        assert(texts.take(reasons@.len() as int) =~= texts);
    }
    out
}

pub open spec fn query_of(
    name: Seq<char>,
    decoration: SymbolDecoration,
    expected: Option<CallingConvention>,
    confirmed: Option<CallingConvention>,
    kind: SymbolKind,
    policy: WeakSymbolPolicy,
) -> SymbolQuery {
    SymbolQuery {
        name,
        decoration,
        expected_convention: expected,
        confirmed_convention: confirmed,
        kind,
        policy,
    }
}

/// Picks the one provider symbol that satisfies the query, as indexes of
/// the inventory and of its symbol.
#[verifier::rlimit(40)]
fn select_symbol(
    inventories: &[SymbolInventory],
    atoms: &[LinkAtom],
    name: &str,
    decoration: &SymbolDecoration,
    expected: Option<CallingConvention>,
    confirmed: Option<CallingConvention>,
    kind: SymbolKind,
    policy: WeakSymbolPolicy,
) -> (res: Result<(usize, usize), String>)
    ensures
        match symbol_selection(
            inventories@,
            atoms@,
            query_of(name@, *decoration, expected, confirmed, kind, policy),
        ) {
            Ok(chosen) => res matches Ok(p) && p.0 < inventories@.len() && p.1 < inventories@[p.0 as int].spec_symbols().len()
                && pair_at(inventories@, p) == chosen && chosen.1.spec_input().binding != SymbolBinding::Local
                && chosen.1.spec_input().direction == SymbolDirection::Exported,
            Err(detail) => res matches Err(m) && m@ == detail,
        },
{
    let ghost q = query_of(name@, *decoration, expected, confirmed, kind, policy);
    proof {
        if symbol_selection(inventories@, atoms@, q) is Ok {
            lemma_selected_provider_is_public(inventories@, atoms@, q);
        }
    }
    let ghost invs = inventories@;
    let mut named: Vec<(usize, usize)> = Vec::new();
    let mut k: usize = 0;
    while k < inventories.len()
        invariant
            k <= invs.len(),
            invs == inventories@,
            q == query_of(name@, *decoration, expected, confirmed, kind, policy),
            spelling_failure(invs.take(k as int), atoms@, q) is None,
            pairs_in_range(invs, named@),
            pairs_view(invs, named@) == named_candidates(invs.take(k as int), atoms@, q),
        decreases invs.len() - k,
    {
        let inventory = &inventories[k];
        proof {
            assert(invs.take(k + 1).drop_last() =~= invs.take(k as int));
            assert(invs.take(k + 1).last() == invs[k as int]);
        }
        if plan_contains(atoms, inventory.artifact().provider_id()) {
            let spelled = canonical_symbol_spelling(
                name,
                decoration,
                inventory.artifact().observed_target(),
                expected,
                confirmed,
            );
            match spelled {
                Err(detail) => {
                    proof {
                        lemma_failure_prefix(invs, atoms@, q, k + 1);
                    }
                    return Err(detail.to_owned());
                },
                Ok(actual) => {
                    let symbols = inventory.symbols();
                    let ghost base = named_candidates(invs.take(k as int), atoms@, q);
                    let mut j: usize = 0;
                    while j < symbols.len()
                        invariant
                            j <= symbols@.len(),
                            k < invs.len(),
                            invs == inventories@,
                            symbols@ == invs[k as int].spec_symbols(),
                            pairs_in_range(invs, named@),
                            pairs_view(invs, named@) == base + matching_symbols(
                                invs[k as int].spec_artifact(),
                                symbols@.take(j as int),
                                actual@,
                                *decoration,
                            ),
                        decreases symbols@.len() - j,
                    {
                        proof {
                            assert(symbols@.take(j + 1).drop_last() =~= symbols@.take(j as int));
                            assert(symbols@.take(j + 1).last() == symbols@[j as int]);
                        }
                        if str_eq(symbols[j].name(), actual.as_str()) && decorations_match(
                            symbols[j].decoration(),
                            decoration,
                        ) {
                            let ghost before = named@;
                            named.push((k, j));
                            proof {
                                assert(named@ == before.push((k, j)));
                                assert(pairs_view(invs, named@) =~= pairs_view(invs, before).push(pair_at(invs, (k, j))));
                                assert forall|t: int| 0 <= t < named@.len() implies (#[trigger] named@[t]).0 < invs.len()
                                    && named@[t].1 < invs[named@[t].0 as int].spec_symbols().len() by {
                                    if t < before.len() {
                                        assert(named@[t] == before[t]);
                                    }
                                }
                            }
                        }
                        j = j + 1;
                    }
                    proof {
                        assert(symbols@.take(symbols@.len() as int) =~= symbols@);
                    }
                },
            }
        }
        k = k + 1;
    }
    proof {
        assert(invs.take(invs.len() as int) =~= invs);
    }
    let ghost c = named_candidates(invs, atoms@, q);
    if named.len() == 0 {
        return Err("missing exact provider symbol ".to_owned().concat(debug_quoted(name).as_str()));
    }
    if policy == WeakSymbolPolicy::Reject {
        let mut t: usize = 0;
        while t < named.len()
            invariant
                t <= named@.len(),
                pairs_in_range(invs, named@),
                invs == inventories@,
                pairs_view(invs, named@) == c,
                q == query_of(name@, *decoration, expected, confirmed, kind, policy),
                policy == WeakSymbolPolicy::Reject,
                spelling_failure(invs, atoms@, q) is None,
                c == named_candidates(invs, atoms@, q),
                c.len() > 0,
                forall|u: int| 0 <= u < t ==> !weak_visible((#[trigger] c[u]).1),
            decreases named@.len() - t,
        {
            let (a, b) = named[t];
            let record = &inventories[a].symbols()[b];
            if is_weak_visible(record) {
                assert(c[t as int] == pair_at(invs, named@[t as int]));
                assert(weak_visible(c[t as int].1));
                return Err("weak provider participates in the exact-name candidate set".to_owned());
            }
            t = t + 1;
        }
    }
    let mut acceptable: Vec<(usize, usize)> = Vec::new();
    let mut reasons: Vec<&'static str> = Vec::new();
    let mut t: usize = 0;
    while t < named.len()
        invariant
            t <= named@.len(),
            pairs_in_range(invs, named@),
            pairs_in_range(invs, acceptable@),
            invs == inventories@,
            q.kind == kind && q.policy == policy,
            pairs_view(invs, named@) == c,
            pairs_view(invs, acceptable@) == acceptable_candidates(c.take(t as int), q),
            reasons@.map_values(|r: &'static str| r@) == rejection_reasons(c.take(t as int), q),
        decreases named@.len() - t,
    {
        proof {
            assert(c.take(t + 1).drop_last() =~= c.take(t as int));
            assert(c.take(t + 1).last() == c[t as int]);
            assert(c[t as int] == pair_at(invs, named@[t as int]));
        }
        let (a, b) = named[t];
        let record = &inventories[a].symbols()[b];
        match symbol_rejection(record, kind, policy) {
            Some(reason) => {
                let ghost before = reasons@;
                reasons.push(reason);
                proof {
                    assert(reasons@.map_values(|r: &'static str| r@) =~= before.map_values(|r: &'static str| r@).push(
                        reason@,
                    ));
                }
            },
            None => {
                let ghost before = acceptable@;
                acceptable.push((a, b));
                proof {
                    assert(pairs_view(invs, acceptable@) =~= pairs_view(invs, before).push(pair_at(invs, (a, b))));
                    assert forall|u: int| 0 <= u < acceptable@.len() implies (#[trigger] acceptable@[u]).0 < invs.len()
                        && acceptable@[u].1 < invs[acceptable@[u].0 as int].spec_symbols().len() by {
                        if u < before.len() {
                            assert(acceptable@[u] == before[u]);
                        }
                    }
                }
            },
        }
        t = t + 1;
    }
    proof {
        assert(c.take(named@.len() as int) =~= c);
    }
    if acceptable.len() == 1 {
        proof {
            assert(pairs_view(invs, acceptable@)[0] == pair_at(invs, acceptable@[0]));
        }
        return Ok(acceptable[0]);
    }
    if acceptable.len() == 0 {
        return Err(join_reasons(&reasons));
    }
    Err(decimal(acceptable.len() as u64).concat(" visible providers are ambiguous"))
}

// ---------------------------------------------------------------------------
// Strict declaration validation
// ---------------------------------------------------------------------------

/// One declaration's strict evidence request: the symbol decoration it
/// links under, its layout and callable assessments, and the measured
/// callable shape of a function.
pub struct StrictDeclarationRequest<'a> {
    pub declaration: DeclarationId,
    pub decoration: SymbolDecoration,
    pub layout: LayoutAssessment,
    pub callable_abi: CallableAbiAssessment,
    pub abi_shape: Option<&'a AbiShapeEvidence>,
}

/// Validates declaration evidence under the strict policy.
#[derive(Debug, Clone, Copy, PartialEq, Eq, Default)]
pub struct StrictEvidenceValidator;

/// The link name, symbol kind and declared calling convention a linked
/// declaration asks for; `None` for declarations that link nothing.
pub open spec fn expected_symbol(d: SourceDeclaration) -> Option<(Seq<char>, SymbolKind, Option<CallingConvention>)> {
    match d.kind {
        SourceDeclarationKind::Function { link_name, calling_convention } => Some(
            (link_name@, SymbolKind::Function, Some(calling_convention)),
        ),
        SourceDeclarationKind::Variable { link_name, thread_local } => Some(
            (
                link_name@,
                if thread_local {
                    SymbolKind::ThreadLocal
                } else {
                    SymbolKind::Data
                },
                None,
            ),
        ),
        _ => None,
    }
}

/// The calling convention a confirmed callable assessment states.
pub open spec fn confirmed_convention(c: CallableAbiAssessment) -> Option<CallingConvention> {
    match c {
        CallableAbiAssessment::Confirmed { calling_convention, .. } => Some(calling_convention),
        _ => None,
    }
}

pub open spec fn shape_value(o: Option<&AbiShapeEvidence>) -> Option<AbiShapeEvidence> {
    match o {
        Some(s) => Some(*s),
        None => None,
    }
}

/// The first refusal of a function's evidence before its shape is
/// examined: no layout, a confirmed strictly measured assessment in the
/// declared convention, and a shape bound to this declaration.
pub open spec fn function_refusal(
    convention: CallingConvention,
    declaration: DeclarationId,
    layout: LayoutAssessment,
    callable: CallableAbiAssessment,
    shape: Option<AbiShapeEvidence>,
) -> Option<Seq<char>> {
    if !(layout is NotRequired) {
        Some("functions cannot carry declaration layout evidence"@)
    } else if !(callable matches CallableAbiAssessment::Confirmed { calling_convention, confidence, .. }
        && calling_convention == convention && confidence != EvidenceConfidence::Inferred) {
        Some("calling convention or callable confidence differs from the source declaration"@)
    } else if shape is None {
        Some("callable ABI shape evidence is required"@)
    } else if shape.unwrap().spec_declaration() != declaration {
        Some("callable ABI shape is bound to another declaration"@)
    } else {
        None
    }
}

/// What the strict validator decides for one declaration request.
pub enum DeclarationVerdict {
    AbiMismatch(Seq<char>),
    SymbolRejected(Seq<char>),
    ShapeRejected,
    Accepted { artifact: ResolvedArtifact, symbol: SymbolRecord, expected_name: Seq<char>, kind: SymbolKind },
}

/// The decision on one request: the resolution must belong to the source
/// and target, the declaration must be a linked function or variable of the
/// source, exactly one provider symbol must satisfy it, and its callable
/// evidence must fit its kind. `shape_ok` is the verdict on the function's
/// measured shape.
pub open spec fn declaration_verdict(
    source: CompleteSourcePackage,
    resolution: NativeResolution,
    declaration: DeclarationId,
    decoration: SymbolDecoration,
    layout: LayoutAssessment,
    callable: CallableAbiAssessment,
    shape: Option<AbiShapeEvidence>,
    shape_ok: bool,
) -> DeclarationVerdict {
    if resolution.spec_source_fingerprint() != source.fingerprint || resolution.spec_target_fingerprint()
        != source.target.fingerprint {
        DeclarationVerdict::AbiMismatch("resolved providers are bound to a different source or target fingerprint"@)
    } else {
        match source_declaration(source.declarations@, declaration) {
            None => DeclarationVerdict::AbiMismatch("declaration ID is absent from the complete source package"@),
            Some(d) => match expected_symbol(d) {
                None => DeclarationVerdict::SymbolRejected(
                    "only linked functions and variables may request provider evidence"@,
                ),
                Some((name, kind, convention)) => {
                    let q = query_of(
                        name,
                        decoration,
                        convention,
                        confirmed_convention(callable),
                        kind,
                        resolution.spec_weak_symbol_policy(),
                    );
                    match symbol_selection(resolution.spec_inventories(), resolution.spec_plan()@, q) {
                        Err(detail) => DeclarationVerdict::SymbolRejected(detail),
                        Ok((artifact, symbol)) => {
                            let accepted = DeclarationVerdict::Accepted { artifact, symbol, expected_name: name, kind };
                            match convention {
                                Some(cc) => match function_refusal(cc, declaration, layout, callable, shape) {
                                    Some(detail) => DeclarationVerdict::AbiMismatch(detail),
                                    None => if !shape_ok {
                                        DeclarationVerdict::ShapeRejected
                                    } else if !(callable matches CallableAbiAssessment::Confirmed { probe, .. } && probe
                                        == shape.unwrap().spec_probe()) {
                                        DeclarationVerdict::AbiMismatch(
                                            "callable assessment does not match measured shape evidence"@,
                                        )
                                    } else {
                                        accepted
                                    },
                                },
                                None => if shape is Some || !(layout is NotRequired) || !(callable is NotApplicable) {
                                    DeclarationVerdict::AbiMismatch("variables require symbol evidence only"@)
                                } else {
                                    accepted
                                },
                            }
                        },
                    }
                },
            },
        }
    }
}

/// The evidence record of an accepted request: the chosen provider, the
/// exact symbol with both spellings, and the request's own assessments.
pub open spec fn exact_evidence(
    e: DeclarationEvidenceInput,
    source: CompleteSourcePackage,
    declaration: DeclarationId,
    decoration: SymbolDecoration,
    layout: LayoutAssessment,
    callable: CallableAbiAssessment,
    artifact: ResolvedArtifact,
    symbol: SymbolRecord,
    expected_name: Seq<char>,
    kind: SymbolKind,
) -> bool {
    &&& e.declaration == declaration
    &&& e.source_fingerprint == source.fingerprint
    &&& e.target_fingerprint == source.target.fingerprint
    &&& e.provider == ProviderAssessment::Resolved {
        provider: artifact.spec_provider_id(),
        artifact_fingerprint: artifact.spec_fingerprint(),
    }
    &&& e.symbol matches SymbolAssessment::Exact { symbol: r, expected_name: en, actual_name: an, kind: k, decoration: dd }
    &&& r.spec_provider() == artifact.spec_provider_id()
    &&& r.spec_symbol() == symbol.spec_input().id
    &&& en@ == expected_name
    &&& an@ == symbol.spec_input().name@
    &&& k == kind
    &&& dd == decoration
    &&& e.layout == layout
    &&& e.callable_abi == callable
}

fn abi_error(declaration: DeclarationId, detail: &str) -> (out: NativeError)
    ensures
        out matches NativeError::AbiMismatch { declaration: d, detail: m } && d == declaration && m@ == detail@,
{
    NativeError::AbiMismatch { declaration, detail: detail.to_owned() }
}

impl StrictEvidenceValidator {
    /// Validates one linked declaration against the resolution: picks the
    /// one provider symbol that satisfies it and checks its callable
    /// evidence. `shape_check` is the outcome of checking the function's
    /// measured shape against its source types, which is consulted only
    /// after the shape is found bound to this declaration.
    #[verifier::rlimit(40)]
    pub fn validate_declaration(
        &self,
        source: &CompleteSourcePackage,
        resolution: &NativeResolution,
        request: StrictDeclarationRequest<'_>,
        shape_check: Result<(), NativeError>,
    ) -> (res: Result<DeclarationEvidence, NativeError>)
        ensures
            match declaration_verdict(
                *source,
                *resolution,
                request.declaration,
                request.decoration,
                request.layout,
                request.callable_abi,
                shape_value(request.abi_shape),
                shape_check is Ok,
            ) {
                DeclarationVerdict::AbiMismatch(detail) => res matches Err(NativeError::AbiMismatch { declaration: x, detail: m })
                    && x == request.declaration && m@ == detail,
                DeclarationVerdict::SymbolRejected(detail) => res matches Err(
                    NativeError::SymbolRejected { declaration: x, detail: m },
                ) && x == request.declaration && m@ == detail,
                DeclarationVerdict::ShapeRejected => shape_check matches Err(e) && res == Err::<DeclarationEvidence, NativeError>(e),
                DeclarationVerdict::Accepted { artifact, symbol, expected_name, kind } => if !is_valid_text(expected_name) {
                    res == Err::<DeclarationEvidence, NativeError>(
                        NativeError::Contract(ContractError::InvalidText { field: "declaration_evidence.symbol.expected_name" }),
                    )
                } else if !is_valid_text(symbol.spec_input().name@) {
                    res == Err::<DeclarationEvidence, NativeError>(
                        NativeError::Contract(ContractError::InvalidText { field: "declaration_evidence.symbol.actual_name" }),
                    )
                } else {
                    res matches Ok(ev) && exact_evidence(
                        ev.spec_input(),
                        *source,
                        request.declaration,
                        request.decoration,
                        request.layout,
                        request.callable_abi,
                        artifact,
                        symbol,
                        expected_name,
                        kind,
                    )
                },
            },
    {
        if !resolution.source_fingerprint().same(&source.fingerprint) || !resolution.target_fingerprint().same(
            &source.target.fingerprint,
        ) {
            return Err(
                abi_error(request.declaration, "resolved providers are bound to a different source or target fingerprint"),
            );
        }
        let declaration = match find_source_declaration(source.declarations.as_slice(), request.declaration) {
            Some(d) => d,
            None => {
                return Err(abi_error(request.declaration, "declaration ID is absent from the complete source package"));
            },
        };
        let (expected_name, expected_kind, expected_convention) = match &declaration.kind {
            SourceDeclarationKind::Function { link_name, calling_convention } => (
                link_name.as_str(),
                SymbolKind::Function,
                Some(*calling_convention),
            ),
            SourceDeclarationKind::Variable { link_name, thread_local } => (
                link_name.as_str(),
                if *thread_local {
                    SymbolKind::ThreadLocal
                } else {
                    SymbolKind::Data
                },
                None,
            ),
            _ => {
                return Err(
                    NativeError::SymbolRejected {
                        declaration: request.declaration,
                        detail: "only linked functions and variables may request provider evidence".to_owned(),
                    },
                );
            },
        };
        let confirmed = match &request.callable_abi {
            CallableAbiAssessment::Confirmed { calling_convention, .. } => Some(*calling_convention),
            _ => None,
        };
        let inventories = resolution.inventories();
        let chosen = select_symbol(
            inventories,
            resolution.plan().atoms(),
            expected_name,
            &request.decoration,
            expected_convention,
            confirmed,
            expected_kind,
            resolution.weak_symbol_policy(),
        );
        let (k, j) = match chosen {
            Ok(p) => p,
            Err(detail) => {
                return Err(NativeError::SymbolRejected { declaration: request.declaration, detail });
            },
        };
        let inventory = &inventories[k];
        let symbol = &inventory.symbols()[j];
        match expected_convention {
            Some(convention) => {
                match request.layout {
                    LayoutAssessment::NotRequired => {},
                    _ => {
                        return Err(abi_error(request.declaration, "functions cannot carry declaration layout evidence"));
                    },
                }
                let confirmed_ok = match &request.callable_abi {
                    CallableAbiAssessment::Confirmed { calling_convention, confidence, .. } => *calling_convention
                        == convention && confidence.is_strictly_measured(),
                    _ => false,
                };
                if !confirmed_ok {
                    return Err(
                        abi_error(
                            request.declaration,
                            "calling convention or callable confidence differs from the source declaration",
                        ),
                    );
                }
                let shape = match request.abi_shape {
                    Some(shape) => shape,
                    None => {
                        return Err(abi_error(request.declaration, "callable ABI shape evidence is required"));
                    },
                };
                if !shape.declaration().same(&request.declaration) {
                    return Err(abi_error(request.declaration, "callable ABI shape is bound to another declaration"));
                }
                match shape_check {
                    Ok(()) => {},
                    Err(e) => {
                        return Err(e);
                    },
                }
                let probe_ok = match &request.callable_abi {
                    CallableAbiAssessment::Confirmed { probe, .. } => probe.same(&shape.probe()),
                    _ => false,
                };
                if !probe_ok {
                    return Err(abi_error(request.declaration, "callable assessment does not match measured shape evidence"));
                }
            },
            None => {
                let layout_none = match request.layout {
                    LayoutAssessment::NotRequired => true,
                    _ => false,
                };
                let callable_none = match request.callable_abi {
                    CallableAbiAssessment::NotApplicable => true,
                    _ => false,
                };
                if request.abi_shape.is_some() || !layout_none || !callable_none {
                    return Err(abi_error(request.declaration, "variables require symbol evidence only"));
                }
            },
        }
        let provider = inventory.artifact().provider_id();
        let input = DeclarationEvidenceInput {
            declaration: request.declaration,
            source_fingerprint: source.fingerprint,
            target_fingerprint: source.target.fingerprint,
            provider: ProviderAssessment::Resolved {
                provider,
                artifact_fingerprint: inventory.artifact().artifact_fingerprint(),
            },
            symbol: SymbolAssessment::Exact {
                symbol: SymbolReference::new(provider, symbol.id()),
                expected_name: expected_name.to_owned(),
                actual_name: symbol.name().to_owned(),
                kind: expected_kind,
                decoration: request.decoration,
            },
            layout: request.layout,
            callable_abi: request.callable_abi,
        };
        match DeclarationEvidence::try_new(input) {
            Ok(evidence) => Ok(evidence),
            Err(e) => Err(NativeError::Contract(e)),
        }
    }
}

// ---------------------------------------------------------------------------
// Callable shapes against their source signature
// ---------------------------------------------------------------------------

/// A source value type together with the fingerprint of its C type.
#[derive(Debug)]
pub struct TypedValue {
    pub ty: AbiType,
    pub fingerprint: ContentFingerprint,
}

/// A C function as the callable-ABI check sees it.
#[derive(Debug)]
pub struct SourceSignature {
    pub calling_convention: CallingConvention,
    pub prototyped: bool,
    pub variadic: bool,
    pub parameters: Vec<TypedValue>,
    pub return_value: TypedValue,
}

/// A measured dimension is bound to the value's type and has the layout the
/// type demands.
pub open spec fn dimension_matches(records: Seq<RecordShape>, pointer: (u16, u16), v: TypedValue, d: AbiDimension, parameter: bool) -> bool {
    &&& d.spec_source_type() == v.fingerprint
    &&& expected_layout_spec(records, pointer, v.ty, parameter) == Some((d.spec_size_bits(), d.spec_alignment_bits()))
}

/// Whether the callable falls in the certified x86-64 System V lane.
pub open spec fn sysv_lane(target: TargetSpec, convention: CallingConvention) -> bool {
    target.triple@ == "x86_64-unknown-linux-gnu"@ && (convention is C || convention is Cdecl || convention is SysV64)
}

/// The System V classifier's own demands on the target.
pub open spec fn sysv_target_ok(target: TargetSpec, pointer: (u16, u16)) -> bool {
    &&& target.architecture == Architecture::X86_64
    &&& target.operating_system == OperatingSystem::Linux
    &&& target.environment == Environment::Gnu
    &&& target.object_format == ObjectFormat::Elf
    &&& target.endian == Endian::Little
    &&& target.pointer_width == 64
    &&& pointer.0 == 64 && pointer.1 == 64
}

/// The classifier derives exactly the measured passing of every parameter,
/// of the return value, and the return convention.
pub open spec fn sysv_agrees(records: Seq<RecordShape>, pointer: (u16, u16), target: TargetSpec, f: SourceSignature, shape: AbiShapeEvidence) -> bool {
    &&& sysv_target_ok(target, pointer)
    &&& !f.variadic
    &&& forall|i: int| 0 <= i < f.parameters@.len() ==> (match value_classification(records, pointer, (#[trigger] f.parameters@[i]).ty, AbiPosition::Parameter) {
        Some((_, p)) => p == shape.spec_parameters()[i].spec_passing(),
        None => false,
    })
    &&& match value_classification(records, pointer, f.return_value.ty, AbiPosition::Return) {
        Some((_, p)) => p == shape.spec_return_value().spec_passing() && return_convention_spec(p) == shape.spec_return_convention(),
        None => false,
    }
}

/// Void returns use the void convention and nothing else does; scalars
/// never claim an aggregate return slot.
pub open spec fn return_category_ok(ty: AbiType, convention: ReturnConvention) -> bool {
    match ty {
        AbiType::Void => convention is Void,
        AbiType::Array { .. } | AbiType::Record { .. } => !(convention is Void),
        _ => !(convention is Void) && !(convention is IndirectSret),
    }
}

/// The shape's probe verified the callable subject with the shape's own
/// fingerprint.
pub open spec fn callable_probe_binds(probes: Seq<AbiProbeEvidence>, shape: AbiShapeEvidence) -> bool {
    let subject = ProbeSubject::CallableAbi { declaration: shape.spec_declaration() };
    match probe_for(probes, shape.spec_probe()) {
        None => false,
        Some(p) => {
            &&& p.spec_input().subjects@.contains(subject)
            &&& match first_outcome(p.spec_input().subject_outcomes@, subject) {
                Some(o) => match o.spec_status() {
                    ProbeSubjectStatus::Verified { evidence_fingerprint } => evidence_fingerprint@ == digest_spec(
                        encode_utf8(CONTENT_FINGERPRINT_DOMAIN@),
                        seq![shape.fingerprint_payload()],
                    ),
                    _ => false,
                },
                None => false,
            }
        },
    }
}

/// Every check that a measured callable shape must pass against its source
/// signature.
pub open spec fn callable_shape_ok(
    source: CompleteSourcePackage,
    records: Seq<RecordShape>,
    pointer: (u16, u16),
    f: SourceSignature,
    shape: AbiShapeEvidence,
    probes: Seq<AbiProbeEvidence>,
) -> bool {
    &&& shape.spec_source_fingerprint() == source.fingerprint
    &&& shape.spec_target_fingerprint() == source.target.fingerprint
    &&& shape.spec_calling_convention() == f.calling_convention
    &&& f.prototyped
    &&& shape.spec_variadic() == f.variadic
    &&& shape.spec_parameters().len() == f.parameters@.len()
    &&& forall|i: int| 0 <= i < f.parameters@.len() ==> dimension_matches(records, pointer, #[trigger] f.parameters@[i], shape.spec_parameters()[i], true)
    &&& dimension_matches(records, pointer, f.return_value, shape.spec_return_value(), false)
    &&& sysv_lane(source.target, f.calling_convention) ==> sysv_agrees(records, pointer, source.target, f, shape)
    &&& return_category_ok(f.return_value.ty, shape.spec_return_convention())
    &&& callable_probe_binds(probes, shape)
}

fn dimension_check(records: &[RecordShape], pointer: (u16, u16), v: &TypedValue, d: &AbiDimension, parameter: bool, declaration: DeclarationId) -> (res: Result<(), NativeError>)
    ensures
        res is Ok <==> dimension_matches(records@, pointer, *v, *d, parameter),
{
    if !d.source_type().same(&v.fingerprint) {
        return Err(abi_error(declaration, "ABI dimension is bound to a different source type"));
    }
    let (size, alignment) = expected_layout(records, pointer, &v.ty, parameter)?;
    if d.size_bits() != size || d.alignment_bits() != alignment {
        return Err(abi_error(declaration, "measured scalar/aggregate size or alignment differs from checked evidence"));
    }
    Ok(())
}

fn sysv_check(records: &[RecordShape], pointer: (u16, u16), target: &TargetSpec, f: &SourceSignature, shape: &AbiShapeEvidence) -> (res: Result<(), NativeError>)
    requires
        shape.spec_parameters().len() == f.parameters@.len(),
    ensures
        res is Ok <==> sysv_agrees(records@, pointer, *target, *f, *shape),
{
    if !(target.architecture == Architecture::X86_64 && target.operating_system == OperatingSystem::Linux
        && target.environment == Environment::Gnu && target.object_format == ObjectFormat::Elf
        && target.endian == Endian::Little && target.pointer_width == 64 && pointer.0 == 64 && pointer.1 == 64) {
        return Err(NativeError::InvalidPolicy { detail: "the initial SysV64 classifier accepts only x86_64-unknown-linux-gnu ELF".to_owned() });
    }
    if f.variadic {
        return Err(NativeError::InvalidPolicy { detail: "variadic callables are outside the initial SysV64 surface".to_owned() });
    }
    let dims = shape.parameters();
    let mut i: usize = 0;
    while i < f.parameters.len()
        invariant
            i <= f.parameters@.len(),
            dims@ == shape.spec_parameters(),
            dims@.len() == f.parameters@.len(),
            forall|j: int| 0 <= j < i ==> (match value_classification(records@, pointer, (#[trigger] f.parameters@[j]).ty, AbiPosition::Parameter) {
                Some((_, p)) => p == shape.spec_parameters()[j].spec_passing(),
                None => false,
            }),
        decreases f.parameters@.len() - i,
    {
        let (_, passing) = classify_value(records, pointer.0, pointer.1, &f.parameters[i].ty, AbiPosition::Parameter)?;
        if passing != dims[i].passing() {
            return Err(NativeError::AbiMismatch { declaration: shape.declaration(), detail: "callable passing or return convention differs from the SysV64 classifier".to_owned() });
        }
        i = i + 1;
    }
    let (_, passing) = classify_value(records, pointer.0, pointer.1, &f.return_value.ty, AbiPosition::Return)?;
    if passing != shape.return_value().passing() || return_convention(passing) != shape.return_convention() {
        return Err(NativeError::AbiMismatch { declaration: shape.declaration(), detail: "callable passing or return convention differs from the SysV64 classifier".to_owned() });
    }
    Ok(())
}

impl StrictEvidenceValidator {
    /// Checks a measured callable shape against its source signature: the
    /// fingerprints, convention, prototype and variadic dimension, each
    /// parameter and the return value against the layout its type demands,
    /// the System V classifier where the callable is in that lane, the return
    /// category, and the probe that must bind the shape's fingerprint.
    pub fn validate_callable_shape(
        &self,
        source: &CompleteSourcePackage,
        records: &[RecordShape],
        pointer: (u16, u16),
        function: &SourceSignature,
        shape: &AbiShapeEvidence,
        probes: &[AbiProbeEvidence],
    ) -> (res: Result<(), NativeError>)
        ensures
            res is Ok <==> callable_shape_ok(*source, records@, pointer, *function, *shape, probes@),
    {
        let declaration = shape.declaration();
        if !shape.source_fingerprint().same(&source.fingerprint) || !shape.target_fingerprint().same(&source.target.fingerprint) {
            return Err(abi_error(declaration, "callable evidence has stale source or target fingerprints"));
        }
        if shape.calling_convention() != function.calling_convention {
            return Err(abi_error(declaration, "calling convention differs from the source declaration"));
        }
        if !function.prototyped {
            return Err(abi_error(declaration, "unprototyped callables are not accepted by the strict lane"));
        }
        if shape.variadic() != function.variadic {
            return Err(abi_error(declaration, "variadic ABI dimension differs from the source declaration"));
        }
        let dims = shape.parameters();
        if dims.len() != function.parameters.len() {
            return Err(abi_error(declaration, "parameter ABI dimension count differs from the source declaration"));
        }
        let mut i: usize = 0;
        while i < function.parameters.len()
            invariant
                i <= function.parameters@.len(),
                dims@ == shape.spec_parameters(),
                dims@.len() == function.parameters@.len(),
                forall|j: int| 0 <= j < i ==> dimension_matches(records@, pointer, #[trigger] function.parameters@[j], shape.spec_parameters()[j], true),
            decreases function.parameters@.len() - i,
        {
            dimension_check(records, pointer, &function.parameters[i], &dims[i], true, declaration)?;
            i = i + 1;
        }
        let ret = shape.return_value();
        dimension_check(records, pointer, &function.return_value, &ret, false, declaration)?;
        let lane = str_eq(source.target.triple.as_str(), "x86_64-unknown-linux-gnu") && match function.calling_convention {
            CallingConvention::C | CallingConvention::Cdecl | CallingConvention::SysV64 => true,
            _ => false,
        };
        proof {
            reveal_strlit("x86_64-unknown-linux-gnu");
        }
        if lane {
            sysv_check(records, pointer, &source.target, function, shape)?;
        }
        let convention = shape.return_convention();
        let category_ok = match &function.return_value.ty {
            AbiType::Void => convention == ReturnConvention::Void,
            AbiType::Array { .. } | AbiType::Record { .. } => convention != ReturnConvention::Void,
            _ => convention != ReturnConvention::Void && convention != ReturnConvention::IndirectSret,
        };
        if !category_ok {
            return Err(abi_error(declaration, "return type category differs from the return convention"));
        }
        let probe = match find_probe_evidence(probes, shape.probe()) {
            Some(p) => p,
            None => {
                return Err(abi_error(declaration, "callable probe evidence is missing"));
            },
        };
        let subject = ProbeSubject::CallableAbi { declaration };
        if !probe.supports(subject) {
            return Err(abi_error(declaration, "callable probe did not verify this exact declaration"));
        }
        let expected = shape.fingerprint();
        match find_outcome(probe.subject_outcomes(), subject) {
            Some(outcome) => match outcome.status() {
                ProbeSubjectStatus::Verified { evidence_fingerprint } => {
                    if evidence_fingerprint.same(&expected) {
                        Ok(())
                    } else {
                        Err(abi_error(declaration, "probe outcome fingerprint does not bind the typed callable evidence"))
                    }
                },
                _ => Err(abi_error(declaration, "callable probe did not verify this exact declaration")),
            },
            None => Err(abi_error(declaration, "callable probe did not verify this exact declaration")),
        }
    }
}

} // verus!
