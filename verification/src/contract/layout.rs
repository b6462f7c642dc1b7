//! Measured record and enum layouts: whole-object shape plus one entry per
//! member, kept in ascending member order with no member twice.
use vstd::prelude::*;
use super::payload::{lemma_extend, Canonical};

use super::error::ContractError;
use super::evidence::{layout_shape_ok, validate_layout_shape, EvidenceConfidence, EvidenceSource, FieldLayoutEvidence};
use super::identity::ProbeEvidenceId;
use super::inventory::{hits, lemma_injective_onto};
use super::order::{
    compare_bytes, lemma_lex_sign_antisymmetric, lemma_lex_sign_equal, lemma_lex_sign_range, lemma_lex_sign_strict_transitive,
    lemma_lex_sign_transitive, lex_sign,
};
use super::source::{ChildId, ContentFingerprint, DeclarationId, SourceFingerprint, TargetFingerprint};
use super::identity::{digest, digest_spec};
use vstd::utf8::encode_utf8;

verus! {

/// An enumerator's exact value, as the source declares it.
#[derive(Debug, Clone, Copy, PartialEq, Eq, PartialOrd, Ord, Hash, Structural)]
pub enum ExactInteger {
    Signed { value: i128 },
    Unsigned { value: u128 },
}

/// Whether an enum's storage is signed.
#[derive(Debug, Clone, Copy, PartialEq, Eq, PartialOrd, Ord, Hash, Structural)]
pub enum Signedness {
    Signed,
    Unsigned,
}

/// The measured value of one enumerator.
#[derive(Debug, Clone, Copy, PartialEq, Eq)]
pub struct EnumVariantEvidence {
    child: ChildId,
    value: ExactInteger,
}

impl EnumVariantEvidence {
    pub closed spec fn spec_value(&self) -> ExactInteger {
        self.value
    }

    pub fn new(child: ChildId, value: ExactInteger) -> (out: Self)
        ensures
            out.member_child() == child,
            out.spec_value() == value,
    {
        EnumVariantEvidence { child, value }
    }

    pub fn child(&self) -> (out: ChildId)
        ensures
            out == self.member_child(),
    {
        self.child
    }

    pub fn value(&self) -> (out: &ExactInteger)
        ensures
            *out == self.spec_value(),
    {
        &self.value
    }
}

/// A member entry of a layout, keyed by the member's child identity.
pub trait LayoutMember: Sized + Copy {
    spec fn member_child(&self) -> ChildId;

    fn member_child_exec(&self) -> (out: ChildId)
        ensures
            out == self.member_child(),
    ;
}

impl LayoutMember for FieldLayoutEvidence {
    open spec fn member_child(&self) -> ChildId {
        self.spec_child()
    }

    fn member_child_exec(&self) -> (out: ChildId) {
        self.child()
    }
}

impl LayoutMember for EnumVariantEvidence {
    closed spec fn member_child(&self) -> ChildId {
        self.child
    }

    fn member_child_exec(&self) -> (out: ChildId) {
        self.child
    }
}

/// -1, 0 or 1 as the first member's child orders before, with or after the second's.
pub open spec fn member_sign<T: LayoutMember>(a: T, b: T) -> int {
    lex_sign(a.member_child()@, b.member_child()@)
}

/// Members in ascending child order, none twice.
pub open spec fn members_ascending<T: LayoutMember>(s: Seq<T>) -> bool {
    forall|i: int, j: int| 0 <= i < j < s.len() ==> member_sign(#[trigger] s[i], #[trigger] s[j]) < 0
}

/// No two members share a child.
pub open spec fn children_distinct<T: LayoutMember>(s: Seq<T>) -> bool {
    forall|i: int, j: int| 0 <= i < j < s.len() ==> (#[trigger] s[i]).member_child() != (#[trigger] s[j]).member_child()
}

proof fn lemma_member_sign_facts<T: LayoutMember>(a: T, b: T, c: T)
    ensures
        member_sign(a, b) == -member_sign(b, a),
        -1 <= member_sign(a, b) <= 1,
        member_sign(a, b) == 0 <==> a.member_child() == b.member_child(),
        member_sign(a, b) <= 0 && member_sign(b, c) <= 0 ==> member_sign(a, c) <= 0,
        member_sign(a, b) < 0 && member_sign(b, c) <= 0 ==> member_sign(a, c) < 0,
{
    let (ca, cb, cc) = (a.member_child()@, b.member_child()@, c.member_child()@);
    lemma_lex_sign_antisymmetric(ca, cb);
    lemma_lex_sign_range(ca, cb);
    lemma_lex_sign_equal(ca, cb);
    if member_sign(a, b) == 0 {
        ChildId::lemma_view_injective(a.member_child(), b.member_child());
    }
    if member_sign(a, b) <= 0 && member_sign(b, c) <= 0 {
        lemma_lex_sign_transitive(ca, cb, cc);
    }
    if member_sign(a, b) < 0 && member_sign(b, c) <= 0 {
        lemma_lex_sign_strict_transitive(ca, cb, cc);
    }
}

fn member_sign_exec<T: LayoutMember>(a: &T, b: &T) -> (out: i8)
    ensures
        out as int == member_sign(*a, *b),
{
    let ca = a.member_child_exec();
    let cb = b.member_child_exec();
    compare_bytes(ca.as_bytes().as_slice(), cb.as_bytes().as_slice())
}

/// Sorts members by child, stably, returning where each came from.
fn sort_members<T: LayoutMember>(items: &Vec<T>) -> (out: (Vec<T>, Ghost<Seq<int>>))
    ensures
        forall|i: int, j: int| 0 <= i < j < out.0@.len() ==> member_sign(#[trigger] out.0@[i], #[trigger] out.0@[j]) <= 0,
        out.0@.len() == items@.len(),
        out.1@.len() == items@.len(),
        forall|q: int| 0 <= q < items@.len() ==> 0 <= #[trigger] out.1@[q] < items@.len() && out.0@[q] == items@[out.1@[q]],
        forall|a: int, b: int| 0 <= a < b < items@.len() ==> #[trigger] out.1@[a] != #[trigger] out.1@[b],
{
    let n = items.len();
    let mut sorted: Vec<T> = Vec::new();
    let ghost mut perm: Seq<int> = Seq::empty();
    let mut k: usize = 0;
    while k < n
        invariant
            n == items@.len(),
            k <= n,
            forall|i: int, j: int| 0 <= i < j < sorted@.len() ==> member_sign(#[trigger] sorted@[i], #[trigger] sorted@[j]) <= 0,
            sorted@.len() == k,
            perm.len() == k,
            forall|q: int| 0 <= q < k ==> 0 <= #[trigger] perm[q] < k && sorted@[q] == items@[perm[q]],
            forall|a: int, b: int| 0 <= a < b < k ==> #[trigger] perm[a] != #[trigger] perm[b],
        decreases n - k,
    {
        let x = items[k];
        let mut p: usize = 0;
        while p < sorted.len() && member_sign_exec(&sorted[p], &x) <= 0
            invariant
                p <= sorted@.len(),
                forall|m: int| 0 <= m < p ==> member_sign(#[trigger] sorted@[m], x) <= 0,
            decreases sorted@.len() - p,
        {
            p = p + 1;
        }
        let ghost before = sorted@;
        sorted.insert(p, x);
        proof {
            let old_perm = perm;
            perm = perm.insert(p as int, k as int);
            assert(sorted@ == before.insert(p as int, x));
            assert forall|q: int| 0 <= q < k + 1 implies 0 <= #[trigger] perm[q] < k + 1 && sorted@[q] == items@[perm[q]] by {
                if q < p {
                    assert(perm[q] == old_perm[q]);
                } else if q > p {
                    assert(perm[q] == old_perm[q - 1]);
                }
            }
            assert forall|a: int, b: int| 0 <= a < b < k + 1 implies #[trigger] perm[a] != #[trigger] perm[b] by {
                if a == p {
                    assert(perm[b] == old_perm[b - 1]);
                } else if b == p {
                    assert(perm[a] == old_perm[a]);
                } else {
                    let oa = if a < p { a } else { a - 1 };
                    let ob = if b < p { b } else { b - 1 };
                    assert(perm[a] == old_perm[oa]);
                    assert(perm[b] == old_perm[ob]);
                }
            }
            assert forall|i: int, j: int| 0 <= i < j < sorted@.len() implies member_sign(#[trigger] sorted@[i], #[trigger] sorted@[j]) <= 0 by {
                if j < p {
                    assert(sorted@[i] == before[i] && sorted@[j] == before[j]);
                } else if j == p {
                    assert(sorted@[i] == before[i]);
                } else if i == p {
                    assert(sorted@[j] == before[j - 1]);
                    if p < before.len() {
                        lemma_member_sign_facts(before[p as int], x, x);
                        if j - 1 > p {
                            assert(member_sign(before[p as int], before[j - 1]) <= 0);
                            lemma_member_sign_facts(x, before[p as int], before[j - 1]);
                        }
                    }
                } else if i < p {
                    assert(sorted@[i] == before[i]);
                    assert(sorted@[j] == before[j - 1]);
                } else {
                    assert(sorted@[i] == before[i - 1]);
                    assert(sorted@[j] == before[j - 1]);
                }
            }
        }
        k = k + 1;
    }
    (sorted, Ghost(perm))
}

/// The members in ascending child order; refused, naming a repeated child,
/// when two members share one.
pub fn canonicalize_members<T: LayoutMember>(declaration: DeclarationId, items: &Vec<T>) -> (res: Result<Vec<T>, ContractError>)
    ensures
        children_distinct(items@) ==> (res matches Ok(v) && members_ascending(v@) && v@.to_set() == items@.to_set()
            && v@.len() == items@.len()),
        !children_distinct(items@) ==> (res matches Err(ContractError::DuplicateLayoutChild { declaration: d, child })
            && d == declaration && exists|i: int, j: int|
            0 <= i < j < items@.len() && (#[trigger] items@[i]).member_child() == child && (#[trigger] items@[j]).member_child()
                == child),
{
    let ghost input = items@;
    let (sorted, Ghost(perm)) = sort_members(items);
    if sorted.len() == 0 {
        proof {
            assert(sorted@.to_set() =~= input.to_set());
        }
        return Ok(sorted);
    }
    let mut m: usize = 1;
    while m < sorted.len()
        invariant
            1 <= m,
            input == items@,
            m <= sorted@.len(),
            sorted@.len() == input.len(),
            perm.len() == input.len(),
            forall|i: int, j: int| 0 <= i < j < sorted@.len() ==> member_sign(#[trigger] sorted@[i], #[trigger] sorted@[j]) <= 0,
            forall|q: int| 0 <= q < input.len() ==> 0 <= #[trigger] perm[q] < input.len() && sorted@[q] == input[perm[q]],
            forall|a: int, b: int| 0 <= a < b < input.len() ==> #[trigger] perm[a] != #[trigger] perm[b],
            forall|a: int| 0 <= a < m - 1 ==> member_sign(#[trigger] sorted@[a], sorted@[a + 1]) < 0,
        decreases sorted@.len() - m,
    {
        if member_sign_exec(&sorted[m - 1], &sorted[m]) == 0 {
            let child = sorted[m].member_child_exec();
            proof {
                let a = sorted@[m - 1];
                let b = sorted@[m as int];
                lemma_member_sign_facts(a, b, b);
                let (x, y) = if perm[m - 1] < perm[m as int] {
                    (perm[m - 1], perm[m as int])
                } else {
                    (perm[m as int], perm[m - 1])
                };
                assert(perm[m - 1] != perm[m as int]);
                assert(input[x].member_child() == child && input[y].member_child() == child);
            }
            return Err(ContractError::DuplicateLayoutChild { declaration, child });
        }
        proof {
            lemma_member_sign_facts(sorted@[m - 1], sorted@[m as int], sorted@[m as int]);
        }
        m = m + 1;
    }
    proof {
        assert forall|i: int, j: int| 0 <= i < j < sorted@.len() implies member_sign(#[trigger] sorted@[i], #[trigger] sorted@[j]) < 0 by {
            lemma_member_sign_facts(sorted@[i], sorted@[i + 1], sorted@[j]);
        }
        lemma_injective_onto(perm, input.len() as int);
        assert forall|i: int, j: int| 0 <= i < j < input.len() implies (#[trigger] input[i]).member_child() != (#[trigger] input[j]).member_child() by {
            assert(hits(perm, input.len() as int, i));
            assert(hits(perm, input.len() as int, j));
            let qi = choose|q: int| 0 <= q < input.len() && #[trigger] perm[q] == i;
            let qj = choose|q: int| 0 <= q < input.len() && #[trigger] perm[q] == j;
            if qi < qj {
                lemma_member_sign_facts(sorted@[qi], sorted@[qj], sorted@[qj]);
            } else {
                lemma_member_sign_facts(sorted@[qj], sorted@[qi], sorted@[qi]);
            }
        }
        assert forall|x: T| sorted@.to_set().contains(x) <==> input.to_set().contains(x) by {
            if sorted@.contains(x) {
                let q = choose|q: int| 0 <= q < sorted@.len() && sorted@[q] == x;
                assert(input[perm[q]] == x);
            }
            if input.contains(x) {
                let i = choose|i: int| 0 <= i < input.len() && input[i] == x;
                assert(hits(perm, input.len() as int, i));
                let q = choose|q: int| 0 <= q < input.len() && #[trigger] perm[q] == i;
                assert(sorted@[q] == x);
            }
        }
        assert(sorted@.to_set() =~= input.to_set());
    }
    Ok(sorted)
}

/// Measured layout of one record: size, alignment and each field's placement.
#[derive(Debug, Clone, PartialEq, Eq)]
pub struct RecordLayoutEvidence {
    declaration: DeclarationId,
    source_fingerprint: SourceFingerprint,
    target_fingerprint: TargetFingerprint,
    size_bits: u64,
    alignment_bits: u32,
    fields: Vec<FieldLayoutEvidence>,
    probe: ProbeEvidenceId,
    source: EvidenceSource,
    confidence: EvidenceConfidence,
}

impl RecordLayoutEvidence {
    pub closed spec fn spec_declaration(&self) -> DeclarationId {
        self.declaration
    }

    pub closed spec fn spec_source_fingerprint(&self) -> SourceFingerprint {
        self.source_fingerprint
    }

    pub closed spec fn spec_target_fingerprint(&self) -> TargetFingerprint {
        self.target_fingerprint
    }

    pub closed spec fn spec_size_bits(&self) -> u64 {
        self.size_bits
    }

    pub closed spec fn spec_alignment_bits(&self) -> u32 {
        self.alignment_bits
    }

    pub closed spec fn spec_fields(&self) -> Seq<FieldLayoutEvidence> {
        self.fields@
    }

    pub closed spec fn spec_probe(&self) -> ProbeEvidenceId {
        self.probe
    }

    pub closed spec fn spec_source(&self) -> EvidenceSource {
        self.source
    }

    pub closed spec fn spec_confidence(&self) -> EvidenceConfidence {
        self.confidence
    }

    /// A record layout with a valid whole-object shape; its fields are kept
    /// in ascending child order and no child may occur twice.
    pub fn try_new(
        declaration: DeclarationId,
        source_fingerprint: SourceFingerprint,
        target_fingerprint: TargetFingerprint,
        size_bits: u64,
        alignment_bits: u32,
        fields: Vec<FieldLayoutEvidence>,
        probe: ProbeEvidenceId,
        source: EvidenceSource,
        confidence: EvidenceConfidence,
    ) -> (res: Result<Self, ContractError>)
        ensures
            !layout_shape_ok(size_bits, alignment_bits) ==> res == Err::<Self, ContractError>(
                ContractError::InvalidLayout { declaration },
            ),
            layout_shape_ok(size_bits, alignment_bits) && !children_distinct(fields@) ==> (res matches Err(
                ContractError::DuplicateLayoutChild { declaration: d, child },
            ) && d == declaration && exists|i: int, j: int|
                0 <= i < j < fields@.len() && (#[trigger] fields@[i]).member_child() == child
                    && (#[trigger] fields@[j]).member_child() == child),
            layout_shape_ok(size_bits, alignment_bits) && children_distinct(fields@) ==> (res matches Ok(r)
                && r.spec_declaration() == declaration && r.spec_source_fingerprint() == source_fingerprint
                && r.spec_target_fingerprint() == target_fingerprint && r.spec_size_bits() == size_bits
                && r.spec_alignment_bits() == alignment_bits && r.spec_probe() == probe && r.spec_source() == source
                && r.spec_confidence() == confidence && members_ascending(r.spec_fields())
                && r.spec_fields().to_set() == fields@.to_set() && r.spec_fields().len() == fields@.len()),
    {
        validate_layout_shape(declaration, size_bits, alignment_bits)?;
        let fields = canonicalize_members(declaration, &fields)?;
        Ok(RecordLayoutEvidence {
            declaration,
            source_fingerprint,
            target_fingerprint,
            size_bits,
            alignment_bits,
            fields,
            probe,
            source,
            confidence,
        })
    }

    pub fn declaration(&self) -> (out: DeclarationId)
        ensures
            out == self.spec_declaration(),
    {
        self.declaration
    }

    pub fn source_fingerprint(&self) -> (out: SourceFingerprint)
        ensures
            out == self.spec_source_fingerprint(),
    {
        self.source_fingerprint
    }

    pub fn target_fingerprint(&self) -> (out: TargetFingerprint)
        ensures
            out == self.spec_target_fingerprint(),
    {
        self.target_fingerprint
    }

    pub fn size_bits(&self) -> (out: u64)
        ensures
            out == self.spec_size_bits(),
    {
        self.size_bits
    }

    pub fn alignment_bits(&self) -> (out: u32)
        ensures
            out == self.spec_alignment_bits(),
    {
        self.alignment_bits
    }

    pub fn fields(&self) -> (out: &[FieldLayoutEvidence])
        ensures
            out@ == self.spec_fields(),
    {
        self.fields.as_slice()
    }

    pub fn probe(&self) -> (out: ProbeEvidenceId)
        ensures
            out == self.spec_probe(),
    {
        self.probe
    }

    pub fn source(&self) -> (out: EvidenceSource)
        ensures
            out == self.spec_source(),
    {
        self.source
    }

    pub fn confidence(&self) -> (out: EvidenceConfidence)
        ensures
            out == self.spec_confidence(),
    {
        self.confidence
    }
}

/// Measured representation of one enum: storage, alignment, signedness and
/// each enumerator's value.
#[derive(Debug, Clone, PartialEq, Eq)]
pub struct EnumLayoutEvidence {
    declaration: DeclarationId,
    source_fingerprint: SourceFingerprint,
    target_fingerprint: TargetFingerprint,
    storage_bits: u64,
    alignment_bits: u32,
    signedness: Signedness,
    variants: Vec<EnumVariantEvidence>,
    probe: ProbeEvidenceId,
    source: EvidenceSource,
    confidence: EvidenceConfidence,
}

impl EnumLayoutEvidence {
    pub closed spec fn spec_declaration(&self) -> DeclarationId {
        self.declaration
    }

    pub closed spec fn spec_source_fingerprint(&self) -> SourceFingerprint {
        self.source_fingerprint
    }

    pub closed spec fn spec_target_fingerprint(&self) -> TargetFingerprint {
        self.target_fingerprint
    }

    pub closed spec fn spec_storage_bits(&self) -> u64 {
        self.storage_bits
    }

    pub closed spec fn spec_alignment_bits(&self) -> u32 {
        self.alignment_bits
    }

    pub closed spec fn spec_signedness(&self) -> Signedness {
        self.signedness
    }

    pub closed spec fn spec_variants(&self) -> Seq<EnumVariantEvidence> {
        self.variants@
    }

    pub closed spec fn spec_probe(&self) -> ProbeEvidenceId {
        self.probe
    }

    pub closed spec fn spec_source(&self) -> EvidenceSource {
        self.source
    }

    pub closed spec fn spec_confidence(&self) -> EvidenceConfidence {
        self.confidence
    }

    /// An enum representation with a valid storage shape; its enumerators
    /// are kept in ascending child order and no child may occur twice.
    pub fn try_new(
        declaration: DeclarationId,
        source_fingerprint: SourceFingerprint,
        target_fingerprint: TargetFingerprint,
        storage_bits: u64,
        alignment_bits: u32,
        signedness: Signedness,
        variants: Vec<EnumVariantEvidence>,
        probe: ProbeEvidenceId,
        source: EvidenceSource,
        confidence: EvidenceConfidence,
    ) -> (res: Result<Self, ContractError>)
        ensures
            !layout_shape_ok(storage_bits, alignment_bits) ==> res == Err::<Self, ContractError>(
                ContractError::InvalidLayout { declaration },
            ),
            layout_shape_ok(storage_bits, alignment_bits) && !children_distinct(variants@) ==> (res matches Err(
                ContractError::DuplicateLayoutChild { declaration: d, child },
            ) && d == declaration && exists|i: int, j: int|
                0 <= i < j < variants@.len() && (#[trigger] variants@[i]).member_child() == child
                    && (#[trigger] variants@[j]).member_child() == child),
            layout_shape_ok(storage_bits, alignment_bits) && children_distinct(variants@) ==> (res matches Ok(r)
                && r.spec_declaration() == declaration && r.spec_source_fingerprint() == source_fingerprint
                && r.spec_target_fingerprint() == target_fingerprint && r.spec_storage_bits() == storage_bits
                && r.spec_alignment_bits() == alignment_bits && r.spec_signedness() == signedness && r.spec_probe()
                == probe && r.spec_source() == source && r.spec_confidence() == confidence && members_ascending(
                r.spec_variants(),
            ) && r.spec_variants().to_set() == variants@.to_set() && r.spec_variants().len() == variants@.len()),
    {
        validate_layout_shape(declaration, storage_bits, alignment_bits)?;
        let variants = canonicalize_members(declaration, &variants)?;
        Ok(EnumLayoutEvidence {
            declaration,
            source_fingerprint,
            target_fingerprint,
            storage_bits,
            alignment_bits,
            signedness,
            variants,
            probe,
            source,
            confidence,
        })
    }

    pub fn declaration(&self) -> (out: DeclarationId)
        ensures
            out == self.spec_declaration(),
    {
        self.declaration
    }

    pub fn source_fingerprint(&self) -> (out: SourceFingerprint)
        ensures
            out == self.spec_source_fingerprint(),
    {
        self.source_fingerprint
    }

    pub fn target_fingerprint(&self) -> (out: TargetFingerprint)
        ensures
            out == self.spec_target_fingerprint(),
    {
        self.target_fingerprint
    }

    pub fn storage_bits(&self) -> (out: u64)
        ensures
            out == self.spec_storage_bits(),
    {
        self.storage_bits
    }

    pub fn alignment_bits(&self) -> (out: u32)
        ensures
            out == self.spec_alignment_bits(),
    {
        self.alignment_bits
    }

    pub fn signedness(&self) -> (out: Signedness)
        ensures
            out == self.spec_signedness(),
    {
        self.signedness
    }

    pub fn variants(&self) -> (out: &[EnumVariantEvidence])
        ensures
            out@ == self.spec_variants(),
    {
        self.variants.as_slice()
    }

    pub fn probe(&self) -> (out: ProbeEvidenceId)
        ensures
            out == self.spec_probe(),
    {
        self.probe
    }

    pub fn source(&self) -> (out: EvidenceSource)
        ensures
            out == self.spec_source(),
    {
        self.source
    }

    pub fn confidence(&self) -> (out: EvidenceConfidence)
        ensures
            out == self.spec_confidence(),
    {
        self.confidence
    }
}

/// Layout evidence of either kind.
#[derive(Debug, Clone, PartialEq, Eq)]
pub enum LayoutEvidence {
    Record(RecordLayoutEvidence),
    Enum(EnumLayoutEvidence),
}

impl LayoutEvidence {
    pub open spec fn spec_declaration(&self) -> DeclarationId {
        match self {
            LayoutEvidence::Record(r) => r.spec_declaration(),
            LayoutEvidence::Enum(e) => e.spec_declaration(),
        }
    }

    pub open spec fn spec_source_fingerprint(&self) -> SourceFingerprint {
        match self {
            LayoutEvidence::Record(r) => r.spec_source_fingerprint(),
            LayoutEvidence::Enum(e) => e.spec_source_fingerprint(),
        }
    }

    pub open spec fn spec_target_fingerprint(&self) -> TargetFingerprint {
        match self {
            LayoutEvidence::Record(r) => r.spec_target_fingerprint(),
            LayoutEvidence::Enum(e) => e.spec_target_fingerprint(),
        }
    }

    pub open spec fn spec_confidence(&self) -> EvidenceConfidence {
        match self {
            LayoutEvidence::Record(r) => r.spec_confidence(),
            LayoutEvidence::Enum(e) => e.spec_confidence(),
        }
    }

    pub open spec fn spec_source(&self) -> EvidenceSource {
        match self {
            LayoutEvidence::Record(r) => r.spec_source(),
            LayoutEvidence::Enum(e) => e.spec_source(),
        }
    }

    pub open spec fn spec_probe(&self) -> ProbeEvidenceId {
        match self {
            LayoutEvidence::Record(r) => r.spec_probe(),
            LayoutEvidence::Enum(e) => e.spec_probe(),
        }
    }

    pub fn declaration(&self) -> (out: DeclarationId)
        ensures
            out == self.spec_declaration(),
    {
        match self {
            LayoutEvidence::Record(r) => r.declaration(),
            LayoutEvidence::Enum(e) => e.declaration(),
        }
    }

    pub fn source_fingerprint(&self) -> (out: SourceFingerprint)
        ensures
            out == self.spec_source_fingerprint(),
    {
        match self {
            LayoutEvidence::Record(r) => r.source_fingerprint(),
            LayoutEvidence::Enum(e) => e.source_fingerprint(),
        }
    }

    pub fn target_fingerprint(&self) -> (out: TargetFingerprint)
        ensures
            out == self.spec_target_fingerprint(),
    {
        match self {
            LayoutEvidence::Record(r) => r.target_fingerprint(),
            LayoutEvidence::Enum(e) => e.target_fingerprint(),
        }
    }

    pub fn confidence(&self) -> (out: EvidenceConfidence)
        ensures
            out == self.spec_confidence(),
    {
        match self {
            LayoutEvidence::Record(r) => r.confidence(),
            LayoutEvidence::Enum(e) => e.confidence(),
        }
    }

    pub fn source(&self) -> (out: EvidenceSource)
        ensures
            out == self.spec_source(),
    {
        match self {
            LayoutEvidence::Record(r) => r.source(),
            LayoutEvidence::Enum(e) => e.source(),
        }
    }

    pub fn probe(&self) -> (out: ProbeEvidenceId)
        ensures
            out == self.spec_probe(),
    {
        match self {
            LayoutEvidence::Record(r) => r.probe(),
            LayoutEvidence::Enum(e) => e.probe(),
        }
    }
}

impl Canonical for LayoutEvidence {
    closed spec fn canonical(&self) -> Seq<u8> {
        match self {
            LayoutEvidence::Record(x0) => seq![0u8] + x0.canonical(),
            LayoutEvidence::Enum(x0) => seq![1u8] + x0.canonical(),
        }
    }

    fn write_canonical(&self, out: &mut Vec<u8>) {
        let ghost start = out@;
        match self {
            LayoutEvidence::Record(x0) => {
                out.push(0u8);
                x0.write_canonical(out);
                proof { lemma_extend(start, seq![0u8], x0.canonical()); }
            },
            LayoutEvidence::Enum(x0) => {
                out.push(1u8);
                x0.write_canonical(out);
                proof { lemma_extend(start, seq![1u8], x0.canonical()); }
            },
        }
    }
}

impl Canonical for RecordLayoutEvidence {
    closed spec fn canonical(&self) -> Seq<u8> {
        self.declaration.canonical() + self.source_fingerprint.canonical() + self.target_fingerprint.canonical() + self.size_bits.canonical() + self.alignment_bits.canonical() + self.fields.canonical() + self.probe.canonical() + self.source.canonical() + self.confidence.canonical()
    }

    fn write_canonical(&self, out: &mut Vec<u8>) {
        let ghost start = out@;
        self.declaration.write_canonical(out);
        self.source_fingerprint.write_canonical(out);
        proof { lemma_extend(start, self.declaration.canonical(), self.source_fingerprint.canonical()); }
        self.target_fingerprint.write_canonical(out);
        proof { lemma_extend(start, self.declaration.canonical() + self.source_fingerprint.canonical(), self.target_fingerprint.canonical()); }
        self.size_bits.write_canonical(out);
        proof { lemma_extend(start, self.declaration.canonical() + self.source_fingerprint.canonical() + self.target_fingerprint.canonical(), self.size_bits.canonical()); }
        self.alignment_bits.write_canonical(out);
        proof { lemma_extend(start, self.declaration.canonical() + self.source_fingerprint.canonical() + self.target_fingerprint.canonical() + self.size_bits.canonical(), self.alignment_bits.canonical()); }
        self.fields.write_canonical(out);
        proof { lemma_extend(start, self.declaration.canonical() + self.source_fingerprint.canonical() + self.target_fingerprint.canonical() + self.size_bits.canonical() + self.alignment_bits.canonical(), self.fields.canonical()); }
        self.probe.write_canonical(out);
        proof { lemma_extend(start, self.declaration.canonical() + self.source_fingerprint.canonical() + self.target_fingerprint.canonical() + self.size_bits.canonical() + self.alignment_bits.canonical() + self.fields.canonical(), self.probe.canonical()); }
        self.source.write_canonical(out);
        proof { lemma_extend(start, self.declaration.canonical() + self.source_fingerprint.canonical() + self.target_fingerprint.canonical() + self.size_bits.canonical() + self.alignment_bits.canonical() + self.fields.canonical() + self.probe.canonical(), self.source.canonical()); }
        self.confidence.write_canonical(out);
        proof { lemma_extend(start, self.declaration.canonical() + self.source_fingerprint.canonical() + self.target_fingerprint.canonical() + self.size_bits.canonical() + self.alignment_bits.canonical() + self.fields.canonical() + self.probe.canonical() + self.source.canonical(), self.confidence.canonical()); }
    }
}

impl Canonical for EnumLayoutEvidence {
    closed spec fn canonical(&self) -> Seq<u8> {
        self.declaration.canonical() + self.source_fingerprint.canonical() + self.target_fingerprint.canonical() + self.storage_bits.canonical() + self.alignment_bits.canonical() + self.signedness.canonical() + self.variants.canonical() + self.probe.canonical() + self.source.canonical() + self.confidence.canonical()
    }

    fn write_canonical(&self, out: &mut Vec<u8>) {
        let ghost start = out@;
        self.declaration.write_canonical(out);
        self.source_fingerprint.write_canonical(out);
        proof { lemma_extend(start, self.declaration.canonical(), self.source_fingerprint.canonical()); }
        self.target_fingerprint.write_canonical(out);
        proof { lemma_extend(start, self.declaration.canonical() + self.source_fingerprint.canonical(), self.target_fingerprint.canonical()); }
        self.storage_bits.write_canonical(out);
        proof { lemma_extend(start, self.declaration.canonical() + self.source_fingerprint.canonical() + self.target_fingerprint.canonical(), self.storage_bits.canonical()); }
        self.alignment_bits.write_canonical(out);
        proof { lemma_extend(start, self.declaration.canonical() + self.source_fingerprint.canonical() + self.target_fingerprint.canonical() + self.storage_bits.canonical(), self.alignment_bits.canonical()); }
        self.signedness.write_canonical(out);
        proof { lemma_extend(start, self.declaration.canonical() + self.source_fingerprint.canonical() + self.target_fingerprint.canonical() + self.storage_bits.canonical() + self.alignment_bits.canonical(), self.signedness.canonical()); }
        self.variants.write_canonical(out);
        proof { lemma_extend(start, self.declaration.canonical() + self.source_fingerprint.canonical() + self.target_fingerprint.canonical() + self.storage_bits.canonical() + self.alignment_bits.canonical() + self.signedness.canonical(), self.variants.canonical()); }
        self.probe.write_canonical(out);
        proof { lemma_extend(start, self.declaration.canonical() + self.source_fingerprint.canonical() + self.target_fingerprint.canonical() + self.storage_bits.canonical() + self.alignment_bits.canonical() + self.signedness.canonical() + self.variants.canonical(), self.probe.canonical()); }
        self.source.write_canonical(out);
        proof { lemma_extend(start, self.declaration.canonical() + self.source_fingerprint.canonical() + self.target_fingerprint.canonical() + self.storage_bits.canonical() + self.alignment_bits.canonical() + self.signedness.canonical() + self.variants.canonical() + self.probe.canonical(), self.source.canonical()); }
        self.confidence.write_canonical(out);
        proof { lemma_extend(start, self.declaration.canonical() + self.source_fingerprint.canonical() + self.target_fingerprint.canonical() + self.storage_bits.canonical() + self.alignment_bits.canonical() + self.signedness.canonical() + self.variants.canonical() + self.probe.canonical() + self.source.canonical(), self.confidence.canonical()); }
    }
}

impl Canonical for Signedness {
    closed spec fn canonical(&self) -> Seq<u8> {
        match self {
            Signedness::Signed => seq![0u8],
            Signedness::Unsigned => seq![1u8],
        }
    }

    fn write_canonical(&self, out: &mut Vec<u8>) {
        let ghost start = out@;
        match self {
            Signedness::Signed => {
                out.push(0u8);
            },
            Signedness::Unsigned => {
                out.push(1u8);
            },
        }
    }
}

impl Canonical for EnumVariantEvidence {
    closed spec fn canonical(&self) -> Seq<u8> {
        self.child.canonical() + self.value.canonical()
    }

    fn write_canonical(&self, out: &mut Vec<u8>) {
        let ghost start = out@;
        self.child.write_canonical(out);
        self.value.write_canonical(out);
        proof { lemma_extend(start, self.child.canonical(), self.value.canonical()); }
    }
}

impl Canonical for ExactInteger {
    closed spec fn canonical(&self) -> Seq<u8> {
        match self {
            ExactInteger::Signed { value } => seq![0u8] + value.canonical(),
            ExactInteger::Unsigned { value } => seq![1u8] + value.canonical(),
        }
    }

    fn write_canonical(&self, out: &mut Vec<u8>) {
        let ghost start = out@;
        match self {
            ExactInteger::Signed { value } => {
                out.push(0u8);
                value.write_canonical(out);
                proof { lemma_extend(start, seq![0u8], value.canonical()); }
            },
            ExactInteger::Unsigned { value } => {
                out.push(1u8);
                value.write_canonical(out);
                proof { lemma_extend(start, seq![1u8], value.canonical()); }
            },
        }
    }
}

/// Domain of a record layout's shape fingerprint.
pub const RECORD_LAYOUT_SHAPE_DOMAIN: &'static str = "follang.linc.record-layout-shape.v1";

/// Domain of an enum layout's shape fingerprint.
pub const ENUM_LAYOUT_SHAPE_DOMAIN: &'static str = "follang.linc.enum-layout-shape.v1";

impl RecordLayoutEvidence {
    /// The measured shape: every part but the probe that measured it, whose
    /// outcomes commit to this shape's fingerprint in turn.
    pub closed spec fn shape_payload(&self) -> Seq<u8> {
        self.declaration.canonical() + self.source_fingerprint.canonical() + self.target_fingerprint.canonical() + self.size_bits.canonical() + self.alignment_bits.canonical() + self.fields.canonical() + self.source.canonical() + self.confidence.canonical()
    }

    fn shape_bytes(&self) -> (out: Vec<u8>)
        ensures
            out@ == self.shape_payload(),
    {
        let mut out: Vec<u8> = Vec::new();
        let ghost start = out@;
        self.declaration.write_canonical(&mut out);
        self.source_fingerprint.write_canonical(&mut out);
        proof { lemma_extend(start, self.declaration.canonical(), self.source_fingerprint.canonical()); }
        self.target_fingerprint.write_canonical(&mut out);
        proof { lemma_extend(start, self.declaration.canonical() + self.source_fingerprint.canonical(), self.target_fingerprint.canonical()); }
        self.size_bits.write_canonical(&mut out);
        proof { lemma_extend(start, self.declaration.canonical() + self.source_fingerprint.canonical() + self.target_fingerprint.canonical(), self.size_bits.canonical()); }
        self.alignment_bits.write_canonical(&mut out);
        proof { lemma_extend(start, self.declaration.canonical() + self.source_fingerprint.canonical() + self.target_fingerprint.canonical() + self.size_bits.canonical(), self.alignment_bits.canonical()); }
        self.fields.write_canonical(&mut out);
        proof { lemma_extend(start, self.declaration.canonical() + self.source_fingerprint.canonical() + self.target_fingerprint.canonical() + self.size_bits.canonical() + self.alignment_bits.canonical(), self.fields.canonical()); }
        self.source.write_canonical(&mut out);
        proof { lemma_extend(start, self.declaration.canonical() + self.source_fingerprint.canonical() + self.target_fingerprint.canonical() + self.size_bits.canonical() + self.alignment_bits.canonical() + self.fields.canonical(), self.source.canonical()); }
        self.confidence.write_canonical(&mut out);
        proof { lemma_extend(start, self.declaration.canonical() + self.source_fingerprint.canonical() + self.target_fingerprint.canonical() + self.size_bits.canonical() + self.alignment_bits.canonical() + self.fields.canonical() + self.source.canonical(), self.confidence.canonical()); }
        proof {
            assert(start =~= Seq::<u8>::empty());
            assert(out@ =~= self.declaration.canonical() + self.source_fingerprint.canonical() + self.target_fingerprint.canonical() + self.size_bits.canonical() + self.alignment_bits.canonical() + self.fields.canonical() + self.source.canonical() + self.confidence.canonical());
        }
        out
    }

    /// The shape fingerprint: the digest of the shape payload.
    pub fn fingerprint(&self) -> (out: ContentFingerprint)
        ensures
            out@ == digest_spec(encode_utf8(RECORD_LAYOUT_SHAPE_DOMAIN@), seq![self.shape_payload()]),
    {
        let payload = self.shape_bytes();
        let ghost shape = payload@;
        let fields: Vec<Vec<u8>> = vec![payload];
        proof {
            assert(fields@.map_values(|f: Vec<u8>| f@) =~= seq![shape]);
        }
        ContentFingerprint::from_bytes(digest(RECORD_LAYOUT_SHAPE_DOMAIN, &fields))
    }
}

impl EnumLayoutEvidence {
    /// The measured shape: every part but the probe that measured it, whose
    /// outcomes commit to this shape's fingerprint in turn.
    pub closed spec fn shape_payload(&self) -> Seq<u8> {
        self.declaration.canonical() + self.source_fingerprint.canonical() + self.target_fingerprint.canonical() + self.storage_bits.canonical() + self.alignment_bits.canonical() + self.signedness.canonical() + self.variants.canonical() + self.source.canonical() + self.confidence.canonical()
    }

    fn shape_bytes(&self) -> (out: Vec<u8>)
        ensures
            out@ == self.shape_payload(),
    {
        let mut out: Vec<u8> = Vec::new();
        let ghost start = out@;
        self.declaration.write_canonical(&mut out);
        self.source_fingerprint.write_canonical(&mut out);
        proof { lemma_extend(start, self.declaration.canonical(), self.source_fingerprint.canonical()); }
        self.target_fingerprint.write_canonical(&mut out);
        proof { lemma_extend(start, self.declaration.canonical() + self.source_fingerprint.canonical(), self.target_fingerprint.canonical()); }
        self.storage_bits.write_canonical(&mut out);
        proof { lemma_extend(start, self.declaration.canonical() + self.source_fingerprint.canonical() + self.target_fingerprint.canonical(), self.storage_bits.canonical()); }
        self.alignment_bits.write_canonical(&mut out);
        proof { lemma_extend(start, self.declaration.canonical() + self.source_fingerprint.canonical() + self.target_fingerprint.canonical() + self.storage_bits.canonical(), self.alignment_bits.canonical()); }
        self.signedness.write_canonical(&mut out);
        proof { lemma_extend(start, self.declaration.canonical() + self.source_fingerprint.canonical() + self.target_fingerprint.canonical() + self.storage_bits.canonical() + self.alignment_bits.canonical(), self.signedness.canonical()); }
        self.variants.write_canonical(&mut out);
        proof { lemma_extend(start, self.declaration.canonical() + self.source_fingerprint.canonical() + self.target_fingerprint.canonical() + self.storage_bits.canonical() + self.alignment_bits.canonical() + self.signedness.canonical(), self.variants.canonical()); }
        self.source.write_canonical(&mut out);
        proof { lemma_extend(start, self.declaration.canonical() + self.source_fingerprint.canonical() + self.target_fingerprint.canonical() + self.storage_bits.canonical() + self.alignment_bits.canonical() + self.signedness.canonical() + self.variants.canonical(), self.source.canonical()); }
        self.confidence.write_canonical(&mut out);
        proof { lemma_extend(start, self.declaration.canonical() + self.source_fingerprint.canonical() + self.target_fingerprint.canonical() + self.storage_bits.canonical() + self.alignment_bits.canonical() + self.signedness.canonical() + self.variants.canonical() + self.source.canonical(), self.confidence.canonical()); }
        proof {
            assert(start =~= Seq::<u8>::empty());
            assert(out@ =~= self.declaration.canonical() + self.source_fingerprint.canonical() + self.target_fingerprint.canonical() + self.storage_bits.canonical() + self.alignment_bits.canonical() + self.signedness.canonical() + self.variants.canonical() + self.source.canonical() + self.confidence.canonical());
        }
        out
    }

    /// The shape fingerprint: the digest of the shape payload.
    pub fn fingerprint(&self) -> (out: ContentFingerprint)
        ensures
            out@ == digest_spec(encode_utf8(ENUM_LAYOUT_SHAPE_DOMAIN@), seq![self.shape_payload()]),
    {
        let payload = self.shape_bytes();
        let ghost shape = payload@;
        let fields: Vec<Vec<u8>> = vec![payload];
        proof {
            assert(fields@.map_values(|f: Vec<u8>| f@) =~= seq![shape]);
        }
        ContentFingerprint::from_bytes(digest(ENUM_LAYOUT_SHAPE_DOMAIN, &fields))
    }
}

impl LayoutEvidence {
    /// The bytes of the shape fingerprint: the digest of the shape payload
    /// under the domain of the layout's kind.
    pub open spec fn shape_digest(&self) -> Seq<u8> {
        match self {
            LayoutEvidence::Record(r) => digest_spec(encode_utf8(RECORD_LAYOUT_SHAPE_DOMAIN@), seq![r.shape_payload()]),
            LayoutEvidence::Enum(e) => digest_spec(encode_utf8(ENUM_LAYOUT_SHAPE_DOMAIN@), seq![e.shape_payload()]),
        }
    }

    /// The shape fingerprint, the one identity with those bytes.
    pub open spec fn spec_fingerprint(&self) -> ContentFingerprint {
        choose|c: ContentFingerprint| c@ == self.shape_digest()
    }

    /// The shape fingerprint of the layout.
    pub fn fingerprint(&self) -> (out: ContentFingerprint)
        ensures
            out@ == self.shape_digest(),
            out == self.spec_fingerprint(),
    {
        let out = match self {
            LayoutEvidence::Record(r) => r.fingerprint(),
            LayoutEvidence::Enum(e) => e.fingerprint(),
        };
        proof {
            assert(out@ == self.shape_digest());
            let c = self.spec_fingerprint();
            ContentFingerprint::lemma_view_injective(out, c);
        }
        out
    }
}

/// The shape fingerprint of each layout, in the layouts' order.
pub open spec fn layout_fingerprints(layouts: Seq<LayoutEvidence>) -> Seq<ContentFingerprint> {
    layouts.map_values(|l: LayoutEvidence| l.spec_fingerprint())
}

/// Computes the shape fingerprint of each layout.
pub fn fingerprint_layouts(layouts: &[LayoutEvidence]) -> (out: Vec<ContentFingerprint>)
    ensures
        out@ == layout_fingerprints(layouts@),
{
    let mut out: Vec<ContentFingerprint> = Vec::new();
    let mut i: usize = 0;
    while i < layouts.len()
        invariant
            i <= layouts@.len(),
            out@ == layout_fingerprints(layouts@.take(i as int)),
        decreases layouts@.len() - i,
    {
        let f = layouts[i].fingerprint();
        out.push(f);
        proof {
            assert(layout_fingerprints(layouts@.take(i + 1)) =~= layout_fingerprints(layouts@.take(i as int)).push(f));
        }
        i = i + 1;
    }
    proof {
        assert(layouts@.take(layouts@.len() as int) =~= layouts@);
    }
    out
}

} // verus!
