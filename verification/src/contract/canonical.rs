//! The canonical order of a package's collections: each record has a byte
//! key, and a collection is canonical when its keys ascend.
use vstd::prelude::*;

use super::diagnostic::{DiagnosticEvidenceRef, LincDiagnostic, LincDiagnosticContext, SourceRange};
use super::evidence::{DeclarationEvidence, SymbolReference};
use super::identity::{text_bytes, ProbeEvidenceId, ProviderId};
use super::inventory::SymbolInventory;
use super::layout::LayoutEvidence;
use super::model::{DiagnosticSeverity, DiagnosticStage};
use super::order::{
    compare_bytes, lemma_lex_sign_antisymmetric, lemma_lex_sign_equal, lemma_lex_sign_range, lemma_lex_sign_strict_transitive,
    lemma_lex_sign_transitive, lex_sign,
};
use super::probe::AbiProbeEvidence;
use super::source::DeclarationId;
use crate::bytes::slice_to_vec;
use vstd::utf8::encode_utf8;

verus! {

/// A record ordered by a byte key.
pub trait SortKey: Sized {
    spec fn key_view(&self) -> Seq<u8>;

    fn key_bytes(&self) -> (out: Vec<u8>)
        ensures
            out@ == self.key_view(),
    ;
}

impl SortKey for SymbolInventory {
    open spec fn key_view(&self) -> Seq<u8> {
        self.spec_artifact().spec_provider_id()@
    }

    fn key_bytes(&self) -> (out: Vec<u8>) {
        slice_to_vec(self.artifact().provider_id().as_bytes().as_slice())
    }
}

impl SortKey for AbiProbeEvidence {
    open spec fn key_view(&self) -> Seq<u8> {
        self.spec_id()@
    }

    fn key_bytes(&self) -> (out: Vec<u8>) {
        slice_to_vec(self.id().as_bytes().as_slice())
    }
}

impl SortKey for LayoutEvidence {
    open spec fn key_view(&self) -> Seq<u8> {
        self.spec_declaration()@
    }

    fn key_bytes(&self) -> (out: Vec<u8>) {
        slice_to_vec(self.declaration().as_bytes().as_slice())
    }
}

impl SortKey for DeclarationEvidence {
    open spec fn key_view(&self) -> Seq<u8> {
        self.spec_input().declaration@
    }

    fn key_bytes(&self) -> (out: Vec<u8>) {
        slice_to_vec(self.declaration().as_bytes().as_slice())
    }
}

impl SortKey for ProviderId {
    open spec fn key_view(&self) -> Seq<u8> {
        self@
    }

    fn key_bytes(&self) -> (out: Vec<u8>) {
        slice_to_vec(self.as_bytes().as_slice())
    }
}

impl SortKey for SymbolReference {
    open spec fn key_view(&self) -> Seq<u8> {
        self.spec_provider()@ + be32(self.spec_symbol().spec_table()) + be64(self.spec_symbol().spec_symbol())
    }

    fn key_bytes(&self) -> (out: Vec<u8>) {
        let mut out = slice_to_vec(self.provider().as_bytes().as_slice());
        let symbol = self.symbol();
        push_be32(&mut out, symbol.table_index());
        push_be64(&mut out, symbol.symbol_index());
        out
    }
}

// ---------------------------------------------------------------------------
// The diagnostic key
// ---------------------------------------------------------------------------

/// A `u32` as four big-endian bytes.
pub open spec fn be32(v: u32) -> Seq<u8> {
    seq![(v >> 24u32) as u8, ((v >> 16u32) & 0xffu32) as u8, ((v >> 8u32) & 0xffu32) as u8, (v & 0xffu32) as u8]
}

/// A `u64` as eight big-endian bytes.
pub open spec fn be64(v: u64) -> Seq<u8> {
    be32((v >> 32u64) as u32) + be32((v & 0xffff_ffffu64) as u32)
}

pub open spec fn zeros(n: nat) -> Seq<u8> {
    Seq::new(n, |i: int| 0u8)
}

/// An optional 32-byte identity: absent orders first.
pub open spec fn opt_digest(v: Option<Seq<u8>>) -> Seq<u8> {
    match v {
        None => seq![0u8] + zeros(32),
        Some(d) => seq![1u8] + d,
    }
}

pub open spec fn stage_index(s: DiagnosticStage) -> u8 {
    match s {
        DiagnosticStage::Intake => 0,
        DiagnosticStage::ArtifactResolution => 1,
        DiagnosticStage::SymbolInspection => 2,
        DiagnosticStage::LayoutProbe => 3,
        DiagnosticStage::Validation => 4,
    }
}

pub open spec fn severity_index(s: DiagnosticSeverity) -> u8 {
    match s {
        DiagnosticSeverity::Note => 0,
        DiagnosticSeverity::Warning => 1,
        DiagnosticSeverity::Error => 2,
    }
}

pub open spec fn range_key(r: Option<SourceRange>) -> Seq<u8> {
    match r {
        None => seq![0u8] + zeros(12),
        Some(r) => seq![1u8] + be32(r.file) + be32(r.start) + be32(r.end),
    }
}

pub open spec fn index_key(i: Option<u32>) -> Seq<u8> {
    match i {
        None => seq![0u8] + zeros(4),
        Some(i) => seq![1u8] + be32(i),
    }
}

pub open spec fn evidence_key(e: Option<DiagnosticEvidenceRef>) -> Seq<u8> {
    match e {
        None => seq![0u8] + zeros(44),
        Some(DiagnosticEvidenceRef::Symbol { provider, symbol }) => seq![1u8] + provider@ + be32(symbol.spec_table())
            + be64(symbol.spec_symbol()),
        Some(DiagnosticEvidenceRef::Layout { declaration }) => seq![2u8] + declaration@ + zeros(12),
        Some(DiagnosticEvidenceRef::Declaration { declaration }) => seq![3u8] + declaration@ + zeros(12),
    }
}

pub open spec fn context_key(c: LincDiagnosticContext) -> Seq<u8> {
    c.spec_target_fingerprint()@ + range_key(c.spec_source_range()) + index_key(c.spec_native_input_index()) + opt_digest(
        match c.spec_dependency_provider() {
            Some(p) => Some(p@),
            None => None,
        },
    ) + opt_digest(
        match c.spec_probe() {
            Some(p) => Some(p@),
            None => None,
        },
    ) + evidence_key(c.spec_evidence())
}

/// The order key of a diagnostic: stage, severity, code, declaration,
/// provider and context, each at a fixed width, then the message text.
pub open spec fn diagnostic_key(d: LincDiagnostic) -> Seq<u8> {
    seq![stage_index(d.spec_stage()), severity_index(d.spec_severity())] + encode_utf8(d.spec_code()) + opt_digest(
        match d.spec_declaration() {
            Some(x) => Some(x@),
            None => None,
        },
    ) + opt_digest(
        match d.spec_provider() {
            Some(x) => Some(x@),
            None => None,
        },
    ) + context_key(d.spec_context()) + encode_utf8(d.spec_message())
}

pub(crate) fn push_bytes(out: &mut Vec<u8>, bytes: &[u8])
    ensures
        final(out)@ == old(out)@ + bytes@,
{
    let ghost start = out@;
    let mut i: usize = 0;
    while i < bytes.len()
        invariant
            i <= bytes@.len(),
            out@ == start + bytes@.take(i as int),
        decreases bytes@.len() - i,
    {
        out.push(bytes[i]);
        proof {
            assert(bytes@.take(i + 1) =~= bytes@.take(i as int).push(bytes@[i as int]));
        }
        i = i + 1;
    }
    proof {
        assert(bytes@.take(bytes@.len() as int) =~= bytes@);
    }
}

pub(crate) fn push_be32(out: &mut Vec<u8>, v: u32)
    ensures
        final(out)@ == old(out)@ + be32(v),
{
    let ghost start = out@;
    out.push((v >> 24u32) as u8);
    out.push(((v >> 16u32) & 0xffu32) as u8);
    out.push(((v >> 8u32) & 0xffu32) as u8);
    out.push((v & 0xffu32) as u8);
    assert(out@ =~= start + be32(v));
}

pub(crate) fn push_be64(out: &mut Vec<u8>, v: u64)
    ensures
        final(out)@ == old(out)@ + be64(v),
{
    let ghost start = out@;
    push_be32(out, (v >> 32u64) as u32);
    push_be32(out, (v & 0xffff_ffffu64) as u32);
    assert(out@ =~= start + be64(v));
}

fn push_zeros(out: &mut Vec<u8>, n: usize)
    ensures
        final(out)@ == old(out)@ + zeros(n as nat),
{
    let ghost start = out@;
    let mut i: usize = 0;
    while i < n
        invariant
            i <= n,
            out@ == start + zeros(i as nat),
        decreases n - i,
    {
        out.push(0u8);
        proof {
            assert(zeros((i + 1) as nat) =~= zeros(i as nat).push(0u8));
        }
        i = i + 1;
    }
}

fn push_opt_digest(out: &mut Vec<u8>, v: Option<&[u8; 32]>)
    ensures
        final(out)@ == old(out)@ + opt_digest(
            match v {
                Some(d) => Some(d@),
                None => None,
            },
        ),
{
    let ghost start = out@;
    match v {
        None => {
            out.push(0u8);
            push_zeros(out, 32);
            assert(out@ =~= start + (seq![0u8] + zeros(32)));
        },
        Some(d) => {
            out.push(1u8);
            push_bytes(out, d.as_slice());
            assert(out@ =~= start + (seq![1u8] + d@));
        },
    }
}

fn push_range_key(out: &mut Vec<u8>, r: Option<SourceRange>)
    ensures
        final(out)@ == old(out)@ + range_key(r),
{
    let ghost start = out@;
    match r {
        None => {
            out.push(0u8);
            push_zeros(out, 12);
        },
        Some(r) => {
            out.push(1u8);
            push_be32(out, r.file);
            push_be32(out, r.start);
            push_be32(out, r.end);
        },
    }
    assert(out@ =~= start + range_key(r));
}

fn push_index_key(out: &mut Vec<u8>, i: Option<u32>)
    ensures
        final(out)@ == old(out)@ + index_key(i),
{
    let ghost start = out@;
    match i {
        None => {
            out.push(0u8);
            push_zeros(out, 4);
        },
        Some(i) => {
            out.push(1u8);
            push_be32(out, i);
        },
    }
    assert(out@ =~= start + index_key(i));
}

fn push_evidence_key(out: &mut Vec<u8>, e: Option<&DiagnosticEvidenceRef>)
    ensures
        final(out)@ == old(out)@ + evidence_key(
            match e {
                Some(x) => Some(*x),
                None => None,
            },
        ),
{
    let ghost start = out@;
    match e {
        None => {
            out.push(0u8);
            push_zeros(out, 44);
        },
        Some(DiagnosticEvidenceRef::Symbol { provider, symbol }) => {
            out.push(1u8);
            push_bytes(out, provider.as_bytes().as_slice());
            push_be32(out, symbol.table_index());
            push_be64(out, symbol.symbol_index());
        },
        Some(DiagnosticEvidenceRef::Layout { declaration }) => {
            out.push(2u8);
            push_bytes(out, declaration.as_bytes().as_slice());
            push_zeros(out, 12);
        },
        Some(DiagnosticEvidenceRef::Declaration { declaration }) => {
            out.push(3u8);
            push_bytes(out, declaration.as_bytes().as_slice());
            push_zeros(out, 12);
        },
    }
    assert(out@ =~= start + evidence_key(
        match e {
            Some(x) => Some(*x),
            None => None,
        },
    ));
}

fn push_context_key(out: &mut Vec<u8>, c: &LincDiagnosticContext)
    ensures
        final(out)@ == old(out)@ + context_key(*c),
{
    let ghost start = out@;
    let target = c.target_fingerprint();
    push_bytes(out, target.as_bytes().as_slice());
    push_range_key(out, c.source_range());
    push_index_key(out, c.native_input_index());
    let dependency = c.dependency_provider();
    match &dependency {
        Some(p) => push_opt_digest(out, Some(p.as_bytes())),
        None => push_opt_digest(out, None),
    }
    let probe = c.probe();
    match &probe {
        Some(p) => push_opt_digest(out, Some(p.as_bytes())),
        None => push_opt_digest(out, None),
    }
    push_evidence_key(out, c.evidence());
    assert(out@ =~= start + context_key(*c));
}

impl SortKey for LincDiagnostic {
    open spec fn key_view(&self) -> Seq<u8> {
        diagnostic_key(*self)
    }

    fn key_bytes(&self) -> (out: Vec<u8>) {
        let mut out: Vec<u8> = Vec::new();
        let stage: u8 = match self.stage() {
            DiagnosticStage::Intake => 0,
            DiagnosticStage::ArtifactResolution => 1,
            DiagnosticStage::SymbolInspection => 2,
            DiagnosticStage::LayoutProbe => 3,
            DiagnosticStage::Validation => 4,
        };
        let severity: u8 = match self.severity() {
            DiagnosticSeverity::Note => 0,
            DiagnosticSeverity::Warning => 1,
            DiagnosticSeverity::Error => 2,
        };
        out.push(stage);
        out.push(severity);
        let code = text_bytes(self.code().as_str());
        push_bytes(&mut out, code.as_slice());
        let declaration = self.declaration();
        match &declaration {
            Some(d) => push_opt_digest(&mut out, Some(d.as_bytes())),
            None => push_opt_digest(&mut out, None),
        }
        let provider = self.provider();
        match &provider {
            Some(p) => push_opt_digest(&mut out, Some(p.as_bytes())),
            None => push_opt_digest(&mut out, None),
        }
        push_context_key(&mut out, self.context());
        let message = text_bytes(self.message());
        push_bytes(&mut out, message.as_slice());
        assert(out@ =~= diagnostic_key(*self));
        out
    }
}

// ---------------------------------------------------------------------------
// Sorting and order checks
// ---------------------------------------------------------------------------

/// Keys ascend, ties allowed.
pub open spec fn keys_sorted<T: SortKey>(s: Seq<T>) -> bool {
    forall|i: int, j: int| 0 <= i < j < s.len() ==> lex_sign((#[trigger] s[i]).key_view(), (#[trigger] s[j]).key_view()) <= 0
}

/// Keys ascend strictly.
pub open spec fn keys_ascending<T: SortKey>(s: Seq<T>) -> bool {
    forall|i: int, j: int| 0 <= i < j < s.len() ==> lex_sign((#[trigger] s[i]).key_view(), (#[trigger] s[j]).key_view()) < 0
}

/// Neighbouring keys do not descend.
pub open spec fn adjacent_sorted<T: SortKey>(s: Seq<T>) -> bool {
    forall|i: int| 0 <= i < s.len() - 1 ==> lex_sign((#[trigger] s[i]).key_view(), s[i + 1].key_view()) <= 0
}

/// Neighbouring keys strictly ascend.
pub open spec fn adjacent_ascending<T: SortKey>(s: Seq<T>) -> bool {
    forall|i: int| 0 <= i < s.len() - 1 ==> lex_sign((#[trigger] s[i]).key_view(), s[i + 1].key_view()) < 0
}

proof fn lemma_lex_facts(a: Seq<u8>, b: Seq<u8>, c: Seq<u8>)
    ensures
        lex_sign(a, b) == -lex_sign(b, a),
        -1 <= lex_sign(a, b) <= 1,
        lex_sign(a, b) == 0 <==> a == b,
        lex_sign(a, b) <= 0 && lex_sign(b, c) <= 0 ==> lex_sign(a, c) <= 0,
        lex_sign(a, b) < 0 && lex_sign(b, c) <= 0 ==> lex_sign(a, c) < 0,
{
    lemma_lex_sign_antisymmetric(a, b);
    lemma_lex_sign_range(a, b);
    lemma_lex_sign_equal(a, b);
    if lex_sign(a, b) <= 0 && lex_sign(b, c) <= 0 {
        lemma_lex_sign_transitive(a, b, c);
    }
    if lex_sign(a, b) < 0 && lex_sign(b, c) <= 0 {
        lemma_lex_sign_strict_transitive(a, b, c);
    }
}

/// Keys that never descend and never repeat strictly ascend.
pub proof fn lemma_distinct_keys_ascend<T: SortKey>(s: Seq<T>)
    requires
        keys_sorted(s),
        forall|i: int, j: int| 0 <= i < j < s.len() ==> (#[trigger] s[i]).key_view() != (#[trigger] s[j]).key_view(),
    ensures
        keys_ascending(s),
{
    assert forall|i: int, j: int| 0 <= i < j < s.len() implies lex_sign(
        (#[trigger] s[i]).key_view(),
        (#[trigger] s[j]).key_view(),
    ) < 0 by {
        lemma_lex_facts(s[i].key_view(), s[j].key_view(), s[j].key_view());
    }
}

/// Pairwise distinct keys survive any rearrangement of the same items.
pub proof fn lemma_distinct_keys_permuted<T: SortKey>(a: Seq<T>, b: Seq<T>)
    requires
        forall|i: int, j: int| 0 <= i < j < a.len() ==> (#[trigger] a[i]).key_view() != (#[trigger] a[j]).key_view(),
        a.to_multiset() == b.to_multiset(),
    ensures
        forall|i: int, j: int| 0 <= i < j < b.len() ==> (#[trigger] b[i]).key_view() != (#[trigger] b[j]).key_view(),
{
    assert(a.no_duplicates()) by {
        assert forall|i: int, j: int| 0 <= i < a.len() && 0 <= j < a.len() && i != j implies a[i] != a[j] by {
            if i < j {
                assert(a[i].key_view() != a[j].key_view());
            } else {
                assert(a[j].key_view() != a[i].key_view());
            }
        }
    }
    a.lemma_multiset_has_no_duplicates();
    b.lemma_multiset_has_no_duplicates_conv();
    assert forall|i: int, j: int| 0 <= i < j < b.len() implies (#[trigger] b[i]).key_view() != (#[trigger] b[j]).key_view() by {
        let u = b[i];
        let v = b[j];
        assert(u != v);
        vstd::seq_lib::to_multiset_contains(b, u);
        vstd::seq_lib::to_multiset_contains(b, v);
        assert(b.contains(u));
        assert(b.contains(v));
        vstd::seq_lib::to_multiset_contains(a, u);
        vstd::seq_lib::to_multiset_contains(a, v);
        assert(a.contains(u));
        assert(a.contains(v));
        let p = choose|p: int| 0 <= p < a.len() && a[p] == u;
        let q = choose|q: int| 0 <= q < a.len() && a[q] == v;
        assert(p != q);
        if p < q {
            assert(a[p].key_view() != a[q].key_view());
        } else {
            assert(a[q].key_view() != a[p].key_view());
        }
    }
}

/// Strictly ascending keys in particular do not descend.
pub proof fn lemma_ascending_sorted<T: SortKey>(s: Seq<T>)
    requires
        keys_ascending(s),
    ensures
        keys_sorted(s),
{
    assert forall|i: int, j: int| 0 <= i < j < s.len() implies lex_sign(
        (#[trigger] s[i]).key_view(),
        (#[trigger] s[j]).key_view(),
    ) <= 0 by {
        assert(lex_sign(s[i].key_view(), s[j].key_view()) < 0);
    }
}

/// Items whose keys strictly ascend have one order with keys that do not
/// descend: any such arrangement of the same items is that order.
pub proof fn lemma_sorted_unique<T: SortKey>(a: Seq<T>, b: Seq<T>)
    requires
        keys_ascending(a),
        keys_sorted(b),
        a.to_multiset() == b.to_multiset(),
    ensures
        a == b,
    decreases a.len(),
{
    broadcast use vstd::seq_lib::group_to_multiset_ensures;

    assert(a.len() == b.len()) by {
        assert(a.to_multiset().len() == a.len());
        assert(b.to_multiset().len() == b.len());
    }
    if a.len() == 0 {
        assert(a =~= b);
    } else {
        assert(b.to_multiset().count(b[0]) > 0);
        assert(a.contains(b[0]));
        assert(a.to_multiset().count(a[0]) > 0);
        assert(b.contains(a[0]));
        let m = choose|m: int| 0 <= m < a.len() && a[m] == b[0];
        let k = choose|k: int| 0 <= k < b.len() && b[k] == a[0];
        if m > 0 {
            assert(lex_sign(a[0].key_view(), a[m].key_view()) < 0);
            lemma_lex_facts(a[0].key_view(), a[m].key_view(), a[0].key_view());
            if k > 0 {
                assert(lex_sign(b[0].key_view(), b[k].key_view()) <= 0);
                lemma_lex_facts(a[0].key_view(), b[0].key_view(), b[k].key_view());
            }
            assert(false);
        }
        assert(b[0] == a[0]);
        let a1 = a.remove(0);
        let b1 = b.remove(0);
        assert(a1.to_multiset() == a.to_multiset().remove(a[0]));
        assert(b1.to_multiset() == b.to_multiset().remove(b[0]));
        assert forall|i: int, j: int| 0 <= i < j < a1.len() implies lex_sign(
            (#[trigger] a1[i]).key_view(),
            (#[trigger] a1[j]).key_view(),
        ) < 0 by {
            assert(a1[i] == a[i + 1] && a1[j] == a[j + 1]);
        }
        assert forall|i: int, j: int| 0 <= i < j < b1.len() implies lex_sign(
            (#[trigger] b1[i]).key_view(),
            (#[trigger] b1[j]).key_view(),
        ) <= 0 by {
            assert(b1[i] == b[i + 1] && b1[j] == b[j + 1]);
        }
        lemma_sorted_unique(a1, b1);
        assert(a =~= b) by {
            assert forall|i: int| 0 <= i < a.len() implies a[i] == b[i] by {
                if i > 0 {
                    assert(a[i] == a1[i - 1] && b[i] == b1[i - 1]);
                }
            }
        }
    }
}

proof fn lemma_chain<T: SortKey>(s: Seq<T>, i: int, j: int, strict: bool)
    requires
        0 <= i < j < s.len(),
        forall|k: int| 0 <= k < s.len() - 1 ==> lex_sign((#[trigger] s[k]).key_view(), s[k + 1].key_view()) <= 0,
        strict ==> forall|k: int| 0 <= k < s.len() - 1 ==> lex_sign((#[trigger] s[k]).key_view(), s[k + 1].key_view()) < 0,
    ensures
        lex_sign(s[i].key_view(), s[j].key_view()) <= 0,
        strict ==> lex_sign(s[i].key_view(), s[j].key_view()) < 0,
    decreases j - i,
{
    lemma_lex_facts(s[i].key_view(), s[i + 1].key_view(), s[j].key_view());
    if i + 1 < j {
        lemma_chain(s, i + 1, j, strict);
        lemma_lex_facts(s[i].key_view(), s[i + 1].key_view(), s[j].key_view());
    }
}

/// Adjacent strict ascent extends to every pair.
pub proof fn lemma_adjacent_ascending<T: SortKey>(s: Seq<T>)
    requires
        adjacent_ascending(s),
    ensures
        keys_ascending(s),
{
    assert forall|i: int, j: int| 0 <= i < j < s.len() implies lex_sign((#[trigger] s[i]).key_view(), (#[trigger] s[j]).key_view())
        < 0 by {
        lemma_chain(s, i, j, true);
    }
}

/// Adjacent ascent extends to every pair.
pub proof fn lemma_adjacent_sorted<T: SortKey>(s: Seq<T>)
    requires
        adjacent_sorted(s),
    ensures
        keys_sorted(s),
{
    assert forall|i: int, j: int| 0 <= i < j < s.len() implies lex_sign((#[trigger] s[i]).key_view(), (#[trigger] s[j]).key_view())
        <= 0 by {
        lemma_chain(s, i, j, false);
    }
}

/// Sorts by key, keeping equal keys in their original order.
pub fn sort_by_key<T: SortKey>(items: Vec<T>) -> (out: Vec<T>)
    ensures
        keys_sorted(out@),
        out@.to_multiset() == items@.to_multiset(),
        out@.len() == items@.len(),
{
    let ghost input = items@;
    let n = items.len();
    let mut rest = items;
    let mut sorted: Vec<T> = Vec::new();
    let mut k: usize = 0;
    proof {
        assert(rest@ =~= input.skip(0));
        assert(input.take(0) =~= Seq::<T>::empty());
    }
    while k < n
        invariant
            n == input.len(),
            k <= n,
            sorted@.len() == k,
            rest@ == input.skip(k as int),
            keys_sorted(sorted@),
            sorted@.to_multiset() == input.take(k as int).to_multiset(),
        decreases n - k,
    {
        let x = rest.remove(0);
        let xk = x.key_bytes();
        proof {
            assert(x == input[k as int]);
            assert(rest@ =~= input.skip(k + 1));
            assert(input.take(k + 1) =~= input.take(k as int).push(input[k as int]));
            vstd::seq_lib::to_multiset_build(input.take(k as int), input[k as int]);
        }
        let mut p: usize = 0;
        while p < sorted.len() && compare_bytes(sorted[p].key_bytes().as_slice(), xk.as_slice()) <= 0
            invariant
                p <= sorted@.len(),
                xk@ == x.key_view(),
                forall|m: int| 0 <= m < p ==> lex_sign((#[trigger] sorted@[m]).key_view(), x.key_view()) <= 0,
            decreases sorted@.len() - p,
        {
            p = p + 1;
        }
        let ghost before = sorted@;
        sorted.insert(p, x);
        proof {
            vstd::seq_lib::to_multiset_insert(before, p as int, x);
            assert(sorted@ == before.insert(p as int, x));
            assert forall|a: int, b: int| 0 <= a < b < sorted@.len() implies lex_sign(
                (#[trigger] sorted@[a]).key_view(),
                (#[trigger] sorted@[b]).key_view(),
            ) <= 0 by {
                if b < p {
                    assert(sorted@[a] == before[a] && sorted@[b] == before[b]);
                } else if b == p {
                    assert(sorted@[a] == before[a]);
                } else if a == p {
                    assert(sorted@[b] == before[b - 1]);
                    if p < before.len() {
                        lemma_lex_facts(before[p as int].key_view(), x.key_view(), x.key_view());
                        if b - 1 > p {
                            assert(lex_sign(before[p as int].key_view(), before[b - 1].key_view()) <= 0);
                            lemma_lex_facts(x.key_view(), before[p as int].key_view(), before[b - 1].key_view());
                        }
                    }
                } else if a < p {
                    assert(sorted@[a] == before[a]);
                    assert(sorted@[b] == before[b - 1]);
                } else {
                    assert(sorted@[a] == before[a - 1]);
                    assert(sorted@[b] == before[b - 1]);
                }
            }
        }
        k = k + 1;
    }
    proof {
        assert(input.take(n as int) =~= input);
    }
    sorted
}

/// Whether neighbouring keys never descend (or, when `strict`, always ascend).
pub fn keys_in_order<T: SortKey>(values: &[T], strict: bool) -> (out: bool)
    ensures
        !strict ==> (out <==> adjacent_sorted(values@)),
        strict ==> (out <==> adjacent_ascending(values@)),
{
    if values.len() == 0 {
        return true;
    }
    let mut i: usize = 0;
    let last = values.len() - 1;
    while i < last
        invariant
            last == values@.len() - 1,
            i <= last,
            !strict ==> forall|k: int| 0 <= k < i ==> lex_sign((#[trigger] values@[k]).key_view(), values@[k + 1].key_view()) <= 0,
            strict ==> forall|k: int| 0 <= k < i ==> lex_sign((#[trigger] values@[k]).key_view(), values@[k + 1].key_view()) < 0,
        decreases values@.len() - i,
    {
        let c = compare_bytes(values[i].key_bytes().as_slice(), values[i + 1].key_bytes().as_slice());
        if c > 0 || (strict && c == 0) {
            return false;
        }
        i = i + 1;
    }
    true
}

} // verus!
