//! Symbol inventories: one provider's checked symbols, dependency edges and
//! inspection provenance.
use vstd::prelude::*;
use super::payload::{lemma_extend, Canonical};

use super::error::ContractError;
use super::model::{
    ArtifactKind, ArtifactSymbolId, DependencyEdge, InspectionParserIdentity, InspectionParserKind,
    InspectionToolIdentity, ObjectFormat, ResolvedArtifact, SymbolRecord,
};
use crate::text::str_eq;

verus! {

broadcast use vstd::seq_lib::to_multiset_insert;

// ---------------------------------------------------------------------------
// Inspection provenance
// ---------------------------------------------------------------------------

/// Two parser identities agree in kind, version and implementation.
pub open spec fn same_parser(a: InspectionParserIdentity, b: InspectionParserIdentity) -> bool {
    a.spec_kind() == b.spec_kind() && a.spec_version() == b.spec_version() && a.spec_fingerprint() == b.spec_fingerprint()
}

/// At least one parser, and no parser twice.
pub open spec fn parsers_ok(parsers: Seq<InspectionParserIdentity>) -> bool {
    parsers.len() > 0 && forall|i: int, j: int| 0 <= i < j < parsers.len() ==> !same_parser(parsers[i], parsers[j])
}

/// The tool and parsers that produced an inventory.
#[derive(Debug, Clone, PartialEq, Eq)]
pub struct InspectionProvenance {
    tool: InspectionToolIdentity,
    parsers: Vec<InspectionParserIdentity>,
}

fn parser_eq(a: &InspectionParserIdentity, b: &InspectionParserIdentity) -> (out: bool)
    ensures
        out == same_parser(*a, *b),
{
    a.kind() == b.kind() && str_eq(a.version(), b.version()) && a.implementation_fingerprint().same(
        &b.implementation_fingerprint(),
    )
}

impl InspectionProvenance {
    pub closed spec fn spec_tool(&self) -> InspectionToolIdentity {
        self.tool
    }

    pub closed spec fn spec_parsers(&self) -> Seq<InspectionParserIdentity> {
        self.parsers@
    }

    /// Accepts at least one parser identity, none of them repeated.
    pub fn try_new(tool: InspectionToolIdentity, parsers: Vec<InspectionParserIdentity>) -> (res: Result<
        Self,
        ContractError,
    >)
        ensures
            parsers_ok(parsers@) ==> (res matches Ok(p) && p.spec_tool() == tool && p.spec_parsers() == parsers@),
            parsers@.len() == 0 ==> res == Err::<Self, ContractError>(
                ContractError::InvalidInspectionProvenance { reason: "at least one parser identity is required" },
            ),
            parsers@.len() > 0 && !parsers_ok(parsers@) ==> res == Err::<Self, ContractError>(
                ContractError::InvalidInspectionProvenance { reason: "parser identities must be distinct" },
            ),
    {
        if parsers.len() == 0 {
            return Err(ContractError::InvalidInspectionProvenance { reason: "at least one parser identity is required" });
        }
        let mut i: usize = 0;
        while i < parsers.len()
            invariant
                i <= parsers@.len(),
                forall|a: int, b: int| 0 <= a < b < parsers@.len() && a < i ==> !same_parser(parsers@[a], parsers@[b]),
            decreases parsers@.len() - i,
        {
            let mut j: usize = i + 1;
            while j < parsers.len()
                invariant
                    i < parsers@.len(),
                    i + 1 <= j <= parsers@.len(),
                    forall|a: int, b: int| 0 <= a < b < parsers@.len() && a < i ==> !same_parser(parsers@[a], parsers@[b]),
                    forall|b: int| i < b < j ==> !same_parser(parsers@[i as int], parsers@[b]),
                decreases parsers@.len() - j,
            {
                if parser_eq(&parsers[i], &parsers[j]) {
                    return Err(ContractError::InvalidInspectionProvenance { reason: "parser identities must be distinct" });
                }
                j = j + 1;
            }
            i = i + 1;
        }
        Ok(InspectionProvenance { tool, parsers })
    }

    pub fn tool(&self) -> (out: &InspectionToolIdentity)
        ensures
            *out == self.spec_tool(),
    {
        &self.tool
    }

    pub fn parsers(&self) -> (out: &[InspectionParserIdentity])
        ensures
            out@ == self.spec_parsers(),
    {
        self.parsers.as_slice()
    }
}

// ---------------------------------------------------------------------------
// Symbol inventories
// ---------------------------------------------------------------------------

pub open spec fn id_key(s: SymbolRecord) -> (u32, u64) {
    s.spec_input().id.key()
}

pub open spec fn key_le(a: (u32, u64), b: (u32, u64)) -> bool {
    a.0 < b.0 || (a.0 == b.0 && a.1 <= b.1)
}

pub open spec fn key_lt(a: (u32, u64), b: (u32, u64)) -> bool {
    a.0 < b.0 || (a.0 == b.0 && a.1 < b.1)
}

/// Ordered by symbol identity, table first.
pub open spec fn sorted_by_id(s: Seq<SymbolRecord>) -> bool {
    forall|i: int, j: int| 0 <= i < j < s.len() ==> key_le(#[trigger] id_key(s[i]), #[trigger] id_key(s[j]))
}

/// No two symbols share an identity.
pub open spec fn ids_distinct(s: Seq<SymbolRecord>) -> bool {
    forall|i: int, j: int| 0 <= i < j < s.len() ==> #[trigger] id_key(s[i]) != #[trigger] id_key(s[j])
}

/// One provider's symbols, in identity order, with its dependency edges and
/// inspection provenance.
#[derive(Debug, PartialEq, Eq)]
pub struct SymbolInventory {
    artifact: ResolvedArtifact,
    inspection: InspectionProvenance,
    symbols: Vec<SymbolRecord>,
    dependency_edges: Vec<DependencyEdge>,
}

fn key_le_exec(a: ArtifactSymbolId, b: ArtifactSymbolId) -> (out: bool)
    ensures
        out == key_le(a.key(), b.key()),
{
    a.table_index() < b.table_index() || (a.table_index() == b.table_index() && a.symbol_index() <= b.symbol_index())
}

impl SymbolInventory {
    /// Symbols are ordered by identity, and no identity repeats.
    #[verifier::type_invariant]
    closed spec fn inv(self) -> bool {
        sorted_by_id(self.symbols@) && ids_distinct(self.symbols@)
    }

    pub closed spec fn spec_artifact(&self) -> ResolvedArtifact {
        self.artifact
    }

    pub closed spec fn spec_inspection(&self) -> InspectionProvenance {
        self.inspection
    }

    pub closed spec fn spec_symbols(&self) -> Seq<SymbolRecord> {
        self.symbols@
    }

    pub closed spec fn spec_edges(&self) -> Seq<DependencyEdge> {
        self.dependency_edges@
    }

    /// The inventory of `artifact`: its symbols ordered by identity, which
    /// must all be distinct, and its dependency edges in recorded order.
    pub fn try_new(
        artifact: ResolvedArtifact,
        inspection: InspectionProvenance,
        symbols: Vec<SymbolRecord>,
        dependency_edges: Vec<DependencyEdge>,
    ) -> (res: Result<Self, ContractError>)
        ensures
            ids_distinct(symbols@) ==> (res matches Ok(inv) && inv.spec_artifact() == artifact && inv.spec_inspection()
                == inspection && inv.spec_edges() == dependency_edges@ && inv.spec_symbols().to_multiset()
                == symbols@.to_multiset() && sorted_by_id(inv.spec_symbols()) && ids_distinct(inv.spec_symbols())),
            !ids_distinct(symbols@) ==> (res matches Err(
                ContractError::DuplicateArtifactSymbolId { provider, table_index, symbol_index },
            ) && provider == artifact.spec_provider_id() && exists|i: int, j: int|
                0 <= i < j < symbols@.len() && id_key(symbols@[i]) == (table_index, symbol_index) && id_key(symbols@[j])
                    == (table_index, symbol_index)),
    {
        let ghost input = symbols@;
        let (sorted, Ghost(perm)) = sort_by_id(symbols);
        let mut m: usize = 1;
        while m < sorted.len()
            invariant
                1 <= m,
                input == symbols@,
                m <= sorted@.len() || sorted@.len() == 0,
                sorted_by_id(sorted@),
                sorted@.len() == input.len(),
                perm.len() == input.len(),
                forall|q: int| 0 <= q < input.len() ==> 0 <= #[trigger] perm[q] < input.len() && sorted@[q] == input[perm[q]],
                forall|a: int, b: int| 0 <= a < b < input.len() ==> #[trigger] perm[a] != #[trigger] perm[b],
                forall|a: int| 0 <= a < m - 1 ==> key_lt(#[trigger] id_key(sorted@[a]), id_key(sorted@[a + 1])),
            decreases sorted@.len() - m,
        {
            let a = sorted[m - 1].id();
            let b = sorted[m].id();
            if a.table_index() == b.table_index() && a.symbol_index() == b.symbol_index() {
                proof {
                    let (x, y) = if perm[m - 1] < perm[m as int] {
                        (perm[m - 1], perm[m as int])
                    } else {
                        (perm[m as int], perm[m - 1])
                    };
                    assert(perm[m - 1] != perm[m as int]);
                    assert(0 <= x < y < input.len());
                    assert(id_key(input[x]) == (a.spec_table(), a.spec_symbol()));
                    assert(id_key(input[y]) == (a.spec_table(), a.spec_symbol()));
                    assert(!ids_distinct(input));
                }
                return Err(ContractError::DuplicateArtifactSymbolId {
                    provider: artifact.provider_id(),
                    table_index: a.table_index(),
                    symbol_index: a.symbol_index(),
                });
            }
            proof {
                assert(key_le(id_key(sorted@[m - 1]), id_key(sorted@[m as int])));
            }
            m = m + 1;
        }
        proof {
            lemma_adjacent_strict(sorted@);
            lemma_distinct_sorted_implies_distinct_input(input, sorted@, perm);
        }
        Ok(SymbolInventory { artifact, inspection, symbols: sorted, dependency_edges })
    }

    pub fn artifact(&self) -> (out: &ResolvedArtifact)
        ensures
            *out == self.spec_artifact(),
    {
        &self.artifact
    }

    pub fn inspection(&self) -> (out: &InspectionProvenance)
        ensures
            *out == self.spec_inspection(),
    {
        &self.inspection
    }

    /// The symbols, ordered by identity without repeats.
    pub fn symbols(&self) -> (out: &[SymbolRecord])
        ensures
            out@ == self.spec_symbols(),
            sorted_by_id(out@) && ids_distinct(out@),
    {
        proof {
            use_type_invariant(self);
        }
        self.symbols.as_slice()
    }

    pub fn dependency_edges(&self) -> (out: &[DependencyEdge])
        ensures
            out@ == self.spec_edges(),
    {
        self.dependency_edges.as_slice()
    }

    /// The symbol with identity `id`, if present.
    pub fn symbol(&self, id: ArtifactSymbolId) -> (out: Option<&SymbolRecord>)
        ensures
            match out {
                Some(r) => exists|i: int| 0 <= i < self.spec_symbols().len() && self.spec_symbols()[i] == *r && id_key(*r) == id.key(),
                None => forall|i: int| 0 <= i < self.spec_symbols().len() ==> id_key(#[trigger] self.spec_symbols()[i]) != id.key(),
            },
    {
        let mut i: usize = 0;
        while i < self.symbols.len()
            invariant
                i <= self.symbols@.len(),
                forall|j: int| 0 <= j < i ==> id_key(#[trigger] self.symbols@[j]) != id.key(),
            decreases self.symbols@.len() - i,
        {
            let candidate = self.symbols[i].id();
            if candidate.table_index() == id.table_index() && candidate.symbol_index() == id.symbol_index() {
                let found = &self.symbols[i];
                assert(self.spec_symbols()[i as int] == *found);
                return Some(found);
            }
            i = i + 1;
        }
        None
    }
}

/// Adjacent strict order of a sorted sequence is strict order throughout.
proof fn lemma_adjacent_strict(s: Seq<SymbolRecord>)
    requires
        sorted_by_id(s),
        forall|a: int| 0 <= a < s.len() - 1 ==> key_lt(#[trigger] id_key(s[a]), id_key(s[a + 1])),
    ensures
        ids_distinct(s),
{
    assert forall|i: int, j: int| 0 <= i < j < s.len() implies #[trigger] id_key(s[i]) != #[trigger] id_key(s[j]) by {
        assert(key_lt(id_key(s[i]), id_key(s[i + 1])));
        if i + 1 < j {
            assert(key_le(id_key(s[i + 1]), id_key(s[j])));
        }
    }
}

/// Some position below `n` holds `v`.
pub open spec fn hits(perm: Seq<int>, n: int, v: int) -> bool {
    exists|q: int| 0 <= q < n && #[trigger] perm[q] == v
}

/// An injective map of `0..n` into itself reaches every value.
pub proof fn lemma_injective_onto(perm: Seq<int>, n: int)
    requires
        0 <= n <= perm.len(),
        forall|q: int| 0 <= q < n ==> 0 <= #[trigger] perm[q] < n,
        forall|a: int, b: int| 0 <= a < b < n ==> #[trigger] perm[a] != #[trigger] perm[b],
    ensures
        forall|v: int| 0 <= v < n ==> #[trigger] hits(perm, n, v),
    decreases n,
{
    if n > 0 {
        if !(exists|q: int| 0 <= q < n && perm[q] == n - 1) {
            lemma_injective_onto(perm, n - 1);
            let w = perm[n - 1];
            assert(0 <= w < n - 1);
            assert(hits(perm, n - 1, w));
            let q = choose|q: int| 0 <= q < n - 1 && #[trigger] perm[q] == w;
            assert(perm[q] != perm[n - 1]);
        }
        let q0 = choose|q: int| 0 <= q < n && perm[q] == n - 1;
        let shrunk = perm.update(q0, perm[n - 1]);
        assert forall|q: int| 0 <= q < n - 1 implies 0 <= #[trigger] shrunk[q] < n - 1 by {
            if q == q0 {
                assert(perm[n - 1] != perm[q0]);
            } else {
                assert(perm[q] != perm[q0]);
            }
        }
        assert forall|a: int, b: int| 0 <= a < b < n - 1 implies #[trigger] shrunk[a] != #[trigger] shrunk[b] by {
            if a == q0 {
                assert(perm[n - 1] != perm[b]);
            } else if b == q0 {
                assert(perm[a] != perm[n - 1]);
            }
        }
        lemma_injective_onto(shrunk, n - 1);
        assert forall|v: int| 0 <= v < n implies #[trigger] hits(perm, n, v) by {
            if v == n - 1 {
                assert(perm[q0] == v);
            } else {
                assert(hits(shrunk, n - 1, v));
                let q = choose|q: int| 0 <= q < n - 1 && #[trigger] shrunk[q] == v;
                if q == q0 {
                    assert(perm[n - 1] == v);
                } else {
                    assert(perm[q] == v);
                }
            }
        }
    }
}

/// Sorted distinct identities came from distinct input identities.
proof fn lemma_distinct_sorted_implies_distinct_input(input: Seq<SymbolRecord>, sorted: Seq<SymbolRecord>, perm: Seq<int>)
    requires
        sorted.len() == input.len(),
        perm.len() == input.len(),
        forall|q: int| 0 <= q < input.len() ==> 0 <= #[trigger] perm[q] < input.len() && sorted[q] == input[perm[q]],
        forall|a: int, b: int| 0 <= a < b < input.len() ==> #[trigger] perm[a] != #[trigger] perm[b],
        ids_distinct(sorted),
    ensures
        ids_distinct(input),
{
    lemma_injective_onto(perm, input.len() as int);
    assert forall|i: int, j: int| 0 <= i < j < input.len() implies #[trigger] id_key(input[i]) != #[trigger] id_key(input[j]) by {
        assert(hits(perm, input.len() as int, i));
        assert(hits(perm, input.len() as int, j));
        let qi = choose|q: int| 0 <= q < input.len() && #[trigger] perm[q] == i;
        let qj = choose|q: int| 0 <= q < input.len() && #[trigger] perm[q] == j;
        assert(sorted[qi] == input[i]);
        assert(sorted[qj] == input[j]);
        if qi < qj {
            assert(id_key(sorted[qi]) != id_key(sorted[qj]));
        } else {
            assert(id_key(sorted[qj]) != id_key(sorted[qi]));
        }
    }
}

/// Sorts `symbols` by identity (stably), returning where each sorted symbol
/// came from.
fn sort_by_id(symbols: Vec<SymbolRecord>) -> (out: (Vec<SymbolRecord>, Ghost<Seq<int>>))
    ensures
        sorted_by_id(out.0@),
        out.0@.to_multiset() == symbols@.to_multiset(),
        out.0@.len() == symbols@.len(),
        out.1@.len() == symbols@.len(),
        forall|q: int| 0 <= q < symbols@.len() ==> 0 <= #[trigger] out.1@[q] < symbols@.len() && out.0@[q] == symbols@[out.1@[q]],
        forall|a: int, b: int| 0 <= a < b < symbols@.len() ==> #[trigger] out.1@[a] != #[trigger] out.1@[b],
{
    let ghost input = symbols@;
    let mut rest = symbols;
    let mut sorted: Vec<SymbolRecord> = Vec::new();
    let ghost mut perm: Seq<int> = Seq::empty();
    let mut k: usize = 0;
    let n = rest.len();
    proof {
        assert(rest@ =~= input.skip(0));
        assert(input.take(0).to_multiset() =~= sorted@.to_multiset()) by {
            assert(input.take(0) =~= Seq::<SymbolRecord>::empty());
            assert(sorted@ =~= Seq::<SymbolRecord>::empty());
        }
    }
    while k < n
        invariant
            n == input.len(),
            k <= n,
            rest@ == input.skip(k as int),
            sorted_by_id(sorted@),
            sorted@.len() == k,
            sorted@.to_multiset() == input.take(k as int).to_multiset(),
            perm.len() == k,
            forall|q: int| 0 <= q < k ==> 0 <= #[trigger] perm[q] < k && sorted@[q] == input[perm[q]],
            forall|a: int, b: int| 0 <= a < b < k ==> #[trigger] perm[a] != #[trigger] perm[b],
        decreases n - k,
    {
        let x = rest.remove(0);
        proof {
            assert(x == input[k as int]);
            assert(rest@ =~= input.skip(k + 1));
            assert(input.take(k + 1) =~= input.take(k as int).push(input[k as int]));
            vstd::seq_lib::to_multiset_build(input.take(k as int), input[k as int]);
        }
        let ghost before = sorted@;
        let p = insert_position(&sorted, &x);
        sorted.insert(p, x);
        proof {
            let old_perm = perm;
            perm = perm.insert(p as int, k as int);
            assert(sorted@ == before.insert(p as int, x));
            assert forall|q: int| 0 <= q < k + 1 implies 0 <= #[trigger] perm[q] < k + 1 && sorted@[q] == input[perm[q]] by {
                if q < p {
                    assert(perm[q] == old_perm[q]);
                } else if q > p {
                    assert(perm[q] == old_perm[q - 1]);
                }
            }
            assert forall|a: int, b: int| 0 <= a < b < k + 1 implies #[trigger] perm[a] != #[trigger] perm[b] by {
                if a == p {
                    assert(perm[b] == old_perm[b - 1]);
                } else if b == p {
                    assert(perm[a] == old_perm[a]);
                } else {
                    let oa = if a < p { a } else { a - 1 };
                    let ob = if b < p { b } else { b - 1 };
                    assert(perm[a] == old_perm[oa]);
                    assert(perm[b] == old_perm[ob]);
                }
            }
            lemma_insert_sorted(before, p as int, x);
        }
        k = k + 1;
    }
    proof {
        assert(input.take(n as int) =~= input);
    }
    (sorted, Ghost(perm))
}

/// The position after every element whose identity is not greater than `x`'s.
fn insert_position(v: &Vec<SymbolRecord>, x: &SymbolRecord) -> (p: usize)
    requires
        sorted_by_id(v@),
    ensures
        p <= v@.len(),
        forall|m: int| 0 <= m < p ==> key_le(#[trigger] id_key(v@[m]), id_key(*x)),
        p < v@.len() ==> !key_le(id_key(v@[p as int]), id_key(*x)),
{
    let key = x.id();
    let mut p: usize = 0;
    while p < v.len() && key_le_exec(v[p].id(), key)
        invariant
            p <= v@.len(),
            key == x.spec_input().id,
            forall|m: int| 0 <= m < p ==> key_le(#[trigger] id_key(v@[m]), key.key()),
        decreases v@.len() - p,
    {
        p = p + 1;
    }
    p
}

proof fn lemma_insert_sorted(before: Seq<SymbolRecord>, p: int, x: SymbolRecord)
    requires
        sorted_by_id(before),
        0 <= p <= before.len(),
        forall|m: int| 0 <= m < p ==> key_le(#[trigger] id_key(before[m]), id_key(x)),
        p < before.len() ==> !key_le(id_key(before[p]), id_key(x)),
    ensures
        sorted_by_id(before.insert(p, x)),
{
    let v = before.insert(p, x);
    assert forall|i: int, j: int| 0 <= i < j < v.len() implies key_le(#[trigger] id_key(v[i]), #[trigger] id_key(v[j])) by {
        if j < p {
            assert(v[i] == before[i] && v[j] == before[j]);
        } else if j == p {
            assert(v[i] == before[i]);
        } else if i == p {
            assert(v[j] == before[j - 1]);
            assert(!key_le(id_key(before[p]), id_key(x)));
            if j - 1 > p {
                assert(key_le(id_key(before[p]), id_key(before[j - 1])));
            }
        } else if i < p {
            assert(v[i] == before[i]);
            assert(v[j] == before[j - 1]);
        } else {
            assert(v[i] == before[i - 1]);
            assert(v[j] == before[j - 1]);
        }
    }
}

impl Canonical for SymbolInventory {
    closed spec fn canonical(&self) -> Seq<u8> {
        self.artifact.canonical() + self.inspection.canonical() + self.symbols.canonical() + self.dependency_edges.canonical()
    }

    fn write_canonical(&self, out: &mut Vec<u8>) {
        let ghost start = out@;
        self.artifact.write_canonical(out);
        self.inspection.write_canonical(out);
        proof { lemma_extend(start, self.artifact.canonical(), self.inspection.canonical()); }
        self.symbols.write_canonical(out);
        proof { lemma_extend(start, self.artifact.canonical() + self.inspection.canonical(), self.symbols.canonical()); }
        self.dependency_edges.write_canonical(out);
        proof { lemma_extend(start, self.artifact.canonical() + self.inspection.canonical() + self.symbols.canonical(), self.dependency_edges.canonical()); }
    }
}

impl Canonical for InspectionProvenance {
    closed spec fn canonical(&self) -> Seq<u8> {
        self.tool.canonical() + self.parsers.canonical()
    }

    fn write_canonical(&self, out: &mut Vec<u8>) {
        let ghost start = out@;
        self.tool.write_canonical(out);
        self.parsers.write_canonical(out);
        proof { lemma_extend(start, self.tool.canonical(), self.parsers.canonical()); }
    }
}

} // verus!
