//! The order of symbol identities: by symbol table, then by index within it.
use vstd::prelude::*;
use core::cmp::Ordering;
use vstd::std_specs::cmp::PartialOrdSpecImpl;

use super::model::ArtifactSymbolId;

verus! {

/// Symbol identities ordered by table, then by index within the table.
pub open spec fn symbol_id_order(a: ArtifactSymbolId, b: ArtifactSymbolId) -> Option<Ordering> {
    if a.spec_table() < b.spec_table() {
        Some(Ordering::Less)
    } else if a.spec_table() > b.spec_table() {
        Some(Ordering::Greater)
    } else if a.spec_symbol() < b.spec_symbol() {
        Some(Ordering::Less)
    } else if a.spec_symbol() > b.spec_symbol() {
        Some(Ordering::Greater)
    } else {
        Some(Ordering::Equal)
    }
}

impl PartialOrd for ArtifactSymbolId {
    fn partial_cmp(&self, other: &Self) -> (r: Option<Ordering>) {
        let (t, u) = (self.table_index(), other.table_index());
        let (s, v) = (self.symbol_index(), other.symbol_index());
        if t < u {
            Some(Ordering::Less)
        } else if t > u {
            Some(Ordering::Greater)
        } else if s < v {
            Some(Ordering::Less)
        } else if s > v {
            Some(Ordering::Greater)
        } else {
            Some(Ordering::Equal)
        }
    }
}

impl PartialOrdSpecImpl for ArtifactSymbolId {
    open spec fn obeys_partial_cmp_spec() -> bool {
        true
    }

    open spec fn partial_cmp_spec(&self, other: &Self) -> Option<Ordering> {
        symbol_id_order(*self, *other)
    }
}

/// Symbol identities are ordered lexicographically by table and then by
/// index: `new(t1, s1) < new(t2, s2)` exactly when `(t1, s1)` comes first.
pub proof fn lemma_symbol_id_order_lexicographic(t1: u32, s1: u64, t2: u32, s2: u64, a: ArtifactSymbolId, b: ArtifactSymbolId)
    requires
        a.spec_table() == t1 && a.spec_symbol() == s1,
        b.spec_table() == t2 && b.spec_symbol() == s2,
    ensures
        (symbol_id_order(a, b) == Some(Ordering::Less)) <==> (t1 < t2 || (t1 == t2 && s1 < s2)),
        (symbol_id_order(a, b) == Some(Ordering::Equal)) <==> (t1 == t2 && s1 == s2),
        (symbol_id_order(a, b) == Some(Ordering::Greater)) <==> (t1 > t2 || (t1 == t2 && s1 > s2)),
        symbol_id_order(a, b) == Some(Ordering::Equal) ==> a == b,
{
    if t1 == t2 && s1 == s2 {
        ArtifactSymbolId::lemma_fields_determine(a, b);
    }
}

} // verus!
