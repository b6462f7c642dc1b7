//! Checks that every function a binding package declares is defined, as a
//! function, by an inspected artifact.
use vstd::prelude::*;

use crate::symbols::{SymbolEntry, SymbolInventory};
use crate::text::str_eq;

verus! {

#[derive(Debug, Clone, Copy, PartialEq, Eq, Structural)]
pub enum MatchStatus {
    Matched,
    Missing,
    NotAFunction,
}

#[derive(Debug, Clone, PartialEq, Eq)]
pub struct FunctionMatch {
    pub name: String,
    pub status: MatchStatus,
}

/// One item of a binding package: only functions are checked.
#[derive(Debug, Clone, PartialEq, Eq)]
pub enum BindingItem {
    Function { name: String },
    TypeAlias { name: String },
}

/// The declarations a binding package carries.
#[derive(Debug, Clone, PartialEq, Eq)]
pub struct BindingPackage {
    pub items: Vec<BindingItem>,
}

#[derive(Debug, Clone, PartialEq, Eq)]
pub struct ValidationReport {
    pub matches: Vec<FunctionMatch>,
}

/// The matches with status `status`, in report order.
pub open spec fn with_status(matches: Seq<FunctionMatch>, status: MatchStatus) -> Seq<FunctionMatch>
    decreases matches.len(),
{
    if matches.len() == 0 {
        Seq::empty()
    } else if matches.last().status == status {
        with_status(matches.drop_last(), status).push(matches.last())
    } else {
        with_status(matches.drop_last(), status)
    }
}

fn matches_with_status(matches: &Vec<FunctionMatch>, status: MatchStatus) -> (out: Vec<&FunctionMatch>)
    ensures
        out@.map_values(|m: &FunctionMatch| *m) == with_status(matches@, status),
{
    let mut out: Vec<&FunctionMatch> = Vec::new();
    let mut i: usize = 0;
    while i < matches.len()
        invariant
            i <= matches@.len(),
            out@.map_values(|m: &FunctionMatch| *m) == with_status(matches@.take(i as int), status),
        decreases matches@.len() - i,
    {
        proof {
            assert(matches@.take(i + 1).drop_last() =~= matches@.take(i as int));
        }
        if matches[i].status == status {
            out.push(&matches[i]);
        }
        proof {
            assert(out@.map_values(|m: &FunctionMatch| *m) =~= with_status(matches@.take(i + 1), status));
        }
        i = i + 1;
    }
    proof {
        assert(matches@.take(matches@.len() as int) =~= matches@);
    }
    out
}

impl ValidationReport {
    /// The matched functions, in report order.
    pub fn matched(&self) -> (out: Vec<&FunctionMatch>)
        ensures
            out@.map_values(|m: &FunctionMatch| *m) == with_status(self.matches@, MatchStatus::Matched),
    {
        matches_with_status(&self.matches, MatchStatus::Matched)
    }

    /// The missing functions, in report order.
    pub fn missing(&self) -> (out: Vec<&FunctionMatch>)
        ensures
            out@.map_values(|m: &FunctionMatch| *m) == with_status(self.matches@, MatchStatus::Missing),
    {
        matches_with_status(&self.matches, MatchStatus::Missing)
    }

    /// Whether every function matched (vacuously so when there are none).
    pub fn all_matched(&self) -> (out: bool)
        ensures
            out <==> forall|i: int| 0 <= i < self.matches@.len() ==> #[trigger] self.matches@[i].status
                == MatchStatus::Matched,
    {
        let mut i: usize = 0;
        while i < self.matches.len()
            invariant
                i <= self.matches@.len(),
                forall|j: int| 0 <= j < i ==> #[trigger] self.matches@[j].status == MatchStatus::Matched,
            decreases self.matches@.len() - i,
        {
            if self.matches[i].status != MatchStatus::Matched {
                return false;
            }
            i = i + 1;
        }
        true
    }
}

/// The first symbol named `name` is at index `k`.
pub open spec fn first_named(symbols: Seq<SymbolEntry>, name: Seq<char>, k: int) -> bool {
    &&& 0 <= k < symbols.len()
    &&& symbols[k].name@ == name
    &&& forall|j: int| 0 <= j < k ==> #[trigger] symbols[j].name@ != name
}

/// A function is missing when no symbol has its name; otherwise the first
/// symbol with its name decides whether it is a function.
pub open spec fn status_spec(symbols: Seq<SymbolEntry>, name: Seq<char>) -> MatchStatus {
    if exists|k: int| first_named(symbols, name, k) {
        let k = choose|k: int| first_named(symbols, name, k);
        if symbols[k].is_function {
            MatchStatus::Matched
        } else {
            MatchStatus::NotAFunction
        }
    } else {
        MatchStatus::Missing
    }
}

/// The function names a package declares, in package order.
pub open spec fn declared_functions(items: Seq<BindingItem>) -> Seq<Seq<char>>
    decreases items.len(),
{
    if items.len() == 0 {
        Seq::empty()
    } else {
        match items.last() {
            BindingItem::Function { name } => declared_functions(items.drop_last()).push(name@),
            _ => declared_functions(items.drop_last()),
        }
    }
}

proof fn lemma_first_named_unique(symbols: Seq<SymbolEntry>, name: Seq<char>, a: int, b: int)
    requires
        first_named(symbols, name, a),
        first_named(symbols, name, b),
    ensures
        a == b,
{
    if a < b {
        assert(symbols[a].name@ != name);
    } else if b < a {
        assert(symbols[b].name@ != name);
    }
}

fn status_of(inventory: &SymbolInventory, name: &str) -> (out: MatchStatus)
    ensures
        out == status_spec(inventory.symbols@, name@),
{
    let symbols = &inventory.symbols;
    let mut i: usize = 0;
    while i < symbols.len()
        invariant
            i <= symbols@.len(),
            symbols@ == inventory.symbols@,
            forall|j: int| 0 <= j < i ==> #[trigger] symbols@[j].name@ != name@,
        decreases symbols@.len() - i,
    {
        if str_eq(symbols[i].name.as_str(), name) {
            let is_function = symbols[i].is_function;
            let out = if is_function {
                MatchStatus::Matched
            } else {
                MatchStatus::NotAFunction
            };
            proof {
                assert(first_named(inventory.symbols@, name@, i as int));
                let k = choose|k: int| first_named(inventory.symbols@, name@, k);
                lemma_first_named_unique(inventory.symbols@, name@, k, i as int);
                assert(inventory.symbols@[k].is_function == is_function);
            }
            return out;
        }
        i = i + 1;
    }
    proof {
        assert forall|k: int| !first_named(symbols@, name@, k) by {
            if 0 <= k < symbols@.len() {
                assert(symbols@[k].name@ != name@);
            }
        }
    }
    MatchStatus::Missing
}

/// One match per declared function, in package order, each with its status
/// against `inventory`.
pub fn validate(package: &BindingPackage, inventory: &SymbolInventory) -> (out: ValidationReport)
    ensures
        out.matches@.len() == declared_functions(package.items@).len(),
        forall|i: int| 0 <= i < out.matches@.len() ==> (#[trigger] out.matches@[i]).name@ == declared_functions(
            package.items@,
        )[i] && out.matches@[i].status == status_spec(inventory.symbols@, declared_functions(package.items@)[i]),
{
    let mut matches: Vec<FunctionMatch> = Vec::new();
    let mut i: usize = 0;
    while i < package.items.len()
        invariant
            i <= package.items@.len(),
            matches@.len() == declared_functions(package.items@.take(i as int)).len(),
            forall|k: int| 0 <= k < matches@.len() ==> (#[trigger] matches@[k]).name@ == declared_functions(
                package.items@.take(i as int),
            )[k] && matches@[k].status == status_spec(
                inventory.symbols@,
                declared_functions(package.items@.take(i as int))[k],
            ),
        decreases package.items@.len() - i,
    {
        proof {
            assert(package.items@.take(i + 1).drop_last() =~= package.items@.take(i as int));
        }
        match &package.items[i] {
            BindingItem::Function { name } => {
                let status = status_of(inventory, name.as_str());
                matches.push(FunctionMatch { name: name.clone(), status });
            },
            BindingItem::TypeAlias { .. } => {},
        }
        i = i + 1;
    }
    proof {
        assert(package.items@.take(package.items@.len() as int) =~= package.items@);
    }
    ValidationReport { matches }
}

} // verus!
