//! Resolved link plans: the exact, ordered sequence of native link actions.
use vstd::prelude::*;
use super::payload::{lemma_extend, Canonical};

use super::error::ContractError;
use super::model::{
    depth_after, groups_balanced, is_normalized_absolute, is_valid_native_name, kind_label_spec,
    lemma_depth_step, normalized_absolute_path, validate_native_name, ArtifactKind, ResolvedArtifact,
};

verus! {

/// One lossless native-link action. Sequence order and repetition are part
/// of the contract and are never normalized away.
#[derive(Debug, Clone, PartialEq, Eq)]
pub enum LinkAtom {
    SearchNative(Vec<u8>),
    Object(ResolvedArtifact),
    StaticLibrary(ResolvedArtifact),
    DynamicLibrary(ResolvedArtifact),
    ImportLibrary(ResolvedArtifact),
    Framework { name: Vec<u8>, search_path: Vec<u8>, artifact: ResolvedArtifact },
    GroupStart,
    GroupEnd,
}

pub open spec fn atom_group_step(atom: LinkAtom) -> int {
    match atom {
        LinkAtom::GroupStart => 1,
        LinkAtom::GroupEnd => -1,
        _ => 0,
    }
}

pub open spec fn atom_group_steps(atoms: Seq<LinkAtom>) -> Seq<int> {
    atoms.map_values(|a: LinkAtom| atom_group_step(a))
}

/// The artifact kind an atom requires of its artifact, with the atom's label.
pub open spec fn atom_kind_label(atom: LinkAtom) -> &'static str {
    match atom {
        LinkAtom::Object(_) => "object",
        LinkAtom::StaticLibrary(_) => "static_library",
        LinkAtom::DynamicLibrary(_) => "dynamic_library",
        LinkAtom::ImportLibrary(_) => "import_library",
        _ => "framework",
    }
}

/// Whether one atom is well formed on its own.
pub open spec fn atom_ok(atom: LinkAtom) -> bool {
    match atom {
        LinkAtom::SearchNative(p) => is_normalized_absolute(p@),
        LinkAtom::Object(a) => a.spec_kind() == ArtifactKind::Object,
        LinkAtom::StaticLibrary(a) => a.spec_kind() == ArtifactKind::StaticLibrary,
        LinkAtom::DynamicLibrary(a) => a.spec_kind() == ArtifactKind::DynamicLibrary,
        LinkAtom::ImportLibrary(a) => a.spec_kind() == ArtifactKind::ImportLibrary,
        LinkAtom::Framework { name, search_path, artifact } =>
            is_valid_native_name(name@) && is_normalized_absolute(search_path@) && artifact.spec_kind() == ArtifactKind::Framework,
        LinkAtom::GroupStart | LinkAtom::GroupEnd => true,
    }
}

/// The error a malformed atom draws.
pub open spec fn atom_error_matches(atom: LinkAtom, e: ContractError) -> bool {
    match atom {
        LinkAtom::SearchNative(p) =>
            e matches ContractError::InvalidPath { field, path } && field == "link_atom.search_native" && path@ == p@,
        LinkAtom::Object(a) | LinkAtom::StaticLibrary(a) | LinkAtom::DynamicLibrary(a) | LinkAtom::ImportLibrary(a) =>
            e == ContractError::ArtifactKindMismatch { atom_kind: atom_kind_label(atom), artifact_kind: kind_label_spec(a.spec_kind()) },
        LinkAtom::Framework { name, search_path, artifact } =>
            if !is_valid_native_name(name@) {
                e == ContractError::InvalidNativeString { field: "link_atom.framework.name" }
            } else if !is_normalized_absolute(search_path@) {
                e matches ContractError::InvalidPath { field, path } && field == "link_atom.framework.search_path" && path@ == search_path@
            } else {
                e == ContractError::ArtifactKindMismatch { atom_kind: "framework", artifact_kind: kind_label_spec(artifact.spec_kind()) }
            },
        LinkAtom::GroupStart | LinkAtom::GroupEnd => false,
    }
}

pub open spec fn atom_fails_at(atoms: Seq<LinkAtom>, i: int) -> bool {
    !atom_ok(atoms[i]) || (atoms[i] is GroupEnd && depth_after(atom_group_steps(atoms).take(i)) == 0)
}

pub open spec fn atoms_error_at(atoms: Seq<LinkAtom>, i: int, e: ContractError) -> bool {
    if !atom_ok(atoms[i]) {
        atom_error_matches(atoms[i], e)
    } else {
        e == ContractError::UnexpectedGroupEnd { index: i as usize }
    }
}

/// A plan is valid when every atom is well formed and its groups balance.
pub open spec fn plan_valid(atoms: Seq<LinkAtom>) -> bool {
    (forall|i: int| 0 <= i < atoms.len() ==> atom_ok(#[trigger] atoms[i])) && groups_balanced(atom_group_steps(atoms))
}

/// Checks that an atom's artifact has the kind the atom names.
pub fn require_kind(atom_kind: &'static str, expected: ArtifactKind, actual: ArtifactKind) -> (res: Result<(), ContractError>)
    ensures
        expected == actual ==> res is Ok,
        expected != actual ==> res == Err::<(), ContractError>(ContractError::ArtifactKindMismatch { atom_kind, artifact_kind: kind_label_spec(actual) }),
{
    if expected == actual {
        Ok(())
    } else {
        Err(ContractError::ArtifactKindMismatch { atom_kind, artifact_kind: actual.label() })
    }
}

fn check_atom(atom: &LinkAtom) -> (res: Result<(), ContractError>)
    ensures
        atom_ok(*atom) ==> res is Ok,
        !atom_ok(*atom) ==> (res matches Err(e) && atom_error_matches(*atom, e)),
{
    match atom {
        LinkAtom::SearchNative(path) => {
            normalized_absolute_path("link_atom.search_native", path.clone())?;
            Ok(())
        },
        LinkAtom::Object(artifact) => require_kind("object", ArtifactKind::Object, artifact.kind()),
        LinkAtom::StaticLibrary(artifact) => require_kind("static_library", ArtifactKind::StaticLibrary, artifact.kind()),
        LinkAtom::DynamicLibrary(artifact) => require_kind("dynamic_library", ArtifactKind::DynamicLibrary, artifact.kind()),
        LinkAtom::ImportLibrary(artifact) => require_kind("import_library", ArtifactKind::ImportLibrary, artifact.kind()),
        LinkAtom::Framework { name, search_path, artifact } => {
            validate_native_name("link_atom.framework.name", name.as_slice())?;
            normalized_absolute_path("link_atom.framework.search_path", search_path.clone())?;
            require_kind("framework", ArtifactKind::Framework, artifact.kind())
        },
        LinkAtom::GroupStart | LinkAtom::GroupEnd => Ok(()),
    }
}

/// A checked, ordered link plan.
#[derive(Debug, Clone, PartialEq, Eq)]
pub struct ResolvedLinkPlan {
    atoms: Vec<LinkAtom>,
}

impl View for ResolvedLinkPlan {
    type V = Seq<LinkAtom>;

    closed spec fn view(&self) -> Seq<LinkAtom> {
        self.atoms@
    }
}

impl ResolvedLinkPlan {
    /// The plan is valid: every atom well formed, every group balanced.
    pub closed spec fn wf(&self) -> bool {
        plan_valid(self.atoms@)
    }

    /// Accepts `atoms` exactly as given when every atom is well formed and
    /// the groups balance; reports the first failure otherwise.
    pub fn try_new(atoms: Vec<LinkAtom>) -> (res: Result<Self, ContractError>)
        ensures
            res is Ok <==> plan_valid(atoms@),
            res matches Ok(plan) ==> plan@ == atoms@ && plan.wf(),
            res matches Err(e) ==> {
                ||| exists|i: int| 0 <= i < atoms@.len() && atom_fails_at(atoms@, i) && (forall|j: int| 0 <= j < i ==> !atom_fails_at(atoms@, j)) && atoms_error_at(atoms@, i, e)
                ||| (forall|j: int| 0 <= j < atoms@.len() ==> !atom_fails_at(atoms@, j)) && e == ContractError::UnclosedGroups { depth: depth_after(atom_group_steps(atoms@)) as usize }
            },
    {
        let ghost steps = atom_group_steps(atoms@);
        let mut depth: usize = 0;
        let mut index: usize = 0;
        while index < atoms.len()
            invariant
                index <= atoms.len(),
                steps == atom_group_steps(atoms@),
                steps.len() == atoms@.len(),
                depth as int == depth_after(steps.take(index as int)),
                depth <= index,
                forall|j: int| 0 <= j < index ==> !atom_fails_at(atoms@, j),
                forall|j: int| 0 <= j < index ==> atom_ok(#[trigger] atoms@[j]),
                forall|k: int| 0 <= k <= index ==> depth_after(#[trigger] steps.take(k)) >= 0,
            decreases atoms.len() - index,
        {
            proof {
                lemma_depth_step(steps, index as int);
            }
            match check_atom(&atoms[index]) {
                Ok(()) => {},
                Err(e) => {
                    proof {
                        assert(atom_fails_at(atoms@, index as int));
                        assert(atoms_error_at(atoms@, index as int, e));
                    }
                    return Err(e);
                },
            }
            match &atoms[index] {
                LinkAtom::GroupStart => {
                    depth = depth + 1;
                },
                LinkAtom::GroupEnd => {
                    if depth == 0 {
                        proof {
                            assert(atom_fails_at(atoms@, index as int));
                            assert(!(depth_after(steps.take(index as int + 1)) >= 0));
                        }
                        return Err(ContractError::UnexpectedGroupEnd { index });
                    }
                    depth = depth - 1;
                },
                _ => {},
            }
            proof {
                assert(depth_after(steps.take(index as int + 1)) == depth as int);
            }
            index = index + 1;
        }
        proof {
            assert(steps.take(atoms@.len() as int) =~= steps);
        }
        if depth != 0 {
            return Err(ContractError::UnclosedGroups { depth });
        }
        Ok(ResolvedLinkPlan { atoms })
    }

    /// The atoms, in plan order.
    pub fn atoms(&self) -> (out: &[LinkAtom])
        ensures
            out@ == self@,
    {
        self.atoms.as_slice()
    }

    /// The atoms, in plan order.
    pub fn into_atoms(self) -> (out: Vec<LinkAtom>)
        ensures
            out@ == self@,
    {
        self.atoms
    }
}

impl LinkAtom {
    /// The artifact this atom links, if it links one.
    pub fn artifact(&self) -> (out: Option<&ResolvedArtifact>)
        ensures
            match *self {
                LinkAtom::Object(a) | LinkAtom::StaticLibrary(a) | LinkAtom::DynamicLibrary(a) | LinkAtom::ImportLibrary(a) => out == Some(&a),
                LinkAtom::Framework { artifact, .. } => out == Some(&artifact),
                _ => out is None,
            },
    {
        match self {
            LinkAtom::Object(artifact) | LinkAtom::StaticLibrary(artifact) | LinkAtom::DynamicLibrary(artifact)
            | LinkAtom::ImportLibrary(artifact) => Some(artifact),
            LinkAtom::Framework { artifact, .. } => Some(artifact),
            LinkAtom::SearchNative(_) | LinkAtom::GroupStart | LinkAtom::GroupEnd => None,
        }
    }

    /// The search directory this atom adds, if it adds one.
    pub fn search_path(&self) -> (out: Option<&[u8]>)
        ensures
            match *self {
                LinkAtom::SearchNative(p) => out matches Some(q) && q@ == p@,
                LinkAtom::Framework { search_path, .. } => out matches Some(q) && q@ == search_path@,
                _ => out is None,
            },
    {
        match self {
            LinkAtom::SearchNative(path) => Some(path.as_slice()),
            LinkAtom::Framework { search_path, .. } => Some(search_path.as_slice()),
            _ => None,
        }
    }
}

impl Canonical for ResolvedLinkPlan {
    closed spec fn canonical(&self) -> Seq<u8> {
        self.atoms.canonical()
    }

    fn write_canonical(&self, out: &mut Vec<u8>) {
        let ghost start = out@;
        self.atoms.write_canonical(out);
    }
}

impl Canonical for LinkAtom {
    closed spec fn canonical(&self) -> Seq<u8> {
        match self {
            LinkAtom::SearchNative(x0) => seq![0u8] + x0.canonical(),
            LinkAtom::Object(x0) => seq![1u8] + x0.canonical(),
            LinkAtom::StaticLibrary(x0) => seq![2u8] + x0.canonical(),
            LinkAtom::DynamicLibrary(x0) => seq![3u8] + x0.canonical(),
            LinkAtom::ImportLibrary(x0) => seq![4u8] + x0.canonical(),
            LinkAtom::Framework { name, search_path, artifact } => seq![5u8] + name.canonical() + search_path.canonical() + artifact.canonical(),
            LinkAtom::GroupStart => seq![6u8],
            LinkAtom::GroupEnd => seq![7u8],
        }
    }

    fn write_canonical(&self, out: &mut Vec<u8>) {
        let ghost start = out@;
        match self {
            LinkAtom::SearchNative(x0) => {
                out.push(0u8);
                x0.write_canonical(out);
                proof { lemma_extend(start, seq![0u8], x0.canonical()); }
            },
            LinkAtom::Object(x0) => {
                out.push(1u8);
                x0.write_canonical(out);
                proof { lemma_extend(start, seq![1u8], x0.canonical()); }
            },
            LinkAtom::StaticLibrary(x0) => {
                out.push(2u8);
                x0.write_canonical(out);
                proof { lemma_extend(start, seq![2u8], x0.canonical()); }
            },
            LinkAtom::DynamicLibrary(x0) => {
                out.push(3u8);
                x0.write_canonical(out);
                proof { lemma_extend(start, seq![3u8], x0.canonical()); }
            },
            LinkAtom::ImportLibrary(x0) => {
                out.push(4u8);
                x0.write_canonical(out);
                proof { lemma_extend(start, seq![4u8], x0.canonical()); }
            },
            LinkAtom::Framework { name, search_path, artifact } => {
                out.push(5u8);
                name.write_canonical(out);
                proof { lemma_extend(start, seq![5u8], name.canonical()); }
                search_path.write_canonical(out);
                proof { lemma_extend(start, seq![5u8] + name.canonical(), search_path.canonical()); }
                artifact.write_canonical(out);
                proof { lemma_extend(start, seq![5u8] + name.canonical() + search_path.canonical(), artifact.canonical()); }
            },
            LinkAtom::GroupStart => {
                out.push(6u8);
            },
            LinkAtom::GroupEnd => {
                out.push(7u8);
            },
        }
    }
}

} // verus!
