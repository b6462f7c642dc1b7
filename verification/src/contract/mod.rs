//! Parser-independent, checked link and ABI evidence contract.
use vstd::prelude::*;

pub mod analysis;
pub mod canonical;
pub mod codec;
pub mod corpus;
pub mod diagnostic;
pub mod error;
pub mod evidence;
pub mod graph;
pub mod identity;
pub mod inventory;
pub mod layout;
pub mod link;
pub mod model;
pub mod order;
pub mod package;
pub mod payload;
pub mod probe;
pub mod request;
pub mod source;
pub mod symbol_order;
pub mod validated;

pub use error::ContractError;
pub use identity::{
    ArtifactFingerprint, IdentityParseError, LinkAnalysisFingerprint, ProbeEvidenceId, ProviderId,
};
pub use link::{LinkAtom, ResolvedLinkPlan};
pub use request::{AnalysisPolicy, AnalysisRequest, ResolutionPolicy, WeakSymbolPolicy};
pub use model::{
    Architecture, CrtFlavor, Endian, Environment, LinkerFlavor, NativeAbi, ObjectFormat,
    ObservedTarget, ObservedTargetParts, OperatingSystem, TargetSpec,
};
pub use source::{CallingConvention, ChildId, ContentFingerprint, DeclarationId, SchemaHeader, SourceFingerprint, TargetFingerprint};

verus! {

} // verus!
