//! Reasons a contract value is refused.
use vstd::prelude::*;

use super::identity::{ArtifactFingerprint, ProbeEvidenceId, ProviderId};

use super::model::{ArtifactSymbolId, SymbolKind};
use super::source::{ChildId, ContentFingerprint, DeclarationId, SourceFingerprint, TargetFingerprint};

verus! {

/// Why a contract constructor refused its input.
#[derive(Debug, Clone, PartialEq, Eq)]
pub enum ContractError {
    /// The named text field is empty or contains a NUL character.
    InvalidText { field: &'static str },
    /// A diagnostic code does not have the `LINC-[ENPW]dddd` shape.
    InvalidDiagnosticCode { value: String },
    /// A diagnostic carries a severity other than the one its code implies.
    DiagnosticSeverityMismatch { code: String, expected: &'static str, actual: &'static str },
    /// A probe rejection uses a code that is not an error or partial code.
    InvalidProbeRejectionCode { code: String },
    /// A path is not absolute and lexically normalized.
    InvalidPath { field: &'static str, path: Vec<u8> },
    /// A native string is empty, contains NUL, or (for names) a separator.
    InvalidNativeString { field: &'static str },
    /// An observed pointer width is not 16, 32, 64 or 128 bits.
    InvalidPointerWidth { bits: u16 },
    /// A layout has a zero or non-byte size, or an invalid alignment.
    InvalidLayout { declaration: DeclarationId },
    /// A layout names the same child twice.
    DuplicateLayoutChild { declaration: DeclarationId, child: ChildId },
    /// An ambiguity does not list at least two distinct candidates.
    InvalidAmbiguity { declaration: DeclarationId },
    /// A group end occurs with no open group, at this atom index.
    UnexpectedGroupEnd { index: usize },
    /// Groups remain open at the end of the sequence.
    UnclosedGroups { depth: usize },
    /// A link atom's kind does not match its artifact's kind.
    ArtifactKindMismatch { atom_kind: &'static str, artifact_kind: &'static str },
    /// An inventory repeats an artifact-local symbol identity.
    DuplicateArtifactSymbolId { provider: ProviderId, table_index: u32, symbol_index: u64 },
    /// Inspection provenance is empty or repeats a parser.
    InvalidInspectionProvenance { reason: &'static str },
    /// A probe has no subjects.
    EmptyProbeSubjects,
    /// A probe lists the same subject twice.
    DuplicateProbeSubject { subject: String },
    /// Probe subjects and outcomes do not correspond one to one.
    ProbeSubjectCountMismatch { subjects: usize, outcomes: usize },
    /// A probe's recorded results contradict its verified outcomes.
    InvalidProbeResult { reason: &'static str },
    /// A probe environment is inconsistent.
    InvalidProbeEnvironment { reason: &'static str },
    /// A stored provider identity differs from the derived one.
    ProviderIdMismatch { stored: ProviderId, derived: ProviderId },
    /// A stored probe identity differs from the derived one.
    ProbeIdMismatch { stored: ProbeEvidenceId, derived: ProbeEvidenceId },
    /// A stored environment fingerprint differs from the derived one.
    ProbeEnvironmentFingerprintMismatch { stored: ContentFingerprint, derived: ContentFingerprint },
    /// An artifact fingerprint differs from the expected one.
    ArtifactFingerprintMismatch { provider: ProviderId, expected: ArtifactFingerprint, actual: ArtifactFingerprint },
    /// An inventory's parsers do not fit its artifact's container and format.
    InspectionParserMismatch { provider: ProviderId },
    /// A provider occurs more than once.
    DuplicateProvider { provider: ProviderId },
    /// A dependency-resolved provider names a parent that is not present.
    MissingParentProvider { provider: ProviderId, parent: ProviderId },
    /// A parent does not record the dependency edge its child claims.
    DependencyCrossReference { parent: ProviderId, child: ProviderId },
    /// A provider names itself as its parent or dependency.
    SelfParentProvider { provider: ProviderId },
    /// The provider dependency graph has a cycle through this provider.
    DependencyCycle { provider: ProviderId },
    /// A dependency edge of this parent is unresolved.
    UnresolvedDependency { parent: ProviderId },
    /// A dependency does not follow its parent in the link plan.
    DependencyPlanOrder { parent: ProviderId, child: ProviderId },
    /// A search-path resolution names a native input that cannot have produced it.
    InvalidResolutionInput { provider: ProviderId, index: u32 },
    /// A referenced provider is not in the package.
    MissingProvider { provider: ProviderId },
    /// A plan atom's artifact differs from its provider's inventory.
    PlanArtifactMismatch { provider: ProviderId },
    /// A provider is not linked by the plan.
    ProviderNotInPlan { provider: ProviderId },
    /// A declaration's symbol is visible from other than exactly one place.
    AmbiguousVisibleProviders { declaration: DeclarationId, count: usize },
    /// Evidence names a symbol its provider does not have.
    MissingSymbolIdentity { declaration: DeclarationId, provider: ProviderId, symbol: ArtifactSymbolId },
    /// A declaration's symbol is not a visible global export.
    SymbolNotVisible { declaration: DeclarationId },
    /// A declaration's symbol has the wrong kind.
    SymbolKindMismatch { declaration: DeclarationId, expected: SymbolKind, actual: SymbolKind },
    /// Symbol evidence differs from the provider's record.
    SymbolEvidenceMismatch { declaration: DeclarationId },
    /// A symbol decoration is not certified here.
    InvalidSymbolDecoration { declaration: DeclarationId, reason: &'static str },
    /// A declaration's link name differs from the evidence.
    SymbolNameMismatch { declaration: DeclarationId, expected: String, actual: String },
    /// A linked declaration lacks exact provider and symbol evidence.
    RequiredSymbolEvidence { declaration: DeclarationId },
    /// A declaration lacks confirmed callable-ABI evidence.
    RequiredCallableAbiEvidence { declaration: DeclarationId },
    /// Referenced probe evidence is not in the package.
    MissingProbeEvidence { probe: ProbeEvidenceId },
    /// A probe does not verify the subject it is cited for.
    ProbeSubjectMismatch { probe: ProbeEvidenceId, declaration: DeclarationId, subject: &'static str },
    /// A probe's method cannot establish the subject it is cited for.
    ProbeMethodMismatch { probe: ProbeEvidenceId, subject: &'static str },
    /// Two probes share an identity.
    DuplicateProbeEvidence { probe: ProbeEvidenceId },
    /// Evidence is bound to another target.
    EvidenceTargetMismatch { evidence_kind: &'static str, expected: TargetFingerprint, actual: TargetFingerprint },
    /// Evidence is bound to another source package.
    EvidenceSourceFingerprintMismatch { evidence_kind: &'static str, expected: SourceFingerprint, actual: SourceFingerprint },
    /// A declaration's evidence dimensions contradict each other.
    IncoherentDeclarationEvidence { declaration: DeclarationId, reason: &'static str },
    /// A policy is inconsistent.
    InvalidPolicy { reason: &'static str },
    /// A collection is not in canonical order.
    NonCanonicalOrder { collection: &'static str },
    /// Two records of one kind of evidence name the same declaration.
    DuplicateDeclarationEvidence { declaration: DeclarationId, evidence_kind: &'static str },
    /// A declaration's layout assessment has no layout record.
    RequiredLayoutEvidence { declaration: DeclarationId },
    /// A diagnostic's context points outside the package.
    InvalidDiagnosticContext { reason: &'static str },
    /// The diagnostics contain an exact duplicate.
    DuplicateDiagnostic,
    /// A probe outcome's fingerprint differs from its layout's shape.
    ProbeOutcomeFingerprintMismatch { probe: ProbeEvidenceId, declaration: DeclarationId },
    /// A probe used another compiler or other ABI flags than the source target.
    ProbeCompilerMismatch { probe: ProbeEvidenceId },
    /// A package describes another source package.
    SourceFingerprintMismatch { expected: SourceFingerprint, actual: SourceFingerprint },
    /// A package describes another target.
    TargetFingerprintMismatch { expected: TargetFingerprint, actual: TargetFingerprint },
    /// A provider was observed for another target than the source's.
    ObservedTargetMismatch { provider: ProviderId },
    /// Evidence names a declaration outside the source closure.
    DeclarationOutsideClosure { declaration: DeclarationId },
    /// Layout evidence names a missing declaration or one of another kind.
    InvalidLayoutDeclaration { declaration: DeclarationId },
    /// Layout evidence names a member the declaration does not have.
    ForeignLayoutChild { declaration: DeclarationId, child: ChildId },
    /// A measured enumerator value differs from the evaluated source value.
    EnumValueMismatch { declaration: DeclarationId, child: ChildId },
    /// A declaration of the closure has no evidence record.
    RequiredDeclarationEvidence { declaration: DeclarationId },
    /// A declaration's layout is not strictly measured.
    InferredLayoutEvidence { declaration: DeclarationId },
}

} // verus!
