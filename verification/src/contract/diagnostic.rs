//! Diagnostics carried by a link-analysis package, with the context that
//! ties each one to the package's evidence.
use vstd::prelude::*;
use super::payload::{lemma_extend, Canonical};

use super::error::ContractError;
use super::identity::{ProbeEvidenceId, ProviderId};
use super::model::{
    class_severity, diagnostic_severity_label, is_valid_text, severity_label_spec, validate_text, ArtifactSymbolId,
    DiagnosticSeverity, DiagnosticStage, LincCode,
};
use super::source::{DeclarationId, TargetFingerprint};

verus! {

/// A byte range of one source file.
#[derive(Debug, Clone, Copy, PartialEq, Eq, PartialOrd, Ord, Hash)]
pub struct SourceRange {
    pub file: u32,
    pub start: u32,
    pub end: u32,
}

/// The evidence record a diagnostic speaks about.
#[derive(Debug, Clone, Copy, PartialEq, Eq, PartialOrd, Ord, Hash)]
pub enum DiagnosticEvidenceRef {
    Symbol { provider: ProviderId, symbol: ArtifactSymbolId },
    Layout { declaration: DeclarationId },
    Declaration { declaration: DeclarationId },
}

/// Where a diagnostic arose.
#[derive(Debug, Clone, Copy, PartialEq, Eq, PartialOrd, Ord, Hash)]
pub struct LincDiagnosticContext {
    target_fingerprint: TargetFingerprint,
    source_range: Option<SourceRange>,
    native_input_index: Option<u32>,
    dependency_provider: Option<ProviderId>,
    probe: Option<ProbeEvidenceId>,
    evidence: Option<DiagnosticEvidenceRef>,
}

impl LincDiagnosticContext {
    pub closed spec fn spec_target_fingerprint(&self) -> TargetFingerprint {
        self.target_fingerprint
    }

    pub closed spec fn spec_source_range(&self) -> Option<SourceRange> {
        self.source_range
    }

    pub closed spec fn spec_native_input_index(&self) -> Option<u32> {
        self.native_input_index
    }

    pub closed spec fn spec_dependency_provider(&self) -> Option<ProviderId> {
        self.dependency_provider
    }

    pub closed spec fn spec_probe(&self) -> Option<ProbeEvidenceId> {
        self.probe
    }

    pub closed spec fn spec_evidence(&self) -> Option<DiagnosticEvidenceRef> {
        self.evidence
    }

    pub fn new(
        target_fingerprint: TargetFingerprint,
        source_range: Option<SourceRange>,
        native_input_index: Option<u32>,
        dependency_provider: Option<ProviderId>,
        probe: Option<ProbeEvidenceId>,
        evidence: Option<DiagnosticEvidenceRef>,
    ) -> (out: Self)
        ensures
            out.spec_target_fingerprint() == target_fingerprint,
            out.spec_source_range() == source_range,
            out.spec_native_input_index() == native_input_index,
            out.spec_dependency_provider() == dependency_provider,
            out.spec_probe() == probe,
            out.spec_evidence() == evidence,
    {
        LincDiagnosticContext { target_fingerprint, source_range, native_input_index, dependency_provider, probe, evidence }
    }

    pub fn target_fingerprint(&self) -> (out: TargetFingerprint)
        ensures
            out == self.spec_target_fingerprint(),
    {
        self.target_fingerprint
    }

    pub fn source_range(&self) -> (out: Option<SourceRange>)
        ensures
            out == self.spec_source_range(),
    {
        self.source_range
    }

    pub fn native_input_index(&self) -> (out: Option<u32>)
        ensures
            out == self.spec_native_input_index(),
    {
        self.native_input_index
    }

    pub fn dependency_provider(&self) -> (out: Option<ProviderId>)
        ensures
            out == self.spec_dependency_provider(),
    {
        self.dependency_provider
    }

    pub fn probe(&self) -> (out: Option<ProbeEvidenceId>)
        ensures
            out == self.spec_probe(),
    {
        self.probe
    }

    pub fn evidence(&self) -> (out: Option<&DiagnosticEvidenceRef>)
        ensures
            out matches Some(e) ==> self.spec_evidence() == Some(*e),
            out is None ==> self.spec_evidence() is None,
    {
        match &self.evidence {
            Some(e) => Some(e),
            None => None,
        }
    }
}

/// The parts of a diagnostic before its checks.
#[derive(Debug, Clone, PartialEq, Eq)]
pub struct LincDiagnosticInput {
    pub code: LincCode,
    pub severity: DiagnosticSeverity,
    pub stage: DiagnosticStage,
    pub message: String,
    pub declaration: Option<DeclarationId>,
    pub provider: Option<ProviderId>,
    pub context: LincDiagnosticContext,
}

/// A checked diagnostic: its message is valid text and its severity is the
/// one its code implies.
#[derive(Debug, Clone, PartialEq, Eq)]
pub struct LincDiagnostic {
    code: LincCode,
    severity: DiagnosticSeverity,
    stage: DiagnosticStage,
    message: String,
    declaration: Option<DeclarationId>,
    provider: Option<ProviderId>,
    context: LincDiagnosticContext,
}

impl LincDiagnostic {
    pub closed spec fn spec_code(&self) -> Seq<char> {
        self.code@
    }

    pub closed spec fn spec_severity(&self) -> DiagnosticSeverity {
        self.severity
    }

    pub closed spec fn spec_stage(&self) -> DiagnosticStage {
        self.stage
    }

    pub closed spec fn spec_message(&self) -> Seq<char> {
        self.message@
    }

    pub closed spec fn spec_declaration(&self) -> Option<DeclarationId> {
        self.declaration
    }

    pub closed spec fn spec_provider(&self) -> Option<ProviderId> {
        self.provider
    }

    pub closed spec fn spec_context(&self) -> LincDiagnosticContext {
        self.context
    }

    /// Checks the message and that the severity is the one the code implies.
    pub fn try_new(input: LincDiagnosticInput) -> (res: Result<Self, ContractError>)
        ensures
            !is_valid_text(input.message@) ==> res == Err::<Self, ContractError>(
                ContractError::InvalidText { field: "diagnostic.message" },
            ),
            is_valid_text(input.message@) && input.severity != class_severity(input.code.spec_class()) ==> (res matches Err(
                ContractError::DiagnosticSeverityMismatch { code, expected, actual },
            ) && code@ == input.code@ && expected == severity_label_spec(class_severity(input.code.spec_class()))
                && actual == severity_label_spec(input.severity)),
            is_valid_text(input.message@) && input.severity == class_severity(input.code.spec_class()) ==> (res matches Ok(
                d,
            ) && d.spec_code() == input.code@ && d.spec_severity() == input.severity && d.spec_stage() == input.stage
                && d.spec_message() == input.message@ && d.spec_declaration() == input.declaration && d.spec_provider()
                == input.provider && d.spec_context() == input.context),
    {
        validate_text("diagnostic.message", input.message.as_str())?;
        let expected = input.code.diagnostic_severity();
        if input.severity != expected {
            return Err(
                ContractError::DiagnosticSeverityMismatch {
                    code: input.code.as_str().to_owned(),
                    expected: diagnostic_severity_label(expected),
                    actual: diagnostic_severity_label(input.severity),
                },
            );
        }
        Ok(
            LincDiagnostic {
                code: input.code,
                severity: input.severity,
                stage: input.stage,
                message: input.message,
                declaration: input.declaration,
                provider: input.provider,
                context: input.context,
            },
        )
    }

    pub fn code(&self) -> (out: &LincCode)
        ensures
            out@ == self.spec_code(),
    {
        &self.code
    }

    pub fn severity(&self) -> (out: DiagnosticSeverity)
        ensures
            out == self.spec_severity(),
    {
        self.severity
    }

    pub fn stage(&self) -> (out: DiagnosticStage)
        ensures
            out == self.spec_stage(),
    {
        self.stage
    }

    pub fn message(&self) -> (out: &str)
        ensures
            out@ == self.spec_message(),
    {
        self.message.as_str()
    }

    pub fn declaration(&self) -> (out: Option<DeclarationId>)
        ensures
            out == self.spec_declaration(),
    {
        self.declaration
    }

    pub fn provider(&self) -> (out: Option<ProviderId>)
        ensures
            out == self.spec_provider(),
    {
        self.provider
    }

    pub fn context(&self) -> (out: &LincDiagnosticContext)
        ensures
            *out == self.spec_context(),
    {
        &self.context
    }
}

impl Canonical for LincDiagnostic {
    closed spec fn canonical(&self) -> Seq<u8> {
        self.code.canonical() + self.severity.canonical() + self.stage.canonical() + self.message.canonical() + self.declaration.canonical() + self.provider.canonical() + self.context.canonical()
    }

    fn write_canonical(&self, out: &mut Vec<u8>) {
        let ghost start = out@;
        self.code.write_canonical(out);
        self.severity.write_canonical(out);
        proof { lemma_extend(start, self.code.canonical(), self.severity.canonical()); }
        self.stage.write_canonical(out);
        proof { lemma_extend(start, self.code.canonical() + self.severity.canonical(), self.stage.canonical()); }
        self.message.write_canonical(out);
        proof { lemma_extend(start, self.code.canonical() + self.severity.canonical() + self.stage.canonical(), self.message.canonical()); }
        self.declaration.write_canonical(out);
        proof { lemma_extend(start, self.code.canonical() + self.severity.canonical() + self.stage.canonical() + self.message.canonical(), self.declaration.canonical()); }
        self.provider.write_canonical(out);
        proof { lemma_extend(start, self.code.canonical() + self.severity.canonical() + self.stage.canonical() + self.message.canonical() + self.declaration.canonical(), self.provider.canonical()); }
        self.context.write_canonical(out);
        proof { lemma_extend(start, self.code.canonical() + self.severity.canonical() + self.stage.canonical() + self.message.canonical() + self.declaration.canonical() + self.provider.canonical(), self.context.canonical()); }
    }
}

impl Canonical for LincDiagnosticContext {
    closed spec fn canonical(&self) -> Seq<u8> {
        self.target_fingerprint.canonical() + self.source_range.canonical() + self.native_input_index.canonical() + self.dependency_provider.canonical() + self.probe.canonical() + self.evidence.canonical()
    }

    fn write_canonical(&self, out: &mut Vec<u8>) {
        let ghost start = out@;
        self.target_fingerprint.write_canonical(out);
        self.source_range.write_canonical(out);
        proof { lemma_extend(start, self.target_fingerprint.canonical(), self.source_range.canonical()); }
        self.native_input_index.write_canonical(out);
        proof { lemma_extend(start, self.target_fingerprint.canonical() + self.source_range.canonical(), self.native_input_index.canonical()); }
        self.dependency_provider.write_canonical(out);
        proof { lemma_extend(start, self.target_fingerprint.canonical() + self.source_range.canonical() + self.native_input_index.canonical(), self.dependency_provider.canonical()); }
        self.probe.write_canonical(out);
        proof { lemma_extend(start, self.target_fingerprint.canonical() + self.source_range.canonical() + self.native_input_index.canonical() + self.dependency_provider.canonical(), self.probe.canonical()); }
        self.evidence.write_canonical(out);
        proof { lemma_extend(start, self.target_fingerprint.canonical() + self.source_range.canonical() + self.native_input_index.canonical() + self.dependency_provider.canonical() + self.probe.canonical(), self.evidence.canonical()); }
    }
}

impl Canonical for SourceRange {
    closed spec fn canonical(&self) -> Seq<u8> {
        self.file.canonical() + self.start.canonical() + self.end.canonical()
    }

    fn write_canonical(&self, out: &mut Vec<u8>) {
        let ghost start = out@;
        self.file.write_canonical(out);
        self.start.write_canonical(out);
        proof { lemma_extend(start, self.file.canonical(), self.start.canonical()); }
        self.end.write_canonical(out);
        proof { lemma_extend(start, self.file.canonical() + self.start.canonical(), self.end.canonical()); }
    }
}

impl Canonical for DiagnosticEvidenceRef {
    closed spec fn canonical(&self) -> Seq<u8> {
        match self {
            DiagnosticEvidenceRef::Symbol { provider, symbol } => seq![0u8] + provider.canonical() + symbol.canonical(),
            DiagnosticEvidenceRef::Layout { declaration } => seq![1u8] + declaration.canonical(),
            DiagnosticEvidenceRef::Declaration { declaration } => seq![2u8] + declaration.canonical(),
        }
    }

    fn write_canonical(&self, out: &mut Vec<u8>) {
        let ghost start = out@;
        match self {
            DiagnosticEvidenceRef::Symbol { provider, symbol } => {
                out.push(0u8);
                provider.write_canonical(out);
                proof { lemma_extend(start, seq![0u8], provider.canonical()); }
                symbol.write_canonical(out);
                proof { lemma_extend(start, seq![0u8] + provider.canonical(), symbol.canonical()); }
            },
            DiagnosticEvidenceRef::Layout { declaration } => {
                out.push(1u8);
                declaration.write_canonical(out);
                proof { lemma_extend(start, seq![1u8], declaration.canonical()); }
            },
            DiagnosticEvidenceRef::Declaration { declaration } => {
                out.push(2u8);
                declaration.write_canonical(out);
                proof { lemma_extend(start, seq![2u8], declaration.canonical()); }
            },
        }
    }
}

} // verus!
