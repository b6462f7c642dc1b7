//! Failures of the native inspection, resolution and classification steps.
use vstd::prelude::*;

use crate::contract::{ContractError, DeclarationId};

verus! {

/// Why a native step refused its input.
#[derive(Debug, Clone, PartialEq, Eq)]
pub enum NativeError {
    /// A file-system operation failed; `detail` is the system's message.
    Io { operation: &'static str, path: Vec<u8>, detail: String },
    /// An artifact is larger than the inspection limit.
    ArtifactTooLarge { path: Vec<u8>, limit: u64 },
    /// An artifact is empty.
    EmptyArtifact { path: Vec<u8> },
    /// An artifact is truncated or corrupt.
    CorruptArtifact { path: Vec<u8>, detail: String },
    /// An artifact is of a kind or target outside the certified tier.
    UnsupportedArtifact { path: Vec<u8>, detail: String },
    /// An artifact's kind differs from the requested one.
    ArtifactKindMismatch { path: Vec<u8>, expected: &'static str, observed: &'static str },
    /// An artifact was built for another target than the requested one.
    TargetMismatch { path: Vec<u8>, requested: String, observed: String },
    /// A symbol is malformed.
    InvalidSymbol { path: Vec<u8>, detail: String },
    /// No provider was found for a requested name.
    MissingProvider { requested: Vec<u8> },
    /// Several providers match a requested name.
    AmbiguousProvider { requested: Vec<u8>, candidates: Vec<Vec<u8>> },
    /// The provider dependency graph has a cycle through this artifact.
    DependencyCycle { path: Vec<u8> },
    /// An input is outside the certified lane.
    UnsupportedInput { detail: String },
    /// A policy, limit or classification rule was violated.
    InvalidPolicy { detail: String },
    /// A probe tool's identity could not be established.
    ToolIdentity { path: Vec<u8>, detail: String },
    /// A probe process ran out of time.
    ProbeTimeout { millis: u64 },
    /// A probe process wrote more output than allowed.
    ProbeOutputLimit { limit: u64 },
    /// A probe process exited unsuccessfully.
    ProbeNonzero { detail: String },
    /// A probe output did not follow the evidence protocol.
    ProbeParserGap { detail: String },
    /// A probe process left inherited output streams open.
    ProbeUnsafeStreams,
    /// Executing for another target needs an explicit runner.
    MissingCrossRunner { target: String },
    /// Runner evidence is invalid.
    InvalidRunner { detail: String },
    /// A declaration's provider symbol was refused.
    SymbolRejected { declaration: DeclarationId, detail: String },
    /// A declaration's ABI evidence contradicts the source or its measurements.
    AbiMismatch { declaration: DeclarationId, detail: String },
    /// A contract constructor refused native evidence.
    Contract(ContractError),
}

/// Stable diagnostic code of a native failure class.
pub open spec fn native_error_code_spec(error: NativeError) -> &'static str {
    match error {
        NativeError::Io { .. } => "LINC-E3001",
        NativeError::ArtifactTooLarge { .. } => "LINC-E3002",
        NativeError::EmptyArtifact { .. } => "LINC-E3003",
        NativeError::CorruptArtifact { .. } => "LINC-E3004",
        NativeError::UnsupportedArtifact { .. } => "LINC-E3005",
        NativeError::ArtifactKindMismatch { .. } => "LINC-E3006",
        NativeError::TargetMismatch { .. } => "LINC-E3007",
        NativeError::InvalidSymbol { .. } => "LINC-E3008",
        NativeError::MissingProvider { .. } => "LINC-E3010",
        NativeError::AmbiguousProvider { .. } => "LINC-E3011",
        NativeError::DependencyCycle { .. } => "LINC-E3012",
        NativeError::UnsupportedInput { .. } => "LINC-E3013",
        NativeError::InvalidPolicy { .. } => "LINC-E3014",
        NativeError::ToolIdentity { .. } => "LINC-E3020",
        NativeError::ProbeTimeout { .. } => "LINC-E3030",
        NativeError::ProbeOutputLimit { .. } => "LINC-E3031",
        NativeError::ProbeNonzero { .. } => "LINC-E3032",
        NativeError::ProbeParserGap { .. } => "LINC-E3033",
        NativeError::ProbeUnsafeStreams => "LINC-E3037",
        NativeError::MissingCrossRunner { .. } => "LINC-E3034",
        NativeError::InvalidRunner { .. } => "LINC-E3035",
        NativeError::SymbolRejected { .. } => "LINC-E3040",
        NativeError::AbiMismatch { .. } => "LINC-E3041",
        NativeError::Contract(_) => "LINC-E3099",
    }
}

impl NativeError {
    /// Stable diagnostic identity for this failure class.
    pub fn code(&self) -> (out: &'static str)
        ensures
            out == native_error_code_spec(*self),
    {
        match self {
            NativeError::Io { .. } => "LINC-E3001",
            NativeError::ArtifactTooLarge { .. } => "LINC-E3002",
            NativeError::EmptyArtifact { .. } => "LINC-E3003",
            NativeError::CorruptArtifact { .. } => "LINC-E3004",
            NativeError::UnsupportedArtifact { .. } => "LINC-E3005",
            NativeError::ArtifactKindMismatch { .. } => "LINC-E3006",
            NativeError::TargetMismatch { .. } => "LINC-E3007",
            NativeError::InvalidSymbol { .. } => "LINC-E3008",
            NativeError::MissingProvider { .. } => "LINC-E3010",
            NativeError::AmbiguousProvider { .. } => "LINC-E3011",
            NativeError::DependencyCycle { .. } => "LINC-E3012",
            NativeError::UnsupportedInput { .. } => "LINC-E3013",
            NativeError::InvalidPolicy { .. } => "LINC-E3014",
            NativeError::ToolIdentity { .. } => "LINC-E3020",
            NativeError::ProbeTimeout { .. } => "LINC-E3030",
            NativeError::ProbeOutputLimit { .. } => "LINC-E3031",
            NativeError::ProbeNonzero { .. } => "LINC-E3032",
            NativeError::ProbeParserGap { .. } => "LINC-E3033",
            NativeError::ProbeUnsafeStreams => "LINC-E3037",
            NativeError::MissingCrossRunner { .. } => "LINC-E3034",
            NativeError::InvalidRunner { .. } => "LINC-E3035",
            NativeError::SymbolRejected { .. } => "LINC-E3040",
            NativeError::AbiMismatch { .. } => "LINC-E3041",
            NativeError::Contract(_) => "LINC-E3099",
        }
    }
}

/// A policy failure with a fixed explanation.
pub fn invalid(detail: &str) -> (out: NativeError)
    ensures
        out matches NativeError::InvalidPolicy { detail: d } && d@ == detail@,
{
    NativeError::InvalidPolicy { detail: detail.to_owned() }
}

} // verus!
