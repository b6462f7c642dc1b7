//! Analysis policies: how providers may be found, whether probes run, and
//! which evidence is accepted.
use vstd::prelude::*;
use super::payload::{lemma_extend, Canonical};

use super::error::ContractError;
use super::evidence::{count_probe_executables, runner_literal_has_nul, scan_runner_arguments, ProbeExecutionPolicy, ProbeRunnerArgument};
use super::identity::ArtifactFingerprint;
use super::model::{
    groups_balanced, input_fails_at, input_group_steps, input_ok, inputs_error_at, is_normalized_absolute,
    normalized_absolute_path, validate_native_inputs, depth_after, NativeInput,
};
use super::validated::CompleteSourcePackage;

verus! {

#[derive(Debug, Clone, Copy, PartialEq, Eq, Hash, Structural)]
pub enum ResolutionPolicy {
    /// Only exact artifact paths are accepted.
    ExactPathsOnly,
    /// Name lookup is limited to explicitly supplied search paths.
    HermeticSearch,
    /// The captured target toolchain search configuration may also be used.
    ToolchainSearch,
}

#[derive(Debug, Clone, Copy, PartialEq, Eq, Hash, Structural)]
pub enum ProbePolicy {
    Disabled,
    CompileOnly,
    CompileAndRun,
}

#[derive(Debug, Clone, Copy, PartialEq, Eq, Hash, Structural)]
pub enum EvidenceAcceptancePolicy {
    MeasuredOnly,
    AllowInferred,
}

#[derive(Debug, Clone, Copy, PartialEq, Eq, Hash, Structural)]
pub enum WeakSymbolPolicy {
    Reject,
    AllowUnique,
}

/// The explicit command that runs executed-harness probes.
#[derive(Debug, Clone, PartialEq, Eq)]
pub struct RunnerCommand {
    program: Vec<u8>,
    executable_fingerprint: ArtifactFingerprint,
    arguments: Vec<ProbeRunnerArgument>,
}

/// The first refusal of a runner command, if any.
pub open spec fn runner_command_error(program: Seq<u8>, arguments: Seq<ProbeRunnerArgument>) -> Option<&'static str> {
    if !is_normalized_absolute(program) {
        Some("runner.program")
    } else if runner_literal_has_nul(arguments) {
        Some("runner.argument")
    } else if count_probe_executables(arguments) != 1 {
        Some("runner command requires exactly one logical probe executable")
    } else {
        None
    }
}

impl RunnerCommand {
    pub closed spec fn spec_program(&self) -> Seq<u8> {
        self.program@
    }

    pub closed spec fn spec_fingerprint(&self) -> ArtifactFingerprint {
        self.executable_fingerprint
    }

    pub closed spec fn spec_arguments(&self) -> Seq<ProbeRunnerArgument> {
        self.arguments@
    }

    /// Accepts an absolute normalized program, NUL-free literal arguments and
    /// exactly one probe-executable role.
    pub fn try_new(program: Vec<u8>, executable_fingerprint: ArtifactFingerprint, arguments: Vec<ProbeRunnerArgument>) -> (res:
        Result<Self, ContractError>)
        ensures
            runner_command_error(program@, arguments@) is None ==> (res matches Ok(c) && c.spec_program() == program@
                && c.spec_fingerprint() == executable_fingerprint && c.spec_arguments() == arguments@),
            runner_command_error(program@, arguments@) == Some("runner.program") ==> (res matches Err(
                ContractError::InvalidPath { field, path },
            ) && field == "runner.program" && path@ == program@),
            runner_command_error(program@, arguments@) == Some("runner.argument") ==> res == Err::<Self, ContractError>(
                ContractError::InvalidNativeString { field: "runner.argument" },
            ),
            runner_command_error(program@, arguments@) == Some(
                "runner command requires exactly one logical probe executable",
            ) ==> res == Err::<Self, ContractError>(
                ContractError::InvalidPolicy { reason: "runner command requires exactly one logical probe executable" },
            ),
    {
        let program = normalized_absolute_path("runner.program", program)?;
        let (has_nul, executables) = scan_runner_arguments(&arguments);
        if has_nul {
            return Err(ContractError::InvalidNativeString { field: "runner.argument" });
        }
        if executables != 1 {
            return Err(
                ContractError::InvalidPolicy { reason: "runner command requires exactly one logical probe executable" },
            );
        }
        Ok(RunnerCommand { program, executable_fingerprint, arguments })
    }

    pub fn program(&self) -> (out: &[u8])
        ensures
            out@ == self.spec_program(),
    {
        self.program.as_slice()
    }

    pub fn arguments(&self) -> (out: &[ProbeRunnerArgument])
        ensures
            out@ == self.spec_arguments(),
    {
        self.arguments.as_slice()
    }

    pub fn executable_fingerprint(&self) -> (out: ArtifactFingerprint)
        ensures
            out == self.spec_fingerprint(),
    {
        self.executable_fingerprint
    }
}

#[derive(Debug, Clone, PartialEq, Eq)]
pub enum RunnerPolicy {
    Unavailable,
    Explicit(RunnerCommand),
}

#[derive(Debug, Clone, PartialEq, Eq)]
pub struct AnalysisPolicyInput {
    pub resolution: ResolutionPolicy,
    pub probe: ProbePolicy,
    pub runner: RunnerPolicy,
    pub layout_evidence: EvidenceAcceptancePolicy,
    pub callable_abi_evidence: EvidenceAcceptancePolicy,
    pub weak_symbols: WeakSymbolPolicy,
    pub probe_execution: ProbeExecutionPolicy,
}

/// Compile-and-run probes need an explicit runner, and only they may carry one.
pub open spec fn policy_error(probe: ProbePolicy, runner: RunnerPolicy) -> Option<&'static str> {
    if probe == ProbePolicy::CompileAndRun && !(runner is Explicit) {
        Some("compile-and-run probes require an explicit runner command")
    } else if probe != ProbePolicy::CompileAndRun && !(runner is Unavailable) {
        Some("only compile-and-run probes may carry a runner command")
    } else {
        None
    }
}

/// A checked analysis policy.
#[derive(Debug, Clone, PartialEq, Eq)]
pub struct AnalysisPolicy {
    resolution: ResolutionPolicy,
    probe: ProbePolicy,
    runner: RunnerPolicy,
    layout_evidence: EvidenceAcceptancePolicy,
    callable_abi_evidence: EvidenceAcceptancePolicy,
    weak_symbols: WeakSymbolPolicy,
    probe_execution: ProbeExecutionPolicy,
}

impl AnalysisPolicy {
    pub closed spec fn spec_input(&self) -> AnalysisPolicyInput {
        AnalysisPolicyInput {
            resolution: self.resolution,
            probe: self.probe,
            runner: self.runner,
            layout_evidence: self.layout_evidence,
            callable_abi_evidence: self.callable_abi_evidence,
            weak_symbols: self.weak_symbols,
            probe_execution: self.probe_execution,
        }
    }

    /// Accepts the input when its probe policy and runner agree.
    pub fn try_new(input: AnalysisPolicyInput) -> (res: Result<Self, ContractError>)
        ensures
            policy_error(input.probe, input.runner) is None ==> (res matches Ok(p) && p.spec_input() == input),
            policy_error(input.probe, input.runner) matches Some(reason) ==> res == Err::<Self, ContractError>(
                ContractError::InvalidPolicy { reason },
            ),
    {
        let policy = AnalysisPolicy {
            resolution: input.resolution,
            probe: input.probe,
            runner: input.runner,
            layout_evidence: input.layout_evidence,
            callable_abi_evidence: input.callable_abi_evidence,
            weak_symbols: input.weak_symbols,
            probe_execution: input.probe_execution,
        };
        policy.validate()?;
        Ok(policy)
    }

    /// The strict policy: measured-only evidence and weak symbols rejected.
    pub fn strict(
        resolution: ResolutionPolicy,
        probe: ProbePolicy,
        runner: RunnerPolicy,
        probe_execution: ProbeExecutionPolicy,
    ) -> (res: Result<
        Self,
        ContractError,
    >)
        ensures
            policy_error(probe, runner) is None ==> (res matches Ok(p) && p.spec_input() == (AnalysisPolicyInput {
                resolution,
                probe,
                runner,
                layout_evidence: EvidenceAcceptancePolicy::MeasuredOnly,
                callable_abi_evidence: EvidenceAcceptancePolicy::MeasuredOnly,
                weak_symbols: WeakSymbolPolicy::Reject,
                probe_execution,
            })),
            policy_error(probe, runner) matches Some(reason) ==> res == Err::<Self, ContractError>(
                ContractError::InvalidPolicy { reason },
            ),
    {
        Self::try_new(
            AnalysisPolicyInput {
                resolution,
                probe,
                runner,
                layout_evidence: EvidenceAcceptancePolicy::MeasuredOnly,
                callable_abi_evidence: EvidenceAcceptancePolicy::MeasuredOnly,
                weak_symbols: WeakSymbolPolicy::Reject,
                probe_execution,
            },
        )
    }

    pub fn with_evidence_acceptance(
        self,
        layout_evidence: EvidenceAcceptancePolicy,
        callable_abi_evidence: EvidenceAcceptancePolicy,
    ) -> (out: Self)
        ensures
            out.spec_input() == (AnalysisPolicyInput { layout_evidence, callable_abi_evidence, ..self.spec_input() }),
    {
        AnalysisPolicy { layout_evidence, callable_abi_evidence, ..self }
    }

    pub fn with_weak_symbol_policy(self, weak_symbols: WeakSymbolPolicy) -> (out: Self)
        ensures
            out.spec_input() == (AnalysisPolicyInput { weak_symbols, ..self.spec_input() }),
    {
        AnalysisPolicy { weak_symbols, ..self }
    }

    pub fn with_probe_execution_policy(self, probe_execution: ProbeExecutionPolicy) -> (out: Self)
        ensures
            out.spec_input() == (AnalysisPolicyInput { probe_execution, ..self.spec_input() }),
    {
        AnalysisPolicy { probe_execution, ..self }
    }

    pub fn probe_execution(&self) -> (out: &ProbeExecutionPolicy)
        ensures
            *out == self.spec_input().probe_execution,
    {
        &self.probe_execution
    }

    pub fn resolution(&self) -> (out: ResolutionPolicy)
        ensures
            out == self.spec_input().resolution,
    {
        self.resolution
    }

    pub fn probe(&self) -> (out: ProbePolicy)
        ensures
            out == self.spec_input().probe,
    {
        self.probe
    }

    pub fn runner(&self) -> (out: &RunnerPolicy)
        ensures
            *out == self.spec_input().runner,
    {
        &self.runner
    }

    pub fn layout_evidence(&self) -> (out: EvidenceAcceptancePolicy)
        ensures
            out == self.spec_input().layout_evidence,
    {
        self.layout_evidence
    }

    pub fn callable_abi_evidence(&self) -> (out: EvidenceAcceptancePolicy)
        ensures
            out == self.spec_input().callable_abi_evidence,
    {
        self.callable_abi_evidence
    }

    pub fn weak_symbols(&self) -> (out: WeakSymbolPolicy)
        ensures
            out == self.spec_input().weak_symbols,
    {
        self.weak_symbols
    }

    /// Re-checks that the probe policy and runner agree.
    pub fn validate(&self) -> (res: Result<(), ContractError>)
        ensures
            policy_error(self.spec_input().probe, self.spec_input().runner) is None ==> res is Ok,
            policy_error(self.spec_input().probe, self.spec_input().runner) matches Some(reason) ==> res == Err::<
                (),
                ContractError,
            >(ContractError::InvalidPolicy { reason }),
    {
        let explicit = match &self.runner {
            RunnerPolicy::Explicit(_) => true,
            RunnerPolicy::Unavailable => false,
        };
        if self.probe == ProbePolicy::CompileAndRun && !explicit {
            return Err(ContractError::InvalidPolicy { reason: "compile-and-run probes require an explicit runner command" });
        }
        if self.probe != ProbePolicy::CompileAndRun && explicit {
            return Err(ContractError::InvalidPolicy { reason: "only compile-and-run probes may carry a runner command" });
        }
        Ok(())
    }
}

/// Inputs that search for providers by path or name.
pub open spec fn is_search_input_spec(input: NativeInput) -> bool {
    match input {
        NativeInput::SearchNative(_) | NativeInput::StaticLibraryName(_) | NativeInput::DynamicLibraryName(_)
        | NativeInput::ImportLibraryName(_) | NativeInput::FrameworkName { .. } => true,
        _ => false,
    }
}

pub fn is_search_input(input: &NativeInput) -> (out: bool)
    ensures
        out == is_search_input_spec(*input),
{
    match input {
        NativeInput::SearchNative(_) | NativeInput::StaticLibraryName(_) | NativeInput::DynamicLibraryName(_)
        | NativeInput::ImportLibraryName(_) | NativeInput::FrameworkName { .. } => true,
        _ => false,
    }
}

/// Whether any input searches for providers.
pub fn any_search_input(inputs: &[NativeInput]) -> (out: bool)
    ensures
        out <==> exists|i: int| 0 <= i < inputs@.len() && is_search_input_spec(#[trigger] inputs@[i]),
{
    let mut i: usize = 0;
    while i < inputs.len()
        invariant
            i <= inputs@.len(),
            forall|j: int| 0 <= j < i ==> !is_search_input_spec(#[trigger] inputs@[j]),
        decreases inputs@.len() - i,
    {
        if is_search_input(&inputs[i]) {
            return true;
        }
        i = i + 1;
    }
    false
}

/// Every native input is well formed and its groups balance.
pub open spec fn native_inputs_valid(inputs: Seq<NativeInput>) -> bool {
    &&& forall|i: int| 0 <= i < inputs.len() ==> input_ok(#[trigger] inputs[i])
    &&& groups_balanced(input_group_steps(inputs))
}

/// `e` is the refusal of the first malformed input, or of unbalanced groups.
pub open spec fn native_inputs_error(inputs: Seq<NativeInput>, e: ContractError) -> bool {
    ||| exists|i: int|
        0 <= i < inputs.len() && input_fails_at(inputs, i) && (forall|j: int| 0 <= j < i ==> !input_fails_at(inputs, j))
            && inputs_error_at(inputs, i, e)
    ||| (forall|j: int| 0 <= j < inputs.len() ==> !input_fails_at(inputs, j)) && e == ContractError::UnclosedGroups {
        depth: depth_after(input_group_steps(inputs)) as usize,
    }
}

/// An analysis request: the complete source package, the native inputs in
/// their order, and the policy.
#[derive(Debug, Clone)]
pub struct AnalysisRequest<'a> {
    source: &'a CompleteSourcePackage,
    native_inputs: &'a [NativeInput],
    policy: AnalysisPolicy,
}

impl<'a> AnalysisRequest<'a> {
    pub closed spec fn spec_source(&self) -> CompleteSourcePackage {
        *self.source
    }

    pub closed spec fn spec_native_inputs(&self) -> Seq<NativeInput> {
        self.native_inputs@
    }

    pub closed spec fn spec_policy(&self) -> AnalysisPolicy {
        self.policy
    }

    /// Accepts well-formed native inputs under a consistent policy; an
    /// exact-path policy refuses search paths and name requests.
    pub fn try_new(source: &'a CompleteSourcePackage, native_inputs: &'a [NativeInput], policy: AnalysisPolicy) -> (res:
        Result<Self, ContractError>)
        ensures
            !native_inputs_valid(native_inputs@) ==> (res matches Err(e) && native_inputs_error(native_inputs@, e)),
            native_inputs_valid(native_inputs@) ==> match policy_error(
                policy.spec_input().probe,
                policy.spec_input().runner,
            ) {
                Some(reason) => res == Err::<Self, ContractError>(ContractError::InvalidPolicy { reason }),
                None => if policy.spec_input().resolution == ResolutionPolicy::ExactPathsOnly && exists|i: int|
                    0 <= i < native_inputs@.len() && is_search_input_spec(#[trigger] native_inputs@[i]) {
                    res == Err::<Self, ContractError>(
                        ContractError::InvalidPolicy {
                            reason: "exact-path resolution cannot accept search paths or name requests",
                        },
                    )
                } else {
                    res matches Ok(r) && r.spec_source() == *source && r.spec_native_inputs() == native_inputs@
                        && r.spec_policy() == policy
                },
            },
    {
        validate_native_inputs(native_inputs)?;
        policy.validate()?;
        if policy.resolution() == ResolutionPolicy::ExactPathsOnly && any_search_input(native_inputs) {
            return Err(
                ContractError::InvalidPolicy { reason: "exact-path resolution cannot accept search paths or name requests" },
            );
        }
        Ok(AnalysisRequest { source, native_inputs, policy })
    }

    pub fn source(&self) -> (out: &'a CompleteSourcePackage)
        ensures
            *out == self.spec_source(),
    {
        self.source
    }

    pub fn native_inputs(&self) -> (out: &'a [NativeInput])
        ensures
            out@ == self.spec_native_inputs(),
    {
        self.native_inputs
    }

    pub fn policy(&self) -> (out: &AnalysisPolicy)
        ensures
            *out == self.spec_policy(),
    {
        &self.policy
    }
}

impl Canonical for AnalysisPolicy {
    closed spec fn canonical(&self) -> Seq<u8> {
        self.resolution.canonical() + self.probe.canonical() + self.runner.canonical() + self.layout_evidence.canonical() + self.callable_abi_evidence.canonical() + self.weak_symbols.canonical() + self.probe_execution.canonical()
    }

    fn write_canonical(&self, out: &mut Vec<u8>) {
        let ghost start = out@;
        self.resolution.write_canonical(out);
        self.probe.write_canonical(out);
        proof { lemma_extend(start, self.resolution.canonical(), self.probe.canonical()); }
        self.runner.write_canonical(out);
        proof { lemma_extend(start, self.resolution.canonical() + self.probe.canonical(), self.runner.canonical()); }
        self.layout_evidence.write_canonical(out);
        proof { lemma_extend(start, self.resolution.canonical() + self.probe.canonical() + self.runner.canonical(), self.layout_evidence.canonical()); }
        self.callable_abi_evidence.write_canonical(out);
        proof { lemma_extend(start, self.resolution.canonical() + self.probe.canonical() + self.runner.canonical() + self.layout_evidence.canonical(), self.callable_abi_evidence.canonical()); }
        self.weak_symbols.write_canonical(out);
        proof { lemma_extend(start, self.resolution.canonical() + self.probe.canonical() + self.runner.canonical() + self.layout_evidence.canonical() + self.callable_abi_evidence.canonical(), self.weak_symbols.canonical()); }
        self.probe_execution.write_canonical(out);
        proof { lemma_extend(start, self.resolution.canonical() + self.probe.canonical() + self.runner.canonical() + self.layout_evidence.canonical() + self.callable_abi_evidence.canonical() + self.weak_symbols.canonical(), self.probe_execution.canonical()); }
    }
}

impl Canonical for ResolutionPolicy {
    closed spec fn canonical(&self) -> Seq<u8> {
        match self {
            ResolutionPolicy::ExactPathsOnly => seq![0u8],
            ResolutionPolicy::HermeticSearch => seq![1u8],
            ResolutionPolicy::ToolchainSearch => seq![2u8],
        }
    }

    fn write_canonical(&self, out: &mut Vec<u8>) {
        let ghost start = out@;
        match self {
            ResolutionPolicy::ExactPathsOnly => {
                out.push(0u8);
            },
            ResolutionPolicy::HermeticSearch => {
                out.push(1u8);
            },
            ResolutionPolicy::ToolchainSearch => {
                out.push(2u8);
            },
        }
    }
}

impl Canonical for ProbePolicy {
    closed spec fn canonical(&self) -> Seq<u8> {
        match self {
            ProbePolicy::Disabled => seq![0u8],
            ProbePolicy::CompileOnly => seq![1u8],
            ProbePolicy::CompileAndRun => seq![2u8],
        }
    }

    fn write_canonical(&self, out: &mut Vec<u8>) {
        let ghost start = out@;
        match self {
            ProbePolicy::Disabled => {
                out.push(0u8);
            },
            ProbePolicy::CompileOnly => {
                out.push(1u8);
            },
            ProbePolicy::CompileAndRun => {
                out.push(2u8);
            },
        }
    }
}

impl Canonical for RunnerPolicy {
    closed spec fn canonical(&self) -> Seq<u8> {
        match self {
            RunnerPolicy::Unavailable => seq![0u8],
            RunnerPolicy::Explicit(x0) => seq![1u8] + x0.canonical(),
        }
    }

    fn write_canonical(&self, out: &mut Vec<u8>) {
        let ghost start = out@;
        match self {
            RunnerPolicy::Unavailable => {
                out.push(0u8);
            },
            RunnerPolicy::Explicit(x0) => {
                out.push(1u8);
                x0.write_canonical(out);
                proof { lemma_extend(start, seq![1u8], x0.canonical()); }
            },
        }
    }
}

impl Canonical for RunnerCommand {
    closed spec fn canonical(&self) -> Seq<u8> {
        self.program.canonical() + self.executable_fingerprint.canonical() + self.arguments.canonical()
    }

    fn write_canonical(&self, out: &mut Vec<u8>) {
        let ghost start = out@;
        self.program.write_canonical(out);
        self.executable_fingerprint.write_canonical(out);
        proof { lemma_extend(start, self.program.canonical(), self.executable_fingerprint.canonical()); }
        self.arguments.write_canonical(out);
        proof { lemma_extend(start, self.program.canonical() + self.executable_fingerprint.canonical(), self.arguments.canonical()); }
    }
}

impl Canonical for EvidenceAcceptancePolicy {
    closed spec fn canonical(&self) -> Seq<u8> {
        match self {
            EvidenceAcceptancePolicy::MeasuredOnly => seq![0u8],
            EvidenceAcceptancePolicy::AllowInferred => seq![1u8],
        }
    }

    fn write_canonical(&self, out: &mut Vec<u8>) {
        let ghost start = out@;
        match self {
            EvidenceAcceptancePolicy::MeasuredOnly => {
                out.push(0u8);
            },
            EvidenceAcceptancePolicy::AllowInferred => {
                out.push(1u8);
            },
        }
    }
}

impl Canonical for WeakSymbolPolicy {
    closed spec fn canonical(&self) -> Seq<u8> {
        match self {
            WeakSymbolPolicy::Reject => seq![0u8],
            WeakSymbolPolicy::AllowUnique => seq![1u8],
        }
    }

    fn write_canonical(&self, out: &mut Vec<u8>) {
        let ghost start = out@;
        match self {
            WeakSymbolPolicy::Reject => {
                out.push(0u8);
            },
            WeakSymbolPolicy::AllowUnique => {
                out.push(1u8);
            },
        }
    }
}

} // verus!
