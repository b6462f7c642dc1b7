use linc::contract::codec::{
    check_byte_limit, check_resource, is_link_analysis_v2, link_analysis_schema_v2, validate_envelope_header,
    validate_unit_variant_shapes, DecodeError, DecodeLimits, JsonValue,
};
use linc::contract::corpus::{preservation_link_analysis_fingerprint, PRESERVATION_LINK_ANALYSIS_FINGERPRINT};
use linc::contract::evidence::{
    validate_layout_shape, valid_alignment, AbiProbeEvidenceInput, DeclarationEvidence, DeclarationEvidenceInput,
    EvidenceConfidence, FieldLayoutEvidence, LayoutAssessment, ProbeCompilerArgument, ProbeEnvironmentEntry,
    ProbeEnvironmentIdentity, ProbeEnvironmentPolicy, ProbeEnvironmentValue, ProbeExecutionPolicy, ProbeMethod, ProbeProcessResult, ProbeProcessStatus, ProbeResourceLimits,
    ProbeRunnerArgument, ProbeRunnerEvidence, ProbeSubject, ProbeSubjectOutcome, ProbeSubjectStatus,
    ProviderAssessment, SymbolAssessment, SymbolReference, CallableAbiAssessment, validate_probe_invocation,
};
use linc::contract::model::{ArtifactSymbolId, LincCode, SymbolDecoration};
use linc::contract::package::canonical_symbol_spelling;
use linc::contract::request::{
    AnalysisPolicy, EvidenceAcceptancePolicy, ProbePolicy, ResolutionPolicy, RunnerCommand, RunnerPolicy,
    WeakSymbolPolicy,
};
use linc::contract::{
    Architecture, ArtifactFingerprint, CallingConvention, ChildId, ContentFingerprint, ContractError, CrtFlavor,
    DeclarationId, Endian, Environment, LinkerFlavor, NativeAbi, ObjectFormat, ObservedTarget, ObservedTargetParts,
    OperatingSystem, ProviderId, SchemaHeader, SourceFingerprint, TargetFingerprint,
};

fn linux_target() -> ObservedTarget {
    ObservedTarget::try_new(ObservedTargetParts {
        target_fingerprint: TargetFingerprint::from_bytes([7; 32]),
        architecture: Architecture::X86_64,
        operating_system: OperatingSystem::Linux,
        environment: Environment::Gnu,
        object_format: ObjectFormat::Elf,
        endian: Endian::Little,
        pointer_width: 64,
        abi: NativeAbi::SysV64,
        linker: LinkerFlavor::Gnu,
        crt: CrtFlavor::Glibc,
    })
    .expect("modeled Linux target")
}

fn provider(byte: u8) -> ProviderId {
    let text = format!("lprovider1_{}", format!("{byte:02x}").repeat(32));
    ProviderId::parse(&text).expect("provider id text")
}

#[test]
fn strict_symbol_decoration_is_target_and_calling_convention_bound() {
    let linux = linux_target();
    assert_eq!(
        canonical_symbol_spelling(
            "entry",
            &SymbolDecoration::Undecorated,
            &linux,
            Some(CallingConvention::C),
            Some(CallingConvention::C),
        )
        .expect("undecorated spelling"),
        "entry"
    );
    assert!(canonical_symbol_spelling(
        "entry",
        &SymbolDecoration::LeadingUnderscore,
        &linux,
        Some(CallingConvention::C),
        Some(CallingConvention::C),
    )
    .is_err());

    let mut macho_parts = linux.parts();
    macho_parts.architecture = Architecture::X86_64;
    macho_parts.operating_system = OperatingSystem::MacOs;
    macho_parts.environment = Environment::Unspecified;
    macho_parts.object_format = ObjectFormat::MachO;
    macho_parts.endian = Endian::Little;
    macho_parts.pointer_width = 64;
    macho_parts.abi = NativeAbi::SysV64;
    macho_parts.linker = LinkerFlavor::Darwin;
    macho_parts.crt = CrtFlavor::Darwin;
    let macho = ObservedTarget::try_new(macho_parts).expect("modeled Mach-O target");
    assert_eq!(
        canonical_symbol_spelling(
            "entry",
            &SymbolDecoration::LeadingUnderscore,
            &macho,
            Some(CallingConvention::C),
            Some(CallingConvention::C),
        )
        .expect("certified Mach-O C spelling"),
        "_entry"
    );
    assert!(canonical_symbol_spelling(
        "entry",
        &SymbolDecoration::LeadingUnderscore,
        &macho,
        Some(CallingConvention::C),
        Some(CallingConvention::Cdecl),
    )
    .is_err());

    let mut windows_parts = linux.parts();
    windows_parts.architecture = Architecture::X86;
    windows_parts.operating_system = OperatingSystem::Windows;
    windows_parts.environment = Environment::Msvc;
    windows_parts.object_format = ObjectFormat::Coff;
    windows_parts.endian = Endian::Little;
    windows_parts.pointer_width = 32;
    windows_parts.abi = NativeAbi::Win32;
    windows_parts.linker = LinkerFlavor::Msvc;
    windows_parts.crt = CrtFlavor::Msvc;
    let windows = ObservedTarget::try_new(windows_parts).expect("modeled Windows x86 target");
    assert!(canonical_symbol_spelling(
        "entry",
        &SymbolDecoration::Stdcall { stack_bytes: 12 },
        &windows,
        Some(CallingConvention::Stdcall),
        Some(CallingConvention::Stdcall),
    )
    .is_err());
    assert!(canonical_symbol_spelling(
        "entry",
        &SymbolDecoration::Stdcall { stack_bytes: 8 },
        &windows,
        Some(CallingConvention::C),
        Some(CallingConvention::C),
    )
    .is_err());
    assert!(canonical_symbol_spelling(
        "entry",
        &SymbolDecoration::Versioned { version: b"V1".to_vec(), is_default: true },
        &macho,
        Some(CallingConvention::C),
        Some(CallingConvention::C),
    )
    .is_err());
    assert!(canonical_symbol_spelling(
        "entry",
        &SymbolDecoration::Other { spelling: b"?entry@@".to_vec() },
        &windows,
        Some(CallingConvention::C),
        Some(CallingConvention::C),
    )
    .is_err());
}

#[test]
fn symbol_versions_are_certified_only_on_elf() {
    let linux = linux_target();
    assert_eq!(
        canonical_symbol_spelling(
            "entry",
            &SymbolDecoration::Versioned { version: b"V1".to_vec(), is_default: true },
            &linux,
            None,
            None,
        )
        .unwrap(),
        "entry"
    );
    assert_eq!(
        canonical_symbol_spelling(
            "entry",
            &SymbolDecoration::Versioned { version: b"V\0".to_vec(), is_default: false },
            &linux,
            None,
            None,
        ),
        Err("ELF symbol version is empty or contains NUL")
    );
    let mut windows_parts = linux.parts();
    windows_parts.architecture = Architecture::X86;
    windows_parts.operating_system = OperatingSystem::Windows;
    windows_parts.object_format = ObjectFormat::Coff;
    windows_parts.pointer_width = 32;
    windows_parts.abi = NativeAbi::Win32;
    let windows = ObservedTarget::try_new(windows_parts).unwrap();
    assert_eq!(
        canonical_symbol_spelling("entry", &SymbolDecoration::LeadingUnderscore, &windows, None, None).unwrap(),
        "_entry"
    );
}

#[test]
fn resource_limits_must_all_be_nonzero() {
    let limits = ProbeResourceLimits::try_new(1000, 2, 3, 4).unwrap();
    assert_eq!(limits.wall_time_millis(), 1000);
    assert_eq!(limits.max_memory_bytes(), 2);
    assert_eq!(limits.max_output_bytes(), 3);
    assert_eq!(limits.max_processes(), 4);
    assert_eq!(
        ProbeResourceLimits::try_new(1, 2, 3, 0),
        Err(ContractError::InvalidPolicy { reason: "probe resource limits must all be nonzero" })
    );
}

#[test]
fn confidence_and_alignment_rules() {
    assert!(EvidenceConfidence::Corroborated.is_strictly_measured());
    assert!(EvidenceConfidence::Measured.is_strictly_measured());
    assert!(!EvidenceConfidence::Inferred.is_strictly_measured());
    assert!(valid_alignment(8));
    assert!(valid_alignment(64));
    assert!(!valid_alignment(4));
    assert!(!valid_alignment(24));
    let declaration = DeclarationId::from_bytes([1; 32]);
    assert!(validate_layout_shape(declaration, 64, 32).is_ok());
    assert_eq!(validate_layout_shape(declaration, 12, 32), Err(ContractError::InvalidLayout { declaration }));
    assert_eq!(validate_layout_shape(declaration, 0, 32), Err(ContractError::InvalidLayout { declaration }));
    let child = ChildId::from_bytes([2; 32]);
    let field = FieldLayoutEvidence::try_new(child, 8, Some(8), Some(8)).unwrap();
    assert_eq!(field.offset_bits(), 8);
    assert_eq!(
        FieldLayoutEvidence::try_new(child, u64::MAX, Some(1), None),
        Err(ContractError::InvalidText { field: "field_layout.offset_plus_size" })
    );
    assert_eq!(
        FieldLayoutEvidence::try_new(child, 0, None, Some(12)),
        Err(ContractError::InvalidText { field: "field_layout.alignment_bits" })
    );
}

#[test]
fn process_success_is_exit_code_zero() {
    let fp = ContentFingerprint::from_bytes([0; 32]);
    assert!(ProbeProcessResult::new(ProbeProcessStatus::Exited { code: 0 }, fp, fp, None).succeeded());
    assert!(!ProbeProcessResult::new(ProbeProcessStatus::Exited { code: 1 }, fp, fp, None).succeeded());
    assert!(!ProbeProcessResult::new(ProbeProcessStatus::Signaled { signal: 0 }, fp, fp, None).succeeded());
}

#[test]
fn environment_names_exclude_equals_and_nul() {
    let entry = ProbeEnvironmentEntry::try_new("PATH".into(), ProbeEnvironmentValue::Unset).unwrap();
    assert_eq!(entry.name(), "PATH");
    assert_eq!(
        ProbeEnvironmentEntry::try_new("A=B".into(), ProbeEnvironmentValue::Unset),
        Err(ContractError::InvalidProbeEnvironment { reason: "environment variable names cannot contain '='" })
    );
    assert_eq!(
        ProbeEnvironmentEntry::try_new(String::new(), ProbeEnvironmentValue::Unset),
        Err(ContractError::InvalidText { field: "probe.environment.name" })
    );
}

#[test]
fn ambiguity_requires_two_distinct_candidates() {
    let declaration = DeclarationId::from_bytes([3; 32]);
    let input = |provider_assessment: ProviderAssessment, symbol: SymbolAssessment| DeclarationEvidenceInput {
        declaration,
        source_fingerprint: SourceFingerprint::from_bytes([4; 32]),
        target_fingerprint: TargetFingerprint::from_bytes([5; 32]),
        provider: provider_assessment,
        symbol,
        layout: LayoutAssessment::NotRequired,
        callable_abi: CallableAbiAssessment::NotApplicable,
    };
    let ok = DeclarationEvidence::try_new(input(
        ProviderAssessment::Ambiguous { providers: vec![provider(1), provider(2)] },
        SymbolAssessment::NotRequired,
    ))
    .unwrap();
    assert_eq!(ok.declaration(), declaration);
    assert_eq!(
        DeclarationEvidence::try_new(input(
            ProviderAssessment::Ambiguous { providers: vec![provider(1), provider(1)] },
            SymbolAssessment::NotRequired,
        )),
        Err(ContractError::InvalidAmbiguity { declaration })
    );
    assert_eq!(
        DeclarationEvidence::try_new(input(
            ProviderAssessment::Ambiguous { providers: vec![provider(1)] },
            SymbolAssessment::NotRequired,
        )),
        Err(ContractError::InvalidAmbiguity { declaration })
    );
    let reference = SymbolReference::new(provider(1), ArtifactSymbolId::new(0, 1));
    assert_eq!(
        DeclarationEvidence::try_new(input(
            ProviderAssessment::NotRequired,
            SymbolAssessment::Ambiguous { candidates: vec![reference, reference] },
        )),
        Err(ContractError::InvalidAmbiguity { declaration })
    );
    assert_eq!(
        DeclarationEvidence::try_new(input(
            ProviderAssessment::NotRequired,
            SymbolAssessment::Missing { expected_name: "a\0b".into() },
        )),
        Err(ContractError::InvalidText { field: "declaration_evidence.symbol.expected_name" })
    );
}

fn compile_ok() -> ProbeProcessResult {
    let fp = ContentFingerprint::from_bytes([0; 32]);
    ProbeProcessResult::new(
        ProbeProcessStatus::Exited { code: 0 },
        fp,
        fp,
        Some(ArtifactFingerprint::from_content(b"probe object")),
    )
}

fn execution_policy() -> ProbeExecutionPolicy {
    ProbeExecutionPolicy::try_new(
        b"/tmp/linc-probes".to_vec(),
        b"{\"policy\":\"empty\",\"entries\":[]}".to_vec(),
        ProbeResourceLimits::try_new(10_000, 1 << 30, 1 << 20, 4).unwrap(),
    )
    .expect("valid execution policy")
}

fn probe_input(method: ProbeMethod, runner: ProbeRunnerEvidence, execution: Option<ProbeProcessResult>) -> AbiProbeEvidenceInput {
    let declaration = DeclarationId::from_bytes([9; 32]);
    let subject = ProbeSubject::RecordLayout { declaration };
    AbiProbeEvidenceInput {
        source_fingerprint: SourceFingerprint::from_bytes([1; 32]),
        target_fingerprint: TargetFingerprint::from_bytes([2; 32]),
        compiler: b"{\"family\":\"gcc\"}".to_vec(),
        compiler_executable: b"/usr/bin/cc".to_vec(),
        compiler_arguments: vec![
            ProbeCompilerArgument::Literal(b"-c".to_vec()),
            ProbeCompilerArgument::ProbeSource,
            ProbeCompilerArgument::Literal(b"-o".to_vec()),
            ProbeCompilerArgument::OutputArtifact,
        ],
        abi_flags: b"[]".to_vec(),
        probe_source_fingerprint: ContentFingerprint::from_bytes([3; 32]),
        subjects: vec![subject],
        method,
        execution_policy: execution_policy(),
        compile_result: compile_ok(),
        runner,
        execution_result: execution,
        subject_outcomes: vec![ProbeSubjectOutcome::try_new(
            subject,
            ProbeSubjectStatus::Verified { evidence_fingerprint: ContentFingerprint::from_bytes([4; 32]) },
        )
        .unwrap()],
    }
}

#[test]
fn probe_method_runner_and_execution_result_must_cohere_in_both_directions() {
    let fp = ContentFingerprint::from_bytes([0; 32]);
    let run_ok = ProbeProcessResult::new(ProbeProcessStatus::Exited { code: 0 }, fp, fp, None);
    let runner = ProbeRunnerEvidence::Executed {
        executable_path: b"/runner/bin/qemu-x86_64".to_vec(),
        executable_fingerprint: ArtifactFingerprint::from_content(b"qemu-x86_64"),
        arguments: vec![ProbeRunnerArgument::ProbeExecutable],
    };
    assert!(validate_probe_invocation(&probe_input(ProbeMethod::ExecutedHarness, runner.clone(), Some(run_ok))).is_ok());
    assert!(validate_probe_invocation(&probe_input(ProbeMethod::CompilerLayoutDump, ProbeRunnerEvidence::NotExecuted, None)).is_ok());
    assert_eq!(
        validate_probe_invocation(&probe_input(ProbeMethod::CompilerLayoutDump, runner.clone(), Some(run_ok))),
        Err(ContractError::InvalidPolicy { reason: "probe method, runner evidence, and execution result are incoherent" })
    );
    assert_eq!(
        validate_probe_invocation(&probe_input(ProbeMethod::ExecutedHarness, ProbeRunnerEvidence::NotExecuted, None)),
        Err(ContractError::InvalidPolicy { reason: "probe method, runner evidence, and execution result are incoherent" })
    );
    let failed_run = ProbeProcessResult::new(ProbeProcessStatus::Signaled { signal: 9 }, fp, fp, None);
    assert_eq!(
        validate_probe_invocation(&probe_input(ProbeMethod::ExecutedHarness, runner, Some(failed_run))),
        Err(ContractError::InvalidProbeResult { reason: "verified executed-harness subjects require successful execution" })
    );
}

#[test]
fn compiler_invocations_need_one_source_and_one_output() {
    let mut input = probe_input(ProbeMethod::CompileTimeAssertion, ProbeRunnerEvidence::NotExecuted, None);
    input.compiler_arguments.push(ProbeCompilerArgument::ProbeSource);
    assert_eq!(
        validate_probe_invocation(&input),
        Err(ContractError::InvalidPolicy { reason: "compiler invocation requires exactly one logical probe source and output" })
    );
    let mut input = probe_input(ProbeMethod::CompileTimeAssertion, ProbeRunnerEvidence::NotExecuted, None);
    input.compiler_arguments.push(ProbeCompilerArgument::Literal(b"-D\0".to_vec()));
    assert_eq!(validate_probe_invocation(&input), Err(ContractError::InvalidNativeString { field: "probe.compiler_argument" }));
    let mut input = probe_input(ProbeMethod::CompileTimeAssertion, ProbeRunnerEvidence::NotExecuted, None);
    input.compiler_executable = b"cc".to_vec();
    assert!(matches!(validate_probe_invocation(&input), Err(ContractError::InvalidPath { field: "probe.compiler_executable", .. })));
    let mut input = probe_input(ProbeMethod::CompileTimeAssertion, ProbeRunnerEvidence::NotExecuted, None);
    let fp = ContentFingerprint::from_bytes([0; 32]);
    input.compile_result = ProbeProcessResult::new(ProbeProcessStatus::Exited { code: 1 }, fp, fp, None);
    assert_eq!(
        validate_probe_invocation(&input),
        Err(ContractError::InvalidProbeResult { reason: "verified probe subjects require a successful compile and output artifact" })
    );
}

#[test]
fn rejected_probe_subjects_need_rejection_codes() {
    let subject = ProbeSubject::CallableAbi { declaration: DeclarationId::from_bytes([1; 32]) };
    assert!(ProbeSubjectOutcome::try_new(subject, ProbeSubjectStatus::Rejected { code: LincCode::try_new("LINC-P4100".into()).unwrap() }).is_ok());
    assert!(ProbeSubjectOutcome::try_new(subject, ProbeSubjectStatus::Rejected { code: LincCode::try_new("LINC-E4100".into()).unwrap() }).is_ok());
    assert_eq!(
        ProbeSubjectOutcome::try_new(subject, ProbeSubjectStatus::Rejected { code: LincCode::try_new("LINC-W4100".into()).unwrap() }),
        Err(ContractError::InvalidProbeRejectionCode { code: "LINC-W4100".into() })
    );
    assert_eq!(subject.declaration(), DeclarationId::from_bytes([1; 32]));
}

#[test]
fn native_name_requests_and_analysis_policies_are_explicit() {
    let strict = AnalysisPolicy::strict(ResolutionPolicy::HermeticSearch, ProbePolicy::CompileOnly, RunnerPolicy::Unavailable, execution_policy())
        .expect("compile-only strict policy");
    assert_eq!(strict.layout_evidence(), EvidenceAcceptancePolicy::MeasuredOnly);
    assert_eq!(strict.weak_symbols(), WeakSymbolPolicy::Reject);
    let runner = RunnerCommand::try_new(
        b"/runner/bin/qemu-x86_64".to_vec(),
        ArtifactFingerprint::from_content(b"qemu-runner"),
        vec![ProbeRunnerArgument::ProbeExecutable],
    )
    .expect("exact runner identity");
    assert_eq!(
        AnalysisPolicy::strict(ResolutionPolicy::HermeticSearch, ProbePolicy::CompileAndRun, RunnerPolicy::Unavailable, execution_policy()),
        Err(ContractError::InvalidPolicy { reason: "compile-and-run probes require an explicit runner command" })
    );
    assert!(AnalysisPolicy::strict(ResolutionPolicy::ExactPathsOnly, ProbePolicy::CompileAndRun, RunnerPolicy::Explicit(runner.clone()), execution_policy()).is_ok());
    assert_eq!(
        AnalysisPolicy::strict(ResolutionPolicy::HermeticSearch, ProbePolicy::Disabled, RunnerPolicy::Explicit(runner), execution_policy()),
        Err(ContractError::InvalidPolicy { reason: "only compile-and-run probes may carry a runner command" })
    );
    assert_eq!(
        RunnerCommand::try_new(b"/runner".to_vec(), ArtifactFingerprint::from_content(b"r"), vec![]),
        Err(ContractError::InvalidPolicy { reason: "runner command requires exactly one logical probe executable" })
    );
    let relaxed = strict.with_evidence_acceptance(EvidenceAcceptancePolicy::AllowInferred, EvidenceAcceptancePolicy::MeasuredOnly);
    assert_eq!(relaxed.layout_evidence(), EvidenceAcceptancePolicy::AllowInferred);
    assert_eq!(relaxed.with_weak_symbol_policy(WeakSymbolPolicy::AllowUnique).weak_symbols(), WeakSymbolPolicy::AllowUnique);
}

#[test]
fn envelope_headers_are_checked_kind_first() {
    let schema = link_analysis_schema_v2();
    assert!(is_link_analysis_v2(&schema));
    assert!(validate_envelope_header("follang.linc.link-analysis", &schema).is_ok());
    assert!(matches!(validate_envelope_header("other", &schema), Err(DecodeError::Kind { found }) if found == "other"));
    let future = SchemaHeader { id: schema.id.clone(), version: 3 };
    assert!(matches!(validate_envelope_header("follang.linc.link-analysis", &future), Err(DecodeError::SchemaVersion { found: 3 })));
    let foreign = SchemaHeader { id: "x".into(), version: 2 };
    assert!(matches!(validate_envelope_header("follang.linc.link-analysis", &foreign), Err(DecodeError::SchemaId { found }) if found == "x"));
    let limits = DecodeLimits::default();
    assert_eq!(limits.max_bytes, 64 * 1024 * 1024);
    assert!(check_byte_limit(limits.max_bytes, limits).is_ok());
    assert!(matches!(check_byte_limit(limits.max_bytes + 1, limits), Err(DecodeError::ByteLimit { .. })));
    assert!(matches!(check_resource("link atoms", 3, 2), Err(DecodeError::ResourceLimit { resource: "link atoms", actual: 3, maximum: 2 })));
}

fn object(entries: Vec<(&str, JsonValue)>) -> JsonValue {
    JsonValue::Object(entries.into_iter().map(|(k, v)| (k.to_string(), v)).collect())
}

fn text(s: &str) -> JsonValue {
    JsonValue::Str(s.to_string())
}

#[test]
fn unit_variants_cannot_carry_fields() {
    let good = object(vec![("plan", JsonValue::Array(vec![object(vec![("kind", text("group_start"))])]))]);
    assert!(validate_unit_variant_shapes(&good).is_ok());
    let bad = object(vec![(
        "plan",
        JsonValue::Array(vec![object(vec![("kind", text("group_start")), ("future", JsonValue::Bool(true))])]),
    )]);
    assert!(matches!(validate_unit_variant_shapes(&bad), Err(DecodeError::UnitVariantShape { tag }) if tag == "group_start"));
    let state = object(vec![("layout", object(vec![("state", text("not_required")), ("x", JsonValue::Null)]))]);
    assert!(matches!(validate_unit_variant_shapes(&state), Err(DecodeError::UnitVariantShape { tag }) if tag == "not_required"));
    let missing = object(vec![(
        "declaration_evidence",
        JsonValue::Array(vec![object(vec![("layout", object(vec![("state", text("missing")), ("extra", JsonValue::Null)]))])]),
    )]);
    assert!(matches!(validate_unit_variant_shapes(&missing), Err(DecodeError::UnitVariantShape { tag }) if tag == "missing"));
    let fine_missing = object(vec![(
        "declaration_evidence",
        JsonValue::Array(vec![object(vec![("layout", object(vec![("state", text("missing"))]))])]),
    )]);
    assert!(validate_unit_variant_shapes(&fine_missing).is_ok());
}

#[test]
fn preservation_fingerprint_is_frozen() {
    let fingerprint = preservation_link_analysis_fingerprint();
    assert_eq!(fingerprint.to_string(), PRESERVATION_LINK_ANALYSIS_FINGERPRINT);
}

#[test]
fn symbol_ids_order_by_table_then_index() {
    assert!(ArtifactSymbolId::new(0, 9) < ArtifactSymbolId::new(1, 0));
    assert!(ArtifactSymbolId::new(1, 2) < ArtifactSymbolId::new(1, 3));
    assert!(ArtifactSymbolId::new(2, 0) > ArtifactSymbolId::new(1, u64::MAX));
    assert_eq!(ArtifactSymbolId::new(4, 4).partial_cmp(&ArtifactSymbolId::new(4, 4)), Some(std::cmp::Ordering::Equal));
    let id = ArtifactSymbolId::new(7, 11);
    assert_eq!((id.table_index(), id.symbol_index()), (7, 11));
}

#[test]
fn linc_codes_render_as_their_text() {
    let code = LincCode::try_new("LINC-E4101".to_owned()).unwrap();
    assert_eq!(code.to_string(), "LINC-E4101");
    assert_eq!(code.to_string(), code.as_str());
}

#[test]
fn probe_environments_are_sorted_unique_and_fit_their_policy() {
    let entry = |name: &str| ProbeEnvironmentEntry::try_new(name.into(), ProbeEnvironmentValue::Unset).unwrap();
    let present = ProbeEnvironmentEntry::try_new(
        "LANG".into(),
        ProbeEnvironmentValue::Present { value_fingerprint: ContentFingerprint::from_bytes([4; 32]) },
    )
    .unwrap();
    let identity =
        ProbeEnvironmentIdentity::try_new(ProbeEnvironmentPolicy::Explicit, vec![entry("PATH"), present.clone(), entry("HOME")])
            .unwrap();
    let names: Vec<&str> = identity.entries().iter().map(|e| e.name()).collect();
    assert_eq!(names, vec!["HOME", "LANG", "PATH"]);
    assert_eq!(identity.policy(), ProbeEnvironmentPolicy::Explicit);
    let reordered =
        ProbeEnvironmentIdentity::try_new(ProbeEnvironmentPolicy::Explicit, vec![entry("HOME"), entry("PATH"), present.clone()])
            .unwrap();
    assert_eq!(reordered.fingerprint(), identity.fingerprint());
    let allowlisted =
        ProbeEnvironmentIdentity::try_new(ProbeEnvironmentPolicy::InheritAllowlisted, vec![entry("HOME"), entry("PATH"), present])
            .unwrap();
    assert_ne!(allowlisted.fingerprint(), identity.fingerprint());
    assert_eq!(
        ProbeEnvironmentIdentity::try_new(ProbeEnvironmentPolicy::Explicit, vec![entry("PATH"), entry("HOME"), entry("PATH")]),
        Err(ContractError::InvalidProbeEnvironment { reason: "environment variable entries must be unique" })
    );
    assert_eq!(
        ProbeEnvironmentIdentity::try_new(ProbeEnvironmentPolicy::Empty, vec![entry("PATH"), entry("PATH")]),
        Err(ContractError::InvalidProbeEnvironment { reason: "environment variable entries must be unique" })
    );
    assert_eq!(
        ProbeEnvironmentIdentity::try_new(ProbeEnvironmentPolicy::Empty, vec![entry("PATH")]),
        Err(ContractError::InvalidProbeEnvironment { reason: "empty environment policy cannot carry entries" })
    );
    assert_eq!(
        ProbeEnvironmentIdentity::try_new(ProbeEnvironmentPolicy::InheritAllowlisted, vec![]),
        Err(ContractError::InvalidProbeEnvironment { reason: "explicit environment policies require a captured entry set" })
    );
    let empty = ProbeEnvironmentIdentity::try_new(ProbeEnvironmentPolicy::Empty, vec![]).unwrap();
    assert!(empty.entries().is_empty());
    assert_ne!(empty.fingerprint(), identity.fingerprint());
}
