use linc::contract::identity::LinkAnalysisFingerprint;
use linc::contract::analysis::{
    canonicalize_collections, validate_canonical_order, validate_internal, LinkAnalysisPackage, LinkAnalysisPackageInput,
    LinkAnalysisPackageParts,
};
use linc::contract::codec::{decode_checked, link_analysis_schema_v2, DecodeError, DecodeLimits};
use linc::contract::diagnostic::{
    DiagnosticEvidenceRef, LincDiagnostic, LincDiagnosticContext, LincDiagnosticInput, SourceRange,
};
use linc::contract::evidence::{
    AbiProbeEvidenceInput, CallableAbiAssessment, DeclarationEvidence, DeclarationEvidenceInput, EvidenceConfidence,
    EvidenceSource, FieldLayoutEvidence, LayoutAssessment, ProbeCompilerArgument, ProbeExecutionPolicy, ProbeMethod,
    ProbeProcessResult, ProbeProcessStatus, ProbeResourceLimits, ProbeRunnerEvidence, ProbeSubject, ProbeSubjectOutcome,
    ProbeSubjectStatus, ProviderAssessment, SymbolAssessment,
};
use linc::contract::inventory::{InspectionProvenance, SymbolInventory};
use linc::contract::layout::{
    EnumLayoutEvidence, EnumVariantEvidence, ExactInteger, LayoutEvidence, RecordLayoutEvidence, Signedness,
};
use linc::contract::model::{
    ArtifactKind, DependencyEdge, DependencyProvenance, DiagnosticSeverity, DiagnosticStage, InspectionParserIdentity,
    InspectionParserKind, InspectionToolIdentity, InspectionToolKind, LincCode, NativeInput, ProviderProvenance,
    ProviderResolution, ResolvedArtifact, ResolvedArtifactInput,
};
use linc::contract::probe::{derive_probe_id, AbiProbeEvidence, ProbeEncodings};
use linc::contract::request::{AnalysisPolicy, ProbePolicy, ResolutionPolicy, RunnerPolicy};
use linc::contract::validated::{
    ClosureEntry, ClosureRequirement, CompleteSourcePackage, Linkage, RecordCompleteness, SourceDeclaration,
    SourceDeclarationKind, SourceFile, ValidatedLinkAnalysis,
};
use linc::contract::{
    Architecture, ArtifactFingerprint, ChildId, ContentFingerprint, ContractError, CrtFlavor, DeclarationId, Endian,
    Environment, LinkAtom, LinkerFlavor, NativeAbi, ObjectFormat, ObservedTarget, ObservedTargetParts, OperatingSystem,
    ResolvedLinkPlan, SourceFingerprint, TargetFingerprint, TargetSpec,
};

fn target_fp() -> TargetFingerprint {
    TargetFingerprint::from_bytes([7; 32])
}

fn source_fp() -> SourceFingerprint {
    SourceFingerprint::from_bytes([1; 32])
}

fn linux_target() -> ObservedTarget {
    ObservedTarget::try_new(ObservedTargetParts {
        target_fingerprint: target_fp(),
        architecture: Architecture::X86_64,
        operating_system: OperatingSystem::Linux,
        environment: Environment::Gnu,
        object_format: ObjectFormat::Elf,
        endian: Endian::Little,
        pointer_width: 64,
        abi: NativeAbi::SysV64,
        linker: LinkerFlavor::Gnu,
        crt: CrtFlavor::Glibc,
    })
    .expect("modeled Linux target")
}

fn linux_spec() -> TargetSpec {
    TargetSpec {
        fingerprint: target_fp(),
        triple: "x86_64-unknown-linux-gnu".to_owned(),
        architecture: Architecture::X86_64,
        operating_system: OperatingSystem::Linux,
        environment: Environment::Gnu,
        object_format: ObjectFormat::Elf,
        endian: Endian::Little,
        pointer_width: 64,
    }
}

fn limits() -> ProbeResourceLimits {
    ProbeResourceLimits::try_new(10_000, 1 << 30, 1 << 20, 4).unwrap()
}

fn execution_policy() -> ProbeExecutionPolicy {
    ProbeExecutionPolicy::try_new(b"/tmp/linc-probes".to_vec(), b"{\"policy\":\"empty\"}".to_vec(), limits()).unwrap()
}

fn strict_policy(resolution: ResolutionPolicy, probe: ProbePolicy) -> AnalysisPolicy {
    AnalysisPolicy::strict(resolution, probe, RunnerPolicy::Unavailable, execution_policy()).unwrap()
}

fn artifact(path: &[u8], resolution: ProviderResolution) -> ResolvedArtifact {
    ResolvedArtifact::try_new(ResolvedArtifactInput {
        artifact_fingerprint: ArtifactFingerprint::from_content(path),
        canonical_path: path.to_vec(),
        kind: ArtifactKind::DynamicLibrary,
        resolution,
        provenance: ProviderProvenance::User,
        observed_target: linux_target(),
    })
    .expect("valid artifact")
}

fn inspection() -> InspectionProvenance {
    let fp = ContentFingerprint::from_bytes([5; 32]);
    InspectionProvenance::try_new(
        InspectionToolIdentity::try_new(InspectionToolKind::LincBuiltin, "1.0".into(), fp).unwrap(),
        vec![InspectionParserIdentity::try_new(InspectionParserKind::Elf, "1.0".into(), fp).unwrap()],
    )
    .unwrap()
}

fn inventory(art: ResolvedArtifact, needs: Vec<linc::contract::ProviderId>) -> SymbolInventory {
    let edges = needs
        .into_iter()
        .map(|p| DependencyEdge::try_new(b"libdep.so".to_vec(), Some(p), DependencyProvenance::DynamicTable).unwrap())
        .collect();
    SymbolInventory::try_new(art, inspection(), vec![], edges).expect("valid inventory")
}

fn empty_input(policy: AnalysisPolicy) -> LinkAnalysisPackageInput {
    LinkAnalysisPackageInput {
        source_fingerprint: source_fp(),
        target_fingerprint: target_fp(),
        analysis_policy: policy,
        native_inputs: vec![],
        inventories: vec![],
        abi_probes: vec![],
        layouts: vec![],
        declaration_evidence: vec![],
        resolved_link_plan: ResolvedLinkPlan::try_new(vec![]).unwrap(),
        diagnostics: vec![],
    }
}

fn diagnostic(code: &str, severity: DiagnosticSeverity, message: &str) -> Result<LincDiagnostic, ContractError> {
    LincDiagnostic::try_new(LincDiagnosticInput {
        code: LincCode::try_new(code.to_owned()).unwrap(),
        severity,
        stage: DiagnosticStage::Validation,
        message: message.to_owned(),
        declaration: None,
        provider: None,
        context: LincDiagnosticContext::new(target_fp(), None, None, None, None, None),
    })
}

fn child(byte: u8) -> ChildId {
    ChildId::from_bytes([byte; 32])
}

fn decl(byte: u8) -> DeclarationId {
    DeclarationId::from_bytes([byte; 32])
}

fn encodings() -> ProbeEncodings {
    ProbeEncodings {
        method: b"\"compiler_layout_dump\"".to_vec(),
        subjects: b"[]".to_vec(),
        limits: b"{}".to_vec(),
        compile_result: b"{}".to_vec(),
        execution_result: b"null".to_vec(),
        subject_outcomes: b"[]".to_vec(),
    }
}

fn probe_input(subjects: Vec<ProbeSubject>, fingerprint: ContentFingerprint) -> AbiProbeEvidenceInput {
    let zero = ContentFingerprint::from_bytes([0; 32]);
    let outcomes = subjects
        .iter()
        .rev()
        .map(|s| ProbeSubjectOutcome::try_new(*s, ProbeSubjectStatus::Verified { evidence_fingerprint: fingerprint }).unwrap())
        .collect();
    AbiProbeEvidenceInput {
        source_fingerprint: source_fp(),
        target_fingerprint: target_fp(),
        compiler: b"{\"family\":\"gcc\"}".to_vec(),
        compiler_executable: b"/usr/bin/cc".to_vec(),
        compiler_arguments: vec![
            ProbeCompilerArgument::Literal(b"-c".to_vec()),
            ProbeCompilerArgument::ProbeSource,
            ProbeCompilerArgument::Literal(b"-o".to_vec()),
            ProbeCompilerArgument::OutputArtifact,
        ],
        abi_flags: b"[]".to_vec(),
        probe_source_fingerprint: ContentFingerprint::from_bytes([3; 32]),
        subjects,
        method: ProbeMethod::CompilerLayoutDump,
        execution_policy: execution_policy(),
        compile_result: ProbeProcessResult::new(
            ProbeProcessStatus::Exited { code: 0 },
            zero,
            zero,
            Some(ArtifactFingerprint::from_content(b"probe object")),
        ),
        runner: ProbeRunnerEvidence::NotExecuted,
        execution_result: None,
        subject_outcomes: outcomes,
    }
}

#[test]
fn record_layouts_order_fields_and_refuse_repeated_children() {
    let fields = vec![
        FieldLayoutEvidence::try_new(child(9), 32, Some(32), Some(32)).unwrap(),
        FieldLayoutEvidence::try_new(child(2), 0, Some(32), Some(32)).unwrap(),
    ];
    let probe = linc::contract::ProbeEvidenceId::parse(&format!("lprobe1_{}", "11".repeat(32))).unwrap();
    let layout = RecordLayoutEvidence::try_new(
        decl(4),
        source_fp(),
        target_fp(),
        64,
        32,
        fields.clone(),
        probe,
        EvidenceSource::CompilerProbe,
        EvidenceConfidence::Measured,
    )
    .expect("valid record layout");
    assert_eq!(layout.fields()[0].child(), child(2));
    assert_eq!(layout.fields()[1].child(), child(9));
    let mut repeated = fields.clone();
    repeated.push(FieldLayoutEvidence::try_new(child(9), 0, None, None).unwrap());
    assert_eq!(
        RecordLayoutEvidence::try_new(
            decl(4),
            source_fp(),
            target_fp(),
            64,
            32,
            repeated,
            probe,
            EvidenceSource::CompilerProbe,
            EvidenceConfidence::Measured,
        ),
        Err(ContractError::DuplicateLayoutChild { declaration: decl(4), child: child(9) })
    );
    assert_eq!(
        RecordLayoutEvidence::try_new(
            decl(4),
            source_fp(),
            target_fp(),
            60,
            32,
            fields,
            probe,
            EvidenceSource::CompilerProbe,
            EvidenceConfidence::Measured,
        ),
        Err(ContractError::InvalidLayout { declaration: decl(4) })
    );
}

#[test]
fn enum_layouts_order_variants() {
    let probe = linc::contract::ProbeEvidenceId::parse(&format!("lprobe1_{}", "12".repeat(32))).unwrap();
    let layout = EnumLayoutEvidence::try_new(
        decl(5),
        source_fp(),
        target_fp(),
        32,
        32,
        Signedness::Unsigned,
        vec![
            EnumVariantEvidence::new(child(8), ExactInteger::Unsigned { value: 1 }),
            EnumVariantEvidence::new(child(3), ExactInteger::Signed { value: -1 }),
        ],
        probe,
        EvidenceSource::CompilerProbe,
        EvidenceConfidence::Measured,
    )
    .unwrap();
    assert_eq!(layout.variants()[0].child(), child(3));
    assert_eq!(*layout.variants()[0].value(), ExactInteger::Signed { value: -1 });
    let wrapped = LayoutEvidence::Enum(layout);
    assert_eq!(wrapped.declaration(), decl(5));
    assert_eq!(wrapped.probe(), probe);
}

#[test]
fn diagnostic_severity_follows_its_code() {
    assert!(diagnostic("LINC-E4101", DiagnosticSeverity::Error, "bad").is_ok());
    assert_eq!(
        diagnostic("LINC-W4101", DiagnosticSeverity::Error, "bad"),
        Err(ContractError::DiagnosticSeverityMismatch {
            code: "LINC-W4101".to_owned(),
            expected: "warning",
            actual: "error"
        })
    );
    assert_eq!(
        diagnostic("LINC-E4101", DiagnosticSeverity::Error, ""),
        Err(ContractError::InvalidText { field: "diagnostic.message" })
    );
}

#[test]
fn probe_evidence_is_canonical_and_content_addressed() {
    let a = ProbeSubject::RecordLayout { declaration: decl(6) };
    let b = ProbeSubject::CallableAbi { declaration: decl(2) };
    let fp = ContentFingerprint::from_bytes([4; 32]);
    let evidence = AbiProbeEvidence::try_new(probe_input(vec![b, a], fp), &encodings()).expect("valid probe");
    assert_eq!(evidence.subjects(), &[a, b]);
    assert_eq!(evidence.subject_outcomes()[0].subject(), a);
    assert!(evidence.supports(a) && evidence.verified(b));
    assert!(!evidence.supports(ProbeSubject::RecordLayout { declaration: decl(2) }));
    let again = AbiProbeEvidence::try_new(probe_input(vec![a, b], fp), &encodings()).unwrap();
    assert_eq!(evidence.id(), again.id());
    let mut other = encodings();
    other.subject_outcomes = b"[1]".to_vec();
    let changed = AbiProbeEvidence::try_new(probe_input(vec![a, b], fp), &other).unwrap();
    assert_ne!(evidence.id(), changed.id());
    assert_eq!(AbiProbeEvidence::try_new(probe_input(vec![], fp), &encodings()), Err(ContractError::EmptyProbeSubjects));
    let mut missing = probe_input(vec![a, b], fp);
    missing.subject_outcomes.pop();
    assert_eq!(
        AbiProbeEvidence::try_new(missing, &encodings()),
        Err(ContractError::ProbeSubjectCountMismatch { subjects: 2, outcomes: 1 })
    );
    let input = probe_input(vec![a], fp);
    assert_eq!(derive_probe_id(&input, &encodings()), derive_probe_id(&input, &encodings()));
}

#[test]
fn package_fingerprints_digest_the_canonical_payload() {
    let policy = || strict_policy(ResolutionPolicy::HermeticSearch, ProbePolicy::CompileOnly);
    let package = LinkAnalysisPackage::try_new(empty_input(policy())).expect("empty package");
    let payload = package.canonical_payload_bytes();
    assert_eq!(package.fingerprint(), LinkAnalysisFingerprint::derive(&payload));
    assert_ne!(package.fingerprint(), LinkAnalysisFingerprint::derive(b"unfingerprinted-link-analysis"));
    let again = LinkAnalysisPackage::try_new(empty_input(policy())).unwrap();
    assert_eq!(again.fingerprint(), package.fingerprint());
    assert_eq!(again.canonical_payload_bytes(), payload);
    assert_eq!(package.schema(), &link_analysis_schema_v2());
    let mut other = empty_input(policy());
    other.native_inputs = vec![NativeInput::SearchNative(b"/lib".to_vec())];
    let other = LinkAnalysisPackage::try_new(other).expect("search input package");
    assert_ne!(other.fingerprint(), package.fingerprint());
    assert_ne!(other.canonical_payload_bytes(), payload);
}

#[test]
fn exact_path_packages_refuse_name_requests() {
    let mut input = empty_input(strict_policy(ResolutionPolicy::ExactPathsOnly, ProbePolicy::CompileOnly));
    input.native_inputs = vec![NativeInput::DynamicLibraryName(b"z".to_vec())];
    assert_eq!(
        LinkAnalysisPackage::try_new(input),
        Err(ContractError::InvalidPolicy { reason: "exact-path resolution cannot snapshot search paths or name requests" })
    );
}

#[test]
fn duplicate_diagnostics_are_refused() {
    let mut input = empty_input(strict_policy(ResolutionPolicy::HermeticSearch, ProbePolicy::CompileOnly));
    let d = diagnostic("LINC-N4101", DiagnosticSeverity::Note, "same").unwrap();
    input.diagnostics = vec![d.clone(), d];
    assert_eq!(LinkAnalysisPackage::try_new(input), Err(ContractError::DuplicateDiagnostic));
    let a = diagnostic("LINC-N4101", DiagnosticSeverity::Note, "b").unwrap();
    let b = diagnostic("LINC-N4101", DiagnosticSeverity::Note, "a").unwrap();
    let (_, _, _, _, sorted) = canonicalize_collections(vec![], vec![], vec![], vec![], vec![a, b]).unwrap();
    assert_eq!(sorted[0].message(), "a");
}

#[test]
fn providers_must_be_unique_and_acyclic() {
    let a = artifact(b"/lib/liba.so", ProviderResolution::Explicit);
    let b = artifact(b"/lib/libb.so", ProviderResolution::Explicit);
    let (pa, pb) = (a.provider_id(), b.provider_id());
    let mut input = empty_input(strict_policy(ResolutionPolicy::HermeticSearch, ProbePolicy::CompileOnly));
    input.inventories = vec![inventory(a.clone(), vec![pb]), inventory(b.clone(), vec![pa])];
    match LinkAnalysisPackage::try_new(input) {
        Err(ContractError::DependencyCycle { provider }) => assert!(provider == pa || provider == pb),
        other => panic!("expected a dependency cycle, got {other:?}"),
    }
    let mut input = empty_input(strict_policy(ResolutionPolicy::HermeticSearch, ProbePolicy::CompileOnly));
    input.inventories = vec![inventory(a.clone(), vec![pb]), inventory(b.clone(), vec![])];
    let package = LinkAnalysisPackage::try_new(input).expect("a tree of providers");
    assert_eq!(package.inventories().len(), 2);
    let mut input = empty_input(strict_policy(ResolutionPolicy::HermeticSearch, ProbePolicy::CompileOnly));
    input.inventories = vec![inventory(a.clone(), vec![]), inventory(a, vec![])];
    assert_eq!(LinkAnalysisPackage::try_new(input), Err(ContractError::DuplicateProvider { provider: pa }));
    let mut input = empty_input(strict_policy(ResolutionPolicy::HermeticSearch, ProbePolicy::CompileOnly));
    input.inventories = vec![inventory(b, vec![pb])];
    assert_eq!(LinkAnalysisPackage::try_new(input), Err(ContractError::SelfParentProvider { provider: pb }));
}

#[test]
fn dependency_resolutions_need_the_parent_edge() {
    let parent = artifact(b"/lib/libparent.so", ProviderResolution::Explicit);
    let child = artifact(b"/lib/libchild.so", ProviderResolution::Dependency { parent: parent.provider_id() });
    let mut input = empty_input(strict_policy(ResolutionPolicy::HermeticSearch, ProbePolicy::CompileOnly));
    input.inventories = vec![inventory(parent.clone(), vec![]), inventory(child.clone(), vec![])];
    assert_eq!(
        LinkAnalysisPackage::try_new(input),
        Err(ContractError::DependencyCrossReference { parent: parent.provider_id(), child: child.provider_id() })
    );
    let mut input = empty_input(strict_policy(ResolutionPolicy::HermeticSearch, ProbePolicy::CompileOnly));
    input.inventories = vec![inventory(parent.clone(), vec![child.provider_id()]), inventory(child, vec![])];
    assert!(LinkAnalysisPackage::try_new(input).is_ok());
}

#[test]
fn plan_artifacts_must_match_their_inventories() {
    let a = artifact(b"/lib/liba.so", ProviderResolution::Explicit);
    let mut input = empty_input(strict_policy(ResolutionPolicy::HermeticSearch, ProbePolicy::CompileOnly));
    input.resolved_link_plan = ResolvedLinkPlan::try_new(vec![LinkAtom::DynamicLibrary(a.clone())]).unwrap();
    assert_eq!(LinkAnalysisPackage::try_new(input), Err(ContractError::MissingProvider { provider: a.provider_id() }));
    let mut input = empty_input(strict_policy(ResolutionPolicy::HermeticSearch, ProbePolicy::CompileOnly));
    input.inventories = vec![inventory(a.clone(), vec![])];
    input.resolved_link_plan = ResolvedLinkPlan::try_new(vec![LinkAtom::DynamicLibrary(a)]).unwrap();
    assert!(LinkAnalysisPackage::try_new(input).is_ok());
}

#[test]
fn layouts_cite_probes_of_the_package() {
    let fp = ContentFingerprint::from_bytes([4; 32]);
    let subject = ProbeSubject::RecordLayout { declaration: decl(6) };
    let probe = AbiProbeEvidence::try_new(probe_input(vec![subject], fp), &encodings()).unwrap();
    let layout = LayoutEvidence::Record(
        RecordLayoutEvidence::try_new(
            decl(6),
            source_fp(),
            target_fp(),
            32,
            32,
            vec![],
            probe.id(),
            EvidenceSource::CompilerProbe,
            EvidenceConfidence::Measured,
        )
        .unwrap(),
    );
    let mut input = empty_input(strict_policy(ResolutionPolicy::HermeticSearch, ProbePolicy::CompileOnly));
    input.layouts = vec![layout.clone()];
    assert_eq!(LinkAnalysisPackage::try_new(input), Err(ContractError::MissingProbeEvidence { probe: probe.id() }));
    let mut input = empty_input(strict_policy(ResolutionPolicy::HermeticSearch, ProbePolicy::CompileOnly));
    input.layouts = vec![layout];
    input.abi_probes = vec![probe];
    assert!(LinkAnalysisPackage::try_new(input).is_ok());
}

#[test]
fn stored_parts_must_be_canonical() {
    let a = diagnostic("LINC-N4101", DiagnosticSeverity::Note, "b").unwrap();
    let b = diagnostic("LINC-N4101", DiagnosticSeverity::Note, "a").unwrap();
    let policy = strict_policy(ResolutionPolicy::HermeticSearch, ProbePolicy::CompileOnly);
    assert_eq!(
        validate_canonical_order(&[], &[], &[], &[], &[a.clone(), b.clone()]),
        Err(ContractError::NonCanonicalOrder { collection: "diagnostics" })
    );
    let parts = LinkAnalysisPackageParts {
        schema: link_analysis_schema_v2(),
        fingerprint: LinkAnalysisPackage::try_new(empty_input(policy.clone())).unwrap().fingerprint(),
        source_fingerprint: source_fp(),
        target_fingerprint: target_fp(),
        analysis_policy: policy.clone(),
        native_inputs: vec![],
        inventories: vec![],
        abi_probes: vec![],
        layouts: vec![],
        declaration_evidence: vec![],
        resolved_link_plan: ResolvedLinkPlan::try_new(vec![]).unwrap(),
        diagnostics: vec![b, a],
    };
    assert!(LinkAnalysisPackage::from_parts(parts).is_ok());
    let plan = ResolvedLinkPlan::try_new(vec![]).unwrap();
    assert!(validate_internal(&policy, source_fp(), target_fp(), &[], &[], &[], &[], &[], &plan, &[]).is_ok());
}

/// The stored parts of a package without inventories.
fn stored_parts(package: &LinkAnalysisPackage) -> LinkAnalysisPackageParts {
    assert!(package.inventories().is_empty());
    LinkAnalysisPackageParts {
        schema: package.schema().clone(),
        fingerprint: package.fingerprint(),
        source_fingerprint: package.source_fingerprint(),
        target_fingerprint: package.target_fingerprint(),
        analysis_policy: package.analysis_policy().clone(),
        native_inputs: package.native_inputs().to_vec(),
        inventories: Vec::new(),
        abi_probes: package.abi_probes().to_vec(),
        layouts: package.layouts().to_vec(),
        declaration_evidence: package.declaration_evidence().to_vec(),
        resolved_link_plan: package.resolved_link_plan().clone(),
        diagnostics: package.diagnostics().to_vec(),
    }
}

#[test]
fn decoded_parts_are_checked_against_their_envelope_limits_and_fingerprint() {
    let mut input = empty_input(strict_policy(ResolutionPolicy::HermeticSearch, ProbePolicy::CompileOnly));
    input.native_inputs = vec![NativeInput::SearchNative(b"/lib".to_vec())];
    let package = LinkAnalysisPackage::try_new(input).unwrap();
    let schema = link_analysis_schema_v2();
    let decoded = decode_checked(&schema, package.fingerprint(), stored_parts(&package), DecodeLimits::default())
        .expect("a stored package decodes to itself");
    assert_eq!(decoded, package);

    let other = LinkAnalysisPackage::try_new(empty_input(strict_policy(ResolutionPolicy::HermeticSearch, ProbePolicy::CompileOnly)))
        .unwrap()
        .fingerprint();
    assert!(matches!(
        decode_checked(&schema, other, stored_parts(&package), DecodeLimits::default()),
        Err(DecodeError::EnvelopeFingerprint)
    ));
    let mut forged = stored_parts(&package);
    forged.fingerprint = other;
    match decode_checked(&schema, other, forged, DecodeLimits::default()) {
        Err(DecodeError::Fingerprint { stored, recomputed }) => {
            assert_eq!(stored, other);
            assert_eq!(recomputed, package.fingerprint());
        }
        result => panic!("unexpected {result:?}"),
    }
    let mut old_schema = stored_parts(&package);
    old_schema.schema.version = 1;
    assert!(matches!(
        decode_checked(&schema, package.fingerprint(), old_schema, DecodeLimits::default()),
        Err(DecodeError::PayloadSchema)
    ));
    let mut tight = DecodeLimits::default();
    tight.max_native_inputs = 0;
    assert!(matches!(
        decode_checked(&schema, package.fingerprint(), stored_parts(&package), tight),
        Err(DecodeError::ResourceLimit { resource: "native inputs", actual: 1, maximum: 0 })
    ));
}

#[test]
fn diagnostics_must_point_into_the_package() {
    let mut input = empty_input(strict_policy(ResolutionPolicy::HermeticSearch, ProbePolicy::CompileOnly));
    input.diagnostics = vec![LincDiagnostic::try_new(LincDiagnosticInput {
        code: LincCode::try_new("LINC-E4101".to_owned()).unwrap(),
        severity: DiagnosticSeverity::Error,
        stage: DiagnosticStage::Intake,
        message: "input".to_owned(),
        declaration: None,
        provider: None,
        context: LincDiagnosticContext::new(target_fp(), None, Some(0), None, None, None),
    })
    .unwrap()];
    assert_eq!(
        LinkAnalysisPackage::try_new(input),
        Err(ContractError::InvalidDiagnosticContext { reason: "native-input index is outside the package snapshot" })
    );
}

fn record_source(closure: Vec<ClosureEntry>) -> CompleteSourcePackage {
    CompleteSourcePackage {
        fingerprint: source_fp(),
        target: linux_spec(),
        compiler: b"{\"family\":\"gcc\"}".to_vec(),
        abi_flags: b"[]".to_vec(),
        files: vec![SourceFile { id: 1, byte_len: 100 }],
        declarations: vec![SourceDeclaration {
            id: decl(6),
            linkage: Linkage::Unlinked,
            kind: SourceDeclarationKind::Record { completeness: RecordCompleteness::Complete, fields: vec![child(1)] },
        }],
        closure,
    }
}

fn record_layout(fields: Vec<FieldLayoutEvidence>, probe: linc::contract::ProbeEvidenceId) -> RecordLayoutEvidence {
    RecordLayoutEvidence::try_new(
        decl(6),
        source_fp(),
        target_fp(),
        32,
        32,
        fields,
        probe,
        EvidenceSource::CompilerProbe,
        EvidenceConfidence::Measured,
    )
    .unwrap()
}

fn shape_fp(fields: &[FieldLayoutEvidence]) -> ContentFingerprint {
    let unbound = linc::contract::ProbeEvidenceId::parse(&format!("lprobe1_{}", "00".repeat(32))).unwrap();
    record_layout(fields.to_vec(), unbound).fingerprint()
}

fn record_package(fp: ContentFingerprint, fields: Vec<FieldLayoutEvidence>) -> LinkAnalysisPackage {
    let subject = ProbeSubject::RecordLayout { declaration: decl(6) };
    let probe = AbiProbeEvidence::try_new(probe_input(vec![subject], fp), &encodings()).unwrap();
    let layout = LayoutEvidence::Record(
        RecordLayoutEvidence::try_new(
            decl(6),
            source_fp(),
            target_fp(),
            32,
            32,
            fields,
            probe.id(),
            EvidenceSource::CompilerProbe,
            EvidenceConfidence::Measured,
        )
        .unwrap(),
    );
    let evidence = DeclarationEvidence::try_new(DeclarationEvidenceInput {
        declaration: decl(6),
        source_fingerprint: source_fp(),
        target_fingerprint: target_fp(),
        provider: ProviderAssessment::NotRequired,
        symbol: SymbolAssessment::NotRequired,
        layout: LayoutAssessment::Available { confidence: EvidenceConfidence::Measured, probe: probe.id() },
        callable_abi: CallableAbiAssessment::NotApplicable,
    })
    .unwrap();
    let mut input = empty_input(strict_policy(ResolutionPolicy::HermeticSearch, ProbePolicy::CompileOnly));
    input.layouts = vec![layout];
    input.abi_probes = vec![probe];
    input.declaration_evidence = vec![evidence];
    LinkAnalysisPackage::try_new(input).expect("record package")
}

#[test]
fn validated_analysis_covers_the_closure_exactly() {
    let fp = ContentFingerprint::from_bytes([4; 32]);
    let entry = ClosureEntry { declaration: decl(6), requirement: ClosureRequirement::Definition };
    let source = record_source(vec![entry]);
    let fields = vec![FieldLayoutEvidence::try_new(child(1), 0, Some(32), Some(32)).unwrap()];
    let fp = shape_fp(&fields);
    let validated = ValidatedLinkAnalysis::try_new(&source, record_package(fp, fields.clone())).expect("covered");
    assert_eq!(validated.package().layouts().len(), 1);
    let unbound = ContentFingerprint::from_bytes([9; 32]);
    assert_eq!(
        ValidatedLinkAnalysis::try_new(&source, record_package(unbound, fields.clone())),
        Err(ContractError::ProbeOutcomeFingerprintMismatch {
            probe: record_package(unbound, fields.clone()).abi_probes()[0].id(),
            declaration: decl(6)
        })
    );
    let foreign = vec![FieldLayoutEvidence::try_new(child(2), 0, Some(32), Some(32)).unwrap()];
    assert_eq!(
        ValidatedLinkAnalysis::try_new(&source, record_package(fp, foreign)),
        Err(ContractError::ForeignLayoutChild { declaration: decl(6), child: child(2) })
    );
    assert_eq!(
        ValidatedLinkAnalysis::try_new(&source, record_package(fp, vec![])),
        Err(ContractError::RequiredLayoutEvidence { declaration: decl(6) })
    );
    let mut other = record_source(vec![entry]);
    other.fingerprint = SourceFingerprint::from_bytes([2; 32]);
    assert_eq!(
        ValidatedLinkAnalysis::try_new(&other, record_package(fp, fields.clone())),
        Err(ContractError::SourceFingerprintMismatch { expected: other.fingerprint, actual: source_fp() })
    );
    let empty = record_source(vec![]);
    assert_eq!(
        ValidatedLinkAnalysis::try_new(&empty, record_package(fp, fields.clone())),
        Err(ContractError::DeclarationOutsideClosure { declaration: decl(6) })
    );
    let empty_package =
        LinkAnalysisPackage::try_new(empty_input(strict_policy(ResolutionPolicy::HermeticSearch, ProbePolicy::CompileOnly))).unwrap();
    assert_eq!(
        ValidatedLinkAnalysis::try_new(&source, empty_package),
        Err(ContractError::RequiredDeclarationEvidence { declaration: decl(6) })
    );
}

#[test]
fn layout_shape_fingerprints_leave_out_the_probe() {
    let fields = vec![FieldLayoutEvidence::try_new(child(1), 0, Some(32), Some(32)).unwrap()];
    let first = linc::contract::ProbeEvidenceId::parse(&format!("lprobe1_{}", "21".repeat(32))).unwrap();
    let second = linc::contract::ProbeEvidenceId::parse(&format!("lprobe1_{}", "22".repeat(32))).unwrap();
    let a = record_layout(fields.clone(), first);
    let b = record_layout(fields, second);
    assert_eq!(a.fingerprint(), b.fingerprint());
    assert_eq!(LayoutEvidence::Record(a.clone()).fingerprint(), a.fingerprint());
    let narrower = vec![FieldLayoutEvidence::try_new(child(1), 0, Some(32), Some(8)).unwrap()];
    assert_ne!(record_layout(narrower, first).fingerprint(), a.fingerprint());
    assert_ne!(a.fingerprint(), ContentFingerprint::from_bytes([0; 32]));
}

#[test]
fn diagnostic_ranges_must_lie_in_a_source_file() {
    let fp = ContentFingerprint::from_bytes([4; 32]);
    let entry = ClosureEntry { declaration: decl(6), requirement: ClosureRequirement::Definition };
    let source = record_source(vec![entry]);
    let package = record_package(fp, vec![FieldLayoutEvidence::try_new(child(1), 0, Some(32), Some(32)).unwrap()]);
    let mut input = LinkAnalysisPackageInput {
        source_fingerprint: source_fp(),
        target_fingerprint: target_fp(),
        analysis_policy: package.analysis_policy().clone(),
        native_inputs: vec![],
        inventories: vec![],
        abi_probes: package.abi_probes().to_vec(),
        layouts: package.layouts().to_vec(),
        declaration_evidence: package.declaration_evidence().to_vec(),
        resolved_link_plan: ResolvedLinkPlan::try_new(vec![]).unwrap(),
        diagnostics: vec![],
    };
    input.diagnostics = vec![LincDiagnostic::try_new(LincDiagnosticInput {
        code: LincCode::try_new("LINC-E4101".to_owned()).unwrap(),
        severity: DiagnosticSeverity::Error,
        stage: DiagnosticStage::Validation,
        message: "empty source range".to_owned(),
        declaration: Some(decl(6)),
        provider: None,
        context: LincDiagnosticContext::new(
            target_fp(),
            Some(SourceRange { file: 1, start: 12, end: 12 }),
            None,
            None,
            None,
            Some(DiagnosticEvidenceRef::Declaration { declaration: decl(6) }),
        ),
    })
    .unwrap()];
    let package = LinkAnalysisPackage::try_new(input).expect("source ranges need the source to check");
    assert_eq!(
        ValidatedLinkAnalysis::try_new(&source, package),
        Err(ContractError::InvalidDiagnosticContext { reason: "source range is empty or outside the PARC file" })
    );
}

/// A record package whose probe and layout are given by the caller.
fn record_package_from(
    probe_input: AbiProbeEvidenceInput,
    fields: Vec<FieldLayoutEvidence>,
    source: EvidenceSource,
    confidence: EvidenceConfidence,
) -> LinkAnalysisPackage {
    let probe = AbiProbeEvidence::try_new(probe_input, &encodings()).unwrap();
    let layout = LayoutEvidence::Record(
        RecordLayoutEvidence::try_new(decl(6), source_fp(), target_fp(), 32, 32, fields, probe.id(), source, confidence)
            .unwrap(),
    );
    let evidence = DeclarationEvidence::try_new(DeclarationEvidenceInput {
        declaration: decl(6),
        source_fingerprint: source_fp(),
        target_fingerprint: target_fp(),
        provider: ProviderAssessment::NotRequired,
        symbol: SymbolAssessment::NotRequired,
        layout: LayoutAssessment::Available { confidence, probe: probe.id() },
        callable_abi: CallableAbiAssessment::NotApplicable,
    })
    .unwrap();
    let mut input = empty_input(strict_policy(ResolutionPolicy::HermeticSearch, ProbePolicy::CompileOnly));
    input.layouts = vec![layout];
    input.abi_probes = vec![probe];
    input.declaration_evidence = vec![evidence];
    LinkAnalysisPackage::try_new(input).expect("record package")
}

#[test]
fn wrapper_rejects_foreign_child_inferred_layout_and_wrong_source() {
    let entry = ClosureEntry { declaration: decl(6), requirement: ClosureRequirement::Definition };
    let source = record_source(vec![entry]);
    let fields = vec![FieldLayoutEvidence::try_new(child(1), 0, Some(32), Some(32)).unwrap()];
    let fp = shape_fp(&fields);

    let foreign = vec![FieldLayoutEvidence::try_new(child(2), 0, Some(32), Some(32)).unwrap()];
    assert!(matches!(
        ValidatedLinkAnalysis::try_new(&source, record_package(fp, foreign)),
        Err(ContractError::ForeignLayoutChild { .. })
    ));

    let subject = ProbeSubject::RecordLayout { declaration: decl(6) };
    let inferred = record_package_from(
        probe_input(vec![subject], fp),
        fields.clone(),
        EvidenceSource::CompilerProbe,
        EvidenceConfidence::Inferred,
    );
    assert!(matches!(
        ValidatedLinkAnalysis::try_new(&source, inferred),
        Err(ContractError::InferredLayoutEvidence { .. })
    ));

    let mut wrong_source = record_source(vec![entry]);
    wrong_source.fingerprint = SourceFingerprint::from_bytes([0x70; 32]);
    assert!(matches!(
        ValidatedLinkAnalysis::try_new(&wrong_source, record_package(fp, fields)),
        Err(ContractError::SourceFingerprintMismatch { .. })
    ));
}

#[test]
fn strict_wrapper_rejects_unresolved_and_unaudited_probe_evidence() {
    let counter = CompleteSourcePackage {
        fingerprint: source_fp(),
        target: linux_spec(),
        compiler: b"{\"family\":\"gcc\"}".to_vec(),
        abi_flags: b"[]".to_vec(),
        files: vec![SourceFile { id: 1, byte_len: 100 }],
        declarations: vec![SourceDeclaration {
            id: decl(3),
            linkage: Linkage::External,
            kind: SourceDeclarationKind::Variable { link_name: "counter".to_owned(), thread_local: false },
        }],
        closure: vec![ClosureEntry { declaration: decl(3), requirement: ClosureRequirement::Declaration }],
    };
    let unresolved = DeclarationEvidence::try_new(DeclarationEvidenceInput {
        declaration: decl(3),
        source_fingerprint: source_fp(),
        target_fingerprint: target_fp(),
        provider: ProviderAssessment::Unresolved,
        symbol: SymbolAssessment::Missing { expected_name: "counter".to_owned() },
        layout: LayoutAssessment::NotRequired,
        callable_abi: CallableAbiAssessment::NotApplicable,
    })
    .unwrap();
    let mut input = empty_input(strict_policy(ResolutionPolicy::HermeticSearch, ProbePolicy::CompileOnly));
    input.declaration_evidence = vec![unresolved];
    let package = LinkAnalysisPackage::try_new(input).expect("unresolved evidence package");
    assert!(package.declaration_evidence().iter().any(|evidence| {
        matches!(evidence.provider(), ProviderAssessment::Unresolved)
            && matches!(evidence.symbol(), SymbolAssessment::Missing { .. })
    }));
    assert!(matches!(
        ValidatedLinkAnalysis::try_new(&counter, package),
        Err(ContractError::RequiredSymbolEvidence { .. })
    ));

    let entry = ClosureEntry { declaration: decl(6), requirement: ClosureRequirement::Definition };
    let source = record_source(vec![entry]);
    let fields = vec![FieldLayoutEvidence::try_new(child(1), 0, Some(32), Some(32)).unwrap()];
    let fp = shape_fp(&fields);
    let subject = ProbeSubject::RecordLayout { declaration: decl(6) };

    let mut clang = probe_input(vec![subject], fp);
    clang.compiler = b"{\"family\":\"clang\"}".to_vec();
    let wrong_compiler =
        record_package_from(clang, fields.clone(), EvidenceSource::CompilerProbe, EvidenceConfidence::Measured);
    assert!(matches!(
        ValidatedLinkAnalysis::try_new(&source, wrong_compiler),
        Err(ContractError::ProbeCompilerMismatch { .. })
    ));

    let other_subject = ProbeSubject::EnumRepresentation { declaration: decl(6) };
    let wrong_subject = record_package_from(
        probe_input(vec![other_subject], fp),
        fields.clone(),
        EvidenceSource::CompilerProbe,
        EvidenceConfidence::Measured,
    );
    assert!(matches!(
        ValidatedLinkAnalysis::try_new(&source, wrong_subject),
        Err(ContractError::ProbeSubjectMismatch { .. })
    ));

    let metadata = record_package_from(
        probe_input(vec![subject], fp),
        fields.clone(),
        EvidenceSource::ObjectMetadata,
        EvidenceConfidence::Measured,
    );
    assert!(matches!(
        ValidatedLinkAnalysis::try_new(&source, metadata),
        Err(ContractError::InferredLayoutEvidence { .. })
    ));

    let mut rejecting = probe_input(vec![subject], fp);
    rejecting.subject_outcomes = vec![ProbeSubjectOutcome::try_new(
        subject,
        ProbeSubjectStatus::Rejected { code: LincCode::try_new("LINC-E4301".to_owned()).unwrap() },
    )
    .unwrap()];
    let rejected =
        record_package_from(rejecting, fields, EvidenceSource::CompilerProbe, EvidenceConfidence::Measured);
    assert!(matches!(
        ValidatedLinkAnalysis::try_new(&source, rejected),
        Err(ContractError::ProbeSubjectMismatch { .. })
    ));
}

#[test]
fn codec_rejects_malformed_stable_diagnostic_codes() {
    assert_eq!(
        LincCode::try_new("free-form".to_owned()),
        Err(ContractError::InvalidDiagnosticCode { value: "free-form".to_owned() })
    );
    assert!("free-form".parse::<LincCode>().is_err());
    assert_eq!("LINC-E4102".parse::<LincCode>().unwrap().as_str(), "LINC-E4102");
    assert!("LINC-X4102".parse::<LincCode>().is_err());
    assert!("LINC-E41O2".parse::<LincCode>().is_err());
}

#[test]
fn codec_rejects_unbalanced_groups_and_resource_exhaustion() {
    assert_eq!(
        ResolvedLinkPlan::try_new(vec![LinkAtom::GroupStart, LinkAtom::GroupEnd, LinkAtom::GroupStart]),
        Err(ContractError::UnclosedGroups { depth: 1 })
    );

    let mut input = empty_input(strict_policy(ResolutionPolicy::HermeticSearch, ProbePolicy::CompileOnly));
    input.resolved_link_plan = ResolvedLinkPlan::try_new(vec![LinkAtom::GroupStart, LinkAtom::GroupEnd]).unwrap();
    let package = LinkAnalysisPackage::try_new(input).expect("a balanced group");
    let schema = link_analysis_schema_v2();
    let mut limits = DecodeLimits::default();
    limits.max_link_atoms = 1;
    assert!(matches!(
        decode_checked(&schema, package.fingerprint(), stored_parts(&package), limits),
        Err(DecodeError::ResourceLimit { resource: "link atoms", .. })
    ));
}

#[test]
fn probe_evidence_keeps_its_process_results() {
    let subject = ProbeSubject::RecordLayout { declaration: decl(6) };
    let input = probe_input(vec![subject], ContentFingerprint::from_bytes([4; 32]));
    let compile = input.compile_result.clone();
    let probe = AbiProbeEvidence::try_new(input, &encodings()).unwrap();
    assert_eq!(probe.compile_result(), &compile);
    assert!(probe.execution_result().is_none());
}
