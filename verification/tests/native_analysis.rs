use linc::contract::evidence::{
    CallableAbiAssessment, EvidenceConfidence, EvidenceSource, LayoutAssessment, ProviderAssessment, SymbolAssessment,
};
use linc::contract::inventory::{InspectionProvenance, SymbolInventory};
use linc::contract::layout::{LayoutEvidence, RecordLayoutEvidence};
use linc::contract::model::{
    ArtifactKind, ArtifactSymbolId, InspectionParserIdentity, InspectionParserKind, InspectionToolIdentity,
    InspectionToolKind, ProviderProvenance, ProviderResolution, ResolvedArtifact, ResolvedArtifactInput, SymbolBinding,
    SymbolDecoration, SymbolDirection, SymbolKind, SymbolRecord, SymbolRecordInput, SymbolVisibility,
};
use linc::contract::request::WeakSymbolPolicy;
use linc::contract::validated::{
    ClosureEntry, ClosureRequirement, CompleteSourcePackage, Linkage, RecordCompleteness, SourceDeclaration,
    SourceDeclarationKind, SourceFile,
};
use linc::contract::{
    Architecture, ArtifactFingerprint, CallingConvention, ContentFingerprint, CrtFlavor, DeclarationId,
    Endian, Environment, LinkAtom, LinkerFlavor, NativeAbi, ObjectFormat, ObservedTarget, ObservedTargetParts,
    OperatingSystem, ProbeEvidenceId, ResolvedLinkPlan, SourceFingerprint, TargetFingerprint, TargetSpec,
};
use linc::contract::evidence::{ProbeExecutionPolicy, ProbeResourceLimits};
use linc::contract::model::NativeInput;
use linc::contract::request::{AnalysisPolicy, AnalysisRequest, ProbePolicy, ResolutionPolicy, RunnerPolicy};
use linc::contract::ContractError;
use linc::native::analyze::{
    check_request_ids, unlinked_evidence, validate_explicit_evidence, NativeAnalysisInput, NativeAnalyzer,
    NativeDeclarationRequest,
};
use linc::native::error::NativeError;
use linc::native::resolve::{
    admit_transitive, bind_dependency, effective_search_paths, ensure_dependency_plan_order, finish_resolution,
    DependencyBinding, NativeResolution,
};
use linc::native::sysv::{ReturnConvention, ValuePassing};
use linc::native::validate::{AbiDimension, AbiShapeEvidence, StrictDeclarationRequest, StrictEvidenceValidator};

fn target_fp() -> TargetFingerprint {
    TargetFingerprint::from_bytes([7; 32])
}

fn source_fp() -> SourceFingerprint {
    SourceFingerprint::from_bytes([1; 32])
}

fn decl(byte: u8) -> DeclarationId {
    DeclarationId::from_bytes([byte; 32])
}

fn probe_id(digit: char) -> ProbeEvidenceId {
    let text = format!("lprobe1_{}", std::iter::repeat(digit).take(64).collect::<String>());
    ProbeEvidenceId::parse(&text).expect("probe id")
}

fn linux_target() -> ObservedTarget {
    ObservedTarget::try_new(ObservedTargetParts {
        target_fingerprint: target_fp(),
        architecture: Architecture::X86_64,
        operating_system: OperatingSystem::Linux,
        environment: Environment::Gnu,
        object_format: ObjectFormat::Elf,
        endian: Endian::Little,
        pointer_width: 64,
        abi: NativeAbi::SysV64,
        linker: LinkerFlavor::Gnu,
        crt: CrtFlavor::Glibc,
    })
    .expect("modeled Linux target")
}

fn linux_spec() -> TargetSpec {
    TargetSpec {
        fingerprint: target_fp(),
        triple: "x86_64-unknown-linux-gnu".to_owned(),
        architecture: Architecture::X86_64,
        operating_system: OperatingSystem::Linux,
        environment: Environment::Gnu,
        object_format: ObjectFormat::Elf,
        endian: Endian::Little,
        pointer_width: 64,
    }
}

fn artifact(path: &[u8]) -> ResolvedArtifact {
    ResolvedArtifact::try_new(ResolvedArtifactInput {
        artifact_fingerprint: ArtifactFingerprint::from_content(path),
        canonical_path: path.to_vec(),
        kind: ArtifactKind::DynamicLibrary,
        resolution: ProviderResolution::Explicit,
        provenance: ProviderProvenance::User,
        observed_target: linux_target(),
    })
    .expect("valid artifact")
}

fn inspection() -> InspectionProvenance {
    let fp = ContentFingerprint::from_bytes([5; 32]);
    InspectionProvenance::try_new(
        InspectionToolIdentity::try_new(InspectionToolKind::LincBuiltin, "1.0".into(), fp).unwrap(),
        vec![InspectionParserIdentity::try_new(InspectionParserKind::Elf, "1.0".into(), fp).unwrap()],
    )
    .unwrap()
}

fn symbol(
    index: u64,
    name: &str,
    direction: SymbolDirection,
    kind: SymbolKind,
    binding: SymbolBinding,
    visibility: SymbolVisibility,
) -> SymbolRecord {
    SymbolRecord::try_new(SymbolRecordInput {
        id: ArtifactSymbolId::new(0, index),
        name: name.to_owned(),
        raw_name: name.as_bytes().to_vec(),
        version: None,
        direction,
        kind,
        binding,
        visibility,
        decoration: SymbolDecoration::Undecorated,
        size: 0,
        address: None,
        section: None,
        archive_member: None,
    })
    .expect("valid symbol")
}

fn exported(index: u64, name: &str) -> SymbolRecord {
    symbol(index, name, SymbolDirection::Exported, SymbolKind::Function, SymbolBinding::Global, SymbolVisibility::Default)
}

fn inventory(art: ResolvedArtifact, symbols: Vec<SymbolRecord>) -> SymbolInventory {
    SymbolInventory::try_new(art, inspection(), symbols, vec![]).expect("valid inventory")
}

fn resolution(inventories: Vec<SymbolInventory>, policy: WeakSymbolPolicy) -> NativeResolution {
    let atoms = inventories.iter().map(|inv| LinkAtom::DynamicLibrary(inv.artifact().clone())).collect();
    NativeResolution::new(source_fp(), target_fp(), policy, ResolvedLinkPlan::try_new(atoms).unwrap(), inventories)
}

fn source(declarations: Vec<SourceDeclaration>, closure: Vec<ClosureEntry>) -> CompleteSourcePackage {
    CompleteSourcePackage {
        fingerprint: source_fp(),
        target: linux_spec(),
        compiler: b"{\"family\":\"gcc\"}".to_vec(),
        abi_flags: b"[]".to_vec(),
        files: vec![SourceFile { id: 1, byte_len: 100 }],
        declarations,
        closure,
    }
}

fn function(id: u8, name: &str) -> SourceDeclaration {
    SourceDeclaration {
        id: decl(id),
        linkage: Linkage::External,
        kind: SourceDeclarationKind::Function { link_name: name.to_owned(), calling_convention: CallingConvention::C },
    }
}

fn variable(id: u8, name: &str) -> SourceDeclaration {
    SourceDeclaration {
        id: decl(id),
        linkage: Linkage::External,
        kind: SourceDeclarationKind::Variable { link_name: name.to_owned(), thread_local: false },
    }
}

fn dimension() -> AbiDimension {
    AbiDimension::try_new(ContentFingerprint::from_bytes([4; 32]), 32, 32, ValuePassing::Direct).unwrap()
}

fn shape(declaration: DeclarationId, probe: ProbeEvidenceId) -> AbiShapeEvidence {
    AbiShapeEvidence::try_new(
        declaration,
        source_fp(),
        target_fp(),
        CallingConvention::C,
        false,
        vec![dimension()],
        dimension(),
        ReturnConvention::Direct,
        probe,
    )
    .unwrap()
}

fn confirmed(probe: ProbeEvidenceId) -> CallableAbiAssessment {
    CallableAbiAssessment::Confirmed {
        calling_convention: CallingConvention::C,
        confidence: EvidenceConfidence::Measured,
        probe,
    }
}

fn function_request<'a>(declaration: DeclarationId, shape: Option<&'a AbiShapeEvidence>) -> StrictDeclarationRequest<'a> {
    StrictDeclarationRequest {
        declaration,
        decoration: SymbolDecoration::Undecorated,
        layout: LayoutAssessment::NotRequired,
        callable_abi: confirmed(probe_id('a')),
        abi_shape: shape,
    }
}

fn symbol_detail(result: Result<linc::contract::evidence::DeclarationEvidence, NativeError>) -> String {
    match result {
        Err(NativeError::SymbolRejected { detail, .. }) => detail,
        other => panic!("expected a symbol rejection, got {other:?}"),
    }
}

fn abi_detail(result: Result<linc::contract::evidence::DeclarationEvidence, NativeError>) -> String {
    match result {
        Err(NativeError::AbiMismatch { detail, .. }) => detail,
        other => panic!("expected an ABI mismatch, got {other:?}"),
    }
}

#[test]
fn strict_validation_accepts_the_unique_exported_function() {
    let art = artifact(b"/usr/lib/libfoo.so");
    let provider = art.provider_id();
    let res = resolution(vec![inventory(art, vec![exported(1, "foo"), exported(2, "other")])], WeakSymbolPolicy::Reject);
    let src = source(vec![function(9, "foo")], vec![]);
    let measured = shape(decl(9), probe_id('a'));
    let evidence = StrictEvidenceValidator
        .validate_declaration(&src, &res, function_request(decl(9), Some(&measured)), Ok(()))
        .expect("accepted");
    assert_eq!(evidence.declaration(), decl(9));
    assert!(matches!(evidence.provider(), ProviderAssessment::Resolved { provider: p, .. } if *p == provider));
    match evidence.symbol() {
        SymbolAssessment::Exact { expected_name, actual_name, kind, symbol, .. } => {
            assert_eq!(expected_name, "foo");
            assert_eq!(actual_name, "foo");
            assert_eq!(*kind, SymbolKind::Function);
            assert_eq!(symbol.symbol(), ArtifactSymbolId::new(0, 1));
        }
        other => panic!("expected an exact symbol, got {other:?}"),
    }
}

#[test]
fn strict_validation_reports_a_missing_symbol_with_its_quoted_name() {
    let res = resolution(vec![inventory(artifact(b"/usr/lib/libfoo.so"), vec![exported(1, "foo")])], WeakSymbolPolicy::Reject);
    let src = source(vec![function(9, "bar")], vec![]);
    let measured = shape(decl(9), probe_id('a'));
    let result = StrictEvidenceValidator.validate_declaration(&src, &res, function_request(decl(9), Some(&measured)), Ok(()));
    assert_eq!(symbol_detail(result), "missing exact provider symbol \"bar\"");
}

#[test]
fn strict_validation_ignores_inventories_outside_the_plan() {
    let inside = inventory(artifact(b"/usr/lib/libfoo.so"), vec![]);
    let outside = inventory(artifact(b"/usr/lib/libbar.so"), vec![exported(1, "foo")]);
    let atoms = vec![LinkAtom::DynamicLibrary(inside.artifact().clone())];
    let res = NativeResolution::new(
        source_fp(),
        target_fp(),
        WeakSymbolPolicy::Reject,
        ResolvedLinkPlan::try_new(atoms).unwrap(),
        vec![inside, outside],
    );
    let src = source(vec![function(9, "foo")], vec![]);
    let measured = shape(decl(9), probe_id('a'));
    let result = StrictEvidenceValidator.validate_declaration(&src, &res, function_request(decl(9), Some(&measured)), Ok(()));
    assert_eq!(symbol_detail(result), "missing exact provider symbol \"foo\"");
}

#[test]
fn strict_validation_refuses_weak_candidates_under_the_reject_policy() {
    let weak = symbol(1, "foo", SymbolDirection::Exported, SymbolKind::Function, SymbolBinding::Weak, SymbolVisibility::Default);
    let inv = inventory(artifact(b"/usr/lib/libfoo.so"), vec![weak.clone()]);
    let src = source(vec![function(9, "foo")], vec![]);
    let measured = shape(decl(9), probe_id('a'));
    let res = resolution(vec![inv], WeakSymbolPolicy::Reject);
    let result = StrictEvidenceValidator.validate_declaration(&src, &res, function_request(decl(9), Some(&measured)), Ok(()));
    assert_eq!(symbol_detail(result), "weak provider participates in the exact-name candidate set");

    let res = resolution(vec![inventory(artifact(b"/usr/lib/libfoo.so"), vec![weak])], WeakSymbolPolicy::AllowUnique);
    let evidence = StrictEvidenceValidator
        .validate_declaration(&src, &res, function_request(decl(9), Some(&measured)), Ok(()))
        .expect("a unique weak provider is allowed");
    assert_eq!(evidence.declaration(), decl(9));
}

#[test]
fn strict_validation_joins_the_rejection_reasons() {
    let import = symbol(1, "foo", SymbolDirection::Imported, SymbolKind::Function, SymbolBinding::Global, SymbolVisibility::Default);
    let hidden = symbol(2, "foo", SymbolDirection::Exported, SymbolKind::Function, SymbolBinding::Global, SymbolVisibility::Hidden);
    let data = symbol(3, "foo", SymbolDirection::Exported, SymbolKind::Data, SymbolBinding::Global, SymbolVisibility::Default);
    let res = resolution(vec![inventory(artifact(b"/usr/lib/libfoo.so"), vec![import, hidden, data])], WeakSymbolPolicy::Reject);
    let src = source(vec![function(9, "foo")], vec![]);
    let measured = shape(decl(9), probe_id('a'));
    let result = StrictEvidenceValidator.validate_declaration(&src, &res, function_request(decl(9), Some(&measured)), Ok(()));
    assert_eq!(
        symbol_detail(result),
        "symbol is an import; hidden/internal providers cannot satisfy public externs; provider has the wrong symbol kind"
    );
}

#[test]
fn strict_validation_counts_ambiguous_providers() {
    let res = resolution(
        vec![
            inventory(artifact(b"/usr/lib/libfoo.so"), vec![exported(1, "foo")]),
            inventory(artifact(b"/usr/lib/libbar.so"), vec![exported(1, "foo")]),
        ],
        WeakSymbolPolicy::Reject,
    );
    let src = source(vec![function(9, "foo")], vec![]);
    let measured = shape(decl(9), probe_id('a'));
    let result = StrictEvidenceValidator.validate_declaration(&src, &res, function_request(decl(9), Some(&measured)), Ok(()));
    assert_eq!(symbol_detail(result), "2 visible providers are ambiguous");
}

#[test]
fn strict_validation_checks_the_function_evidence_in_order() {
    let res = resolution(vec![inventory(artifact(b"/usr/lib/libfoo.so"), vec![exported(1, "foo")])], WeakSymbolPolicy::Reject);
    let src = source(vec![function(9, "foo")], vec![]);
    let measured = shape(decl(9), probe_id('a'));

    let mut with_layout = function_request(decl(9), Some(&measured));
    with_layout.layout = LayoutAssessment::Missing;
    let result = StrictEvidenceValidator.validate_declaration(&src, &res, with_layout, Ok(()));
    assert_eq!(abi_detail(result), "functions cannot carry declaration layout evidence");

    let mut inferred = function_request(decl(9), Some(&measured));
    inferred.callable_abi = CallableAbiAssessment::Confirmed {
        calling_convention: CallingConvention::C,
        confidence: EvidenceConfidence::Inferred,
        probe: probe_id('a'),
    };
    let result = StrictEvidenceValidator.validate_declaration(&src, &res, inferred, Ok(()));
    assert_eq!(abi_detail(result), "calling convention or callable confidence differs from the source declaration");

    let result = StrictEvidenceValidator.validate_declaration(&src, &res, function_request(decl(9), None), Ok(()));
    assert_eq!(abi_detail(result), "callable ABI shape evidence is required");

    let foreign = shape(decl(8), probe_id('a'));
    let result = StrictEvidenceValidator.validate_declaration(&src, &res, function_request(decl(9), Some(&foreign)), Ok(()));
    assert_eq!(abi_detail(result), "callable ABI shape is bound to another declaration");

    let refusal = NativeError::InvalidPolicy { detail: "shape refused".to_owned() };
    let result =
        StrictEvidenceValidator.validate_declaration(&src, &res, function_request(decl(9), Some(&measured)), Err(refusal.clone()));
    assert_eq!(result.unwrap_err(), refusal);

    let other_probe = shape(decl(9), probe_id('b'));
    let result = StrictEvidenceValidator.validate_declaration(&src, &res, function_request(decl(9), Some(&other_probe)), Ok(()));
    assert_eq!(abi_detail(result), "callable assessment does not match measured shape evidence");
}

#[test]
fn strict_validation_of_variables_wants_symbol_evidence_only() {
    let data = symbol(1, "counter", SymbolDirection::Exported, SymbolKind::Data, SymbolBinding::Global, SymbolVisibility::Default);
    let res = resolution(vec![inventory(artifact(b"/usr/lib/libfoo.so"), vec![data])], WeakSymbolPolicy::Reject);
    let src = source(vec![variable(5, "counter")], vec![]);
    let plain = StrictDeclarationRequest {
        declaration: decl(5),
        decoration: SymbolDecoration::Undecorated,
        layout: LayoutAssessment::NotRequired,
        callable_abi: CallableAbiAssessment::NotApplicable,
        abi_shape: None,
    };
    let evidence = StrictEvidenceValidator.validate_declaration(&src, &res, plain, Ok(())).expect("variable accepted");
    assert!(matches!(evidence.symbol(), SymbolAssessment::Exact { kind: SymbolKind::Data, .. }));

    let with_callable = StrictDeclarationRequest {
        declaration: decl(5),
        decoration: SymbolDecoration::Undecorated,
        layout: LayoutAssessment::NotRequired,
        callable_abi: CallableAbiAssessment::Missing,
        abi_shape: None,
    };
    let result = StrictEvidenceValidator.validate_declaration(&src, &res, with_callable, Ok(()));
    assert_eq!(abi_detail(result), "variables require symbol evidence only");
}

#[test]
fn strict_validation_refuses_foreign_resolutions_and_unknown_declarations() {
    let inv = inventory(artifact(b"/usr/lib/libfoo.so"), vec![exported(1, "foo")]);
    let atoms = vec![LinkAtom::DynamicLibrary(inv.artifact().clone())];
    let foreign = NativeResolution::new(
        SourceFingerprint::from_bytes([2; 32]),
        target_fp(),
        WeakSymbolPolicy::Reject,
        ResolvedLinkPlan::try_new(atoms).unwrap(),
        vec![inv],
    );
    let src = source(vec![function(9, "foo")], vec![]);
    let measured = shape(decl(9), probe_id('a'));
    let result = StrictEvidenceValidator.validate_declaration(&src, &foreign, function_request(decl(9), Some(&measured)), Ok(()));
    assert_eq!(abi_detail(result), "resolved providers are bound to a different source or target fingerprint");

    let res = resolution(vec![], WeakSymbolPolicy::Reject);
    let result = StrictEvidenceValidator.validate_declaration(&src, &res, function_request(decl(3), Some(&measured)), Ok(()));
    assert_eq!(abi_detail(result), "declaration ID is absent from the complete source package");
}

#[test]
fn duplicate_declaration_requests_are_refused() {
    let request = NativeDeclarationRequest::new(decl(1), SymbolDecoration::Undecorated, CallableAbiAssessment::NotApplicable, None);
    let other = NativeDeclarationRequest::new(decl(2), SymbolDecoration::Undecorated, CallableAbiAssessment::NotApplicable, None);
    assert!(check_request_ids(&[request.clone(), other.clone()]).is_ok());
    assert!(matches!(check_request_ids(&[request.clone(), other, request]), Err(NativeError::InvalidPolicy { .. })));
}

fn record_declaration(id: u8) -> SourceDeclaration {
    SourceDeclaration {
        id: decl(id),
        linkage: Linkage::Unlinked,
        kind: SourceDeclarationKind::Record { completeness: RecordCompleteness::Complete, fields: vec![] },
    }
}

fn record_layout(id: u8, source_fingerprint: SourceFingerprint) -> LayoutEvidence {
    LayoutEvidence::Record(
        RecordLayoutEvidence::try_new(
            decl(id),
            source_fingerprint,
            target_fp(),
            32,
            32,
            vec![],
            probe_id('c'),
            EvidenceSource::CompilerProbe,
            EvidenceConfidence::Measured,
        )
        .unwrap(),
    )
}

#[test]
fn explicit_evidence_must_belong_to_the_source() {
    let src = source(
        vec![record_declaration(6)],
        vec![ClosureEntry { declaration: decl(6), requirement: ClosureRequirement::Definition }],
    );
    let mut input = NativeAnalysisInput::default();
    input.layouts.push(record_layout(6, source_fp()));
    assert!(validate_explicit_evidence(&src, &input).is_ok());
    input.layouts.push(record_layout(6, SourceFingerprint::from_bytes([9; 32])));
    match validate_explicit_evidence(&src, &input) {
        Err(NativeError::AbiMismatch { declaration, detail }) => {
            assert_eq!(declaration, decl(6));
            assert_eq!(detail, "layout has stale source or target fingerprints");
        }
        other => panic!("expected a stale layout, got {other:?}"),
    }
}

#[test]
fn unlinked_definitions_need_exactly_one_layout() {
    let src = source(
        vec![record_declaration(6)],
        vec![ClosureEntry { declaration: decl(6), requirement: ClosureRequirement::Definition }],
    );
    match unlinked_evidence(&src, decl(6), ClosureRequirement::Definition, &[]) {
        Err(NativeError::AbiMismatch { detail, .. }) => {
            assert_eq!(detail, "definition-required source type has no measured layout")
        }
        other => panic!("expected a missing layout, got {other:?}"),
    }
    let layout = record_layout(6, source_fp());
    let evidence = unlinked_evidence(&src, decl(6), ClosureRequirement::Definition, &[layout.clone()]).unwrap();
    assert_eq!(
        *evidence.layout(),
        LayoutAssessment::Available { confidence: EvidenceConfidence::Measured, probe: probe_id('c') }
    );
    assert_eq!(*evidence.provider(), ProviderAssessment::NotRequired);
    match unlinked_evidence(&src, decl(6), ClosureRequirement::Definition, &[layout.clone(), layout]) {
        Err(NativeError::AbiMismatch { detail, .. }) => assert_eq!(detail, "source type has duplicate measured layouts"),
        other => panic!("expected duplicate layouts, got {other:?}"),
    }
    let declared_only = unlinked_evidence(&src, decl(6), ClosureRequirement::Declaration, &[]).unwrap();
    assert_eq!(*declared_only.layout(), LayoutAssessment::NotRequired);
    assert!(matches!(
        unlinked_evidence(&src, decl(7), ClosureRequirement::Declaration, &[]),
        Err(NativeError::InvalidPolicy { .. })
    ));
}

#[test]
fn abi_dimensions_need_a_power_of_two_alignment_and_a_size() {
    let fp = ContentFingerprint::from_bytes([4; 32]);
    assert!(AbiDimension::try_new(fp, 32, 12, ValuePassing::Direct).is_err());
    assert!(AbiDimension::try_new(fp, 0, 8, ValuePassing::Direct).is_err());
    let ignored = AbiDimension::try_new(fp, 0, 8, ValuePassing::Ignore).unwrap();
    assert_eq!(ignored.size_bits(), 0);
    assert_eq!(ignored.passing(), ValuePassing::Ignore);
}

#[test]
fn closure_evidence_follows_the_closure_order() {
    let art = artifact(b"/usr/lib/libfoo.so");
    let res = resolution(vec![inventory(art, vec![exported(1, "foo")])], WeakSymbolPolicy::Reject);
    let src = source(
        vec![function(9, "foo"), record_declaration(6)],
        vec![
            ClosureEntry { declaration: decl(6), requirement: ClosureRequirement::Declaration },
            ClosureEntry { declaration: decl(9), requirement: ClosureRequirement::Declaration },
        ],
    );
    let measured = shape(decl(9), probe_id('a'));
    let request = NativeDeclarationRequest::new(
        decl(9),
        SymbolDecoration::Undecorated,
        confirmed(probe_id('a')),
        Some(measured),
    );
    let analyzer = NativeAnalyzer::with_defaults();
    let evidence = analyzer.closure_evidence(&src, &res, &[], vec![request.clone()], vec![Ok(())]).expect("evidence");
    assert_eq!(evidence.len(), 2);
    assert_eq!(evidence[0].declaration(), decl(6));
    assert_eq!(*evidence[0].provider(), ProviderAssessment::NotRequired);
    assert_eq!(evidence[1].declaration(), decl(9));
    assert!(matches!(evidence[1].symbol(), SymbolAssessment::Exact { .. }));

    match analyzer.closure_evidence(&src, &res, &[], vec![], vec![]) {
        Err(NativeError::AbiMismatch { declaration, detail }) => {
            assert_eq!(declaration, decl(9));
            assert_eq!(detail, "linked closure member has no strict declaration request");
        }
        other => panic!("expected a missing request, got {other:?}"),
    }

    let stray = NativeDeclarationRequest::new(decl(4), SymbolDecoration::Undecorated, CallableAbiAssessment::NotApplicable, None);
    match analyzer.closure_evidence(&src, &res, &[], vec![request.clone(), stray], vec![Ok(()), Ok(())]) {
        Err(NativeError::InvalidPolicy { detail }) => {
            assert!(detail.starts_with("strict declaration request pdecl1_"));
            assert!(detail.ends_with(" is not a linked member of the source closure"));
        }
        other => panic!("expected a stray request, got {other:?}"),
    }

    assert!(matches!(
        analyzer.closure_evidence(&src, &res, &[], vec![request.clone(), request], vec![Ok(()), Ok(())]),
        Err(NativeError::InvalidPolicy { .. })
    ));
}

#[test]
fn effective_search_paths_follow_the_policy() {
    let declared = vec![b"/opt/lib".to_vec()];
    let toolchain = vec![b"/usr/lib".to_vec(), b"/opt/lib".to_vec()];
    assert!(matches!(
        effective_search_paths(ResolutionPolicy::ExactPathsOnly, &declared, &toolchain),
        Err(NativeError::InvalidPolicy { .. })
    ));
    assert_eq!(
        effective_search_paths(ResolutionPolicy::HermeticSearch, &declared, &toolchain).unwrap(),
        vec![b"/opt/lib".to_vec()]
    );
    assert_eq!(
        effective_search_paths(ResolutionPolicy::ToolchainSearch, &declared, &toolchain).unwrap(),
        vec![b"/opt/lib".to_vec(), b"/usr/lib".to_vec()]
    );
    match effective_search_paths(ResolutionPolicy::HermeticSearch, &[], &toolchain) {
        Err(NativeError::MissingProvider { requested }) => assert_eq!(requested, b"<no declared search path>".to_vec()),
        other => panic!("expected a missing search path, got {other:?}"),
    }
}

#[test]
fn dependencies_must_follow_their_parents_in_the_plan() {
    let parent = artifact(b"/usr/lib/libapp.so");
    let child = artifact(b"/usr/lib/libdep.so");
    let providers = vec![parent.provider_id(), child.provider_id()];
    let bindings = vec![vec![Some(child.provider_id())], vec![]];
    let ordered = vec![LinkAtom::DynamicLibrary(parent.clone()), LinkAtom::DynamicLibrary(child.clone())];
    assert!(ensure_dependency_plan_order(&ordered, &providers, &bindings).is_ok());
    let reversed = vec![LinkAtom::DynamicLibrary(child.clone()), LinkAtom::DynamicLibrary(parent.clone())];
    assert!(matches!(
        ensure_dependency_plan_order(&reversed, &providers, &bindings),
        Err(NativeError::InvalidPolicy { .. })
    ));
    let missing = vec![LinkAtom::DynamicLibrary(parent)];
    assert!(matches!(
        ensure_dependency_plan_order(&missing, &providers, &bindings),
        Err(NativeError::InvalidPolicy { .. })
    ));
}

#[test]
fn dependency_bindings_are_unique_or_searched() {
    let paths = vec![b"/usr/lib/liba.so".to_vec(), b"/usr/lib/libb.so".to_vec()];
    assert_eq!(
        bind_dependency(b"liba.so", &[1], &paths, ResolutionPolicy::HermeticSearch).unwrap(),
        DependencyBinding::Existing(1)
    );
    match bind_dependency(b"liba.so", &[0, 1], &paths, ResolutionPolicy::HermeticSearch) {
        Err(NativeError::AmbiguousProvider { requested, candidates }) => {
            assert_eq!(requested, b"liba.so".to_vec());
            assert_eq!(candidates, paths);
        }
        other => panic!("expected ambiguity, got {other:?}"),
    }
    assert!(matches!(
        bind_dependency(b"libz.so", &[], &paths, ResolutionPolicy::ExactPathsOnly),
        Err(NativeError::MissingProvider { .. })
    ));
    assert_eq!(
        bind_dependency(b"libz.so", &[], &paths, ResolutionPolicy::ToolchainSearch).unwrap(),
        DependencyBinding::Search
    );
}

#[test]
fn transitive_providers_are_limited() {
    assert_eq!(admit_transitive(0, 2).unwrap(), 1);
    assert_eq!(admit_transitive(1, 2).unwrap(), 2);
    match admit_transitive(2, 2) {
        Err(NativeError::InvalidPolicy { detail }) => assert_eq!(detail, "resolution exceeds 2 transitive providers"),
        other => panic!("expected the limit, got {other:?}"),
    }
    match admit_transitive(usize::MAX, usize::MAX) {
        Err(NativeError::InvalidPolicy { detail }) => assert_eq!(detail, "transitive dependency count overflow"),
        other => panic!("expected overflow, got {other:?}"),
    }
}

fn execution_policy() -> ProbeExecutionPolicy {
    let limits = ProbeResourceLimits::try_new(10_000, 1 << 30, 1 << 20, 4).unwrap();
    ProbeExecutionPolicy::try_new(b"/tmp/linc-probes".to_vec(), b"{}".to_vec(), limits).unwrap()
}

#[test]
fn analysis_requests_refuse_searches_under_exact_paths() {
    let src = source(vec![], vec![]);
    let exact = AnalysisPolicy::strict(
        ResolutionPolicy::ExactPathsOnly,
        ProbePolicy::Disabled,
        RunnerPolicy::Unavailable,
        execution_policy(),
    )
    .unwrap();
    let search = vec![NativeInput::DynamicLibraryName(b"foo".to_vec())];
    match AnalysisRequest::try_new(&src, &search, exact.clone()) {
        Err(ContractError::InvalidPolicy { reason }) => {
            assert_eq!(reason, "exact-path resolution cannot accept search paths or name requests")
        }
        other => panic!("expected a policy refusal, got {other:?}"),
    }
    let paths = vec![NativeInput::DynamicLibraryPath(b"/usr/lib/libfoo.so".to_vec())];
    let request = AnalysisRequest::try_new(&src, &paths, exact).expect("exact paths are accepted");
    assert_eq!(request.native_inputs().len(), 1);
    let unbalanced = vec![NativeInput::GroupStart];
    assert!(AnalysisRequest::try_new(&src, &unbalanced, request.policy().clone()).is_err());
}

#[test]
fn finished_resolutions_order_inventories_by_provider() {
    let src = source(vec![], vec![]);
    let policy = AnalysisPolicy::strict(
        ResolutionPolicy::HermeticSearch,
        ProbePolicy::Disabled,
        RunnerPolicy::Unavailable,
        execution_policy(),
    )
    .unwrap();
    let request = AnalysisRequest::try_new(&src, &[], policy).unwrap();
    let a = inventory(artifact(b"/usr/lib/liba.so"), vec![]);
    let b = inventory(artifact(b"/usr/lib/libb.so"), vec![]);
    let atoms = vec![LinkAtom::DynamicLibrary(a.artifact().clone()), LinkAtom::DynamicLibrary(b.artifact().clone())];
    let finished = finish_resolution(&request, atoms, vec![b, a]).expect("resolution");
    let ids: Vec<_> = finished.inventories().iter().map(|inv| inv.artifact().provider_id()).collect();
    let mut sorted = ids.clone();
    sorted.sort_by(|x, y| x.as_bytes().cmp(y.as_bytes()));
    assert_eq!(ids, sorted);
    assert_eq!(finished.plan().atoms().len(), 2);
    assert_eq!(finished.source_fingerprint(), source_fp());
    assert!(matches!(
        finish_resolution(&request, vec![LinkAtom::GroupEnd], vec![]),
        Err(NativeError::Contract(_))
    ));
}
