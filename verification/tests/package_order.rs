use linc::contract::analysis::{LinkAnalysisPackage, LinkAnalysisPackageInput};
use linc::contract::diagnostic::{DiagnosticEvidenceRef, LincDiagnostic, LincDiagnosticContext, LincDiagnosticInput, SourceRange};
use linc::contract::evidence::{
    CallableAbiAssessment, DeclarationEvidence, DeclarationEvidenceInput, LayoutAssessment, ProbeExecutionPolicy,
    ProbeResourceLimits, ProviderAssessment, SymbolAssessment, SymbolReference,
};
use linc::contract::inventory::{InspectionProvenance, SymbolInventory};
use linc::contract::model::{
    ArtifactKind, ArtifactSymbolId, DependencyEdge, DependencyProvenance, DiagnosticSeverity, DiagnosticStage,
    InspectionParserIdentity, InspectionParserKind, InspectionToolIdentity, InspectionToolKind, LincCode, NativeInput,
    ProviderProvenance, ProviderResolution, ResolvedArtifact, ResolvedArtifactInput, SymbolBinding, SymbolDecoration,
    SymbolDirection, SymbolKind, SymbolRecord, SymbolRecordInput, SymbolVisibility,
};
use linc::contract::request::{AnalysisPolicy, ProbePolicy, ResolutionPolicy, RunnerPolicy};
use linc::contract::validated::{
    ClosureEntry, ClosureRequirement, CompleteSourcePackage, Linkage, SourceDeclaration, SourceDeclarationKind, SourceFile,
    ValidatedLinkAnalysis,
};
use linc::contract::WeakSymbolPolicy;
use linc::native::analyze::{NativeAnalysisInput, NativeAnalyzer, NativeDeclarationRequest};
use linc::native::error::NativeError;
use linc::native::resolve::NativeResolution;
use linc::contract::{
    Architecture, ArtifactFingerprint, ContentFingerprint, ContractError, CrtFlavor, DeclarationId, Endian, Environment,
    LinkAtom, LinkerFlavor, NativeAbi, ObjectFormat, ObservedTarget, ObservedTargetParts, OperatingSystem, ProviderId,
    ResolvedLinkPlan, SourceFingerprint, TargetFingerprint, TargetSpec,
};

fn target_fp() -> TargetFingerprint {
    TargetFingerprint::from_bytes([7; 32])
}

fn source_fp() -> SourceFingerprint {
    SourceFingerprint::from_bytes([1; 32])
}

fn decl(byte: u8) -> DeclarationId {
    DeclarationId::from_bytes([byte; 32])
}

fn linux_target() -> ObservedTarget {
    ObservedTarget::try_new(ObservedTargetParts {
        target_fingerprint: target_fp(),
        architecture: Architecture::X86_64,
        operating_system: OperatingSystem::Linux,
        environment: Environment::Gnu,
        object_format: ObjectFormat::Elf,
        endian: Endian::Little,
        pointer_width: 64,
        abi: NativeAbi::SysV64,
        linker: LinkerFlavor::Gnu,
        crt: CrtFlavor::Glibc,
    })
    .expect("modeled Linux target")
}

fn linux_spec() -> TargetSpec {
    TargetSpec {
        fingerprint: target_fp(),
        triple: "x86_64-unknown-linux-gnu".to_owned(),
        architecture: Architecture::X86_64,
        operating_system: OperatingSystem::Linux,
        environment: Environment::Gnu,
        object_format: ObjectFormat::Elf,
        endian: Endian::Little,
        pointer_width: 64,
    }
}

fn policy() -> AnalysisPolicy {
    let limits = ProbeResourceLimits::try_new(10_000, 1 << 30, 1 << 20, 4).unwrap();
    let execution =
        ProbeExecutionPolicy::try_new(b"/tmp/linc-probes".to_vec(), b"{\"policy\":\"empty\"}".to_vec(), limits).unwrap();
    AnalysisPolicy::strict(ResolutionPolicy::HermeticSearch, ProbePolicy::CompileOnly, RunnerPolicy::Unavailable, execution)
        .unwrap()
}

fn artifact_of(path: &[u8], kind: ArtifactKind, resolution: ProviderResolution) -> ResolvedArtifact {
    ResolvedArtifact::try_new(ResolvedArtifactInput {
        artifact_fingerprint: ArtifactFingerprint::from_content(path),
        canonical_path: path.to_vec(),
        kind,
        resolution,
        provenance: ProviderProvenance::User,
        observed_target: linux_target(),
    })
    .expect("valid artifact")
}

fn artifact(path: &[u8], resolution: ProviderResolution) -> ResolvedArtifact {
    artifact_of(path, ArtifactKind::DynamicLibrary, resolution)
}

fn inspection_with(parser: InspectionParserKind) -> InspectionProvenance {
    let fp = ContentFingerprint::from_bytes([5; 32]);
    InspectionProvenance::try_new(
        InspectionToolIdentity::try_new(InspectionToolKind::LincBuiltin, "1.0".into(), fp).unwrap(),
        vec![InspectionParserIdentity::try_new(parser, "1.0".into(), fp).unwrap()],
    )
    .unwrap()
}

fn edge(name: &[u8], provider: Option<ProviderId>) -> DependencyEdge {
    DependencyEdge::try_new(name.to_vec(), provider, DependencyProvenance::DynamicTable).unwrap()
}

fn inventory(art: ResolvedArtifact, symbols: Vec<SymbolRecord>, edges: Vec<DependencyEdge>) -> SymbolInventory {
    SymbolInventory::try_new(art, inspection_with(InspectionParserKind::Elf), symbols, edges).expect("valid inventory")
}

fn plan(artifacts: &[&ResolvedArtifact]) -> ResolvedLinkPlan {
    ResolvedLinkPlan::try_new(artifacts.iter().map(|a| LinkAtom::DynamicLibrary((*a).clone())).collect()).unwrap()
}

fn input(inventories: Vec<SymbolInventory>, link_plan: ResolvedLinkPlan) -> LinkAnalysisPackageInput {
    LinkAnalysisPackageInput {
        source_fingerprint: source_fp(),
        target_fingerprint: target_fp(),
        analysis_policy: policy(),
        native_inputs: vec![],
        inventories,
        abi_probes: vec![],
        layouts: vec![],
        declaration_evidence: vec![],
        resolved_link_plan: link_plan,
        diagnostics: vec![],
    }
}

fn source(declarations: Vec<SourceDeclaration>, closure: Vec<ClosureEntry>) -> CompleteSourcePackage {
    CompleteSourcePackage {
        fingerprint: source_fp(),
        target: linux_spec(),
        compiler: b"{\"family\":\"gcc\"}".to_vec(),
        abi_flags: b"[]".to_vec(),
        files: vec![SourceFile { id: 1, byte_len: 100 }],
        declarations,
        closure,
    }
}

fn data_symbol(
    index: u64,
    name: &str,
    direction: SymbolDirection,
    kind: SymbolKind,
    binding: SymbolBinding,
    visibility: SymbolVisibility,
) -> SymbolRecord {
    SymbolRecord::try_new(SymbolRecordInput {
        id: ArtifactSymbolId::new(0, index),
        name: name.to_owned(),
        raw_name: name.as_bytes().to_vec(),
        version: None,
        direction,
        kind,
        binding,
        visibility,
        decoration: SymbolDecoration::Undecorated,
        size: 8,
        address: None,
        section: None,
        archive_member: None,
    })
    .expect("valid symbol")
}

fn counter_evidence(art: &ResolvedArtifact, kind: SymbolKind) -> DeclarationEvidence {
    DeclarationEvidence::try_new(DeclarationEvidenceInput {
        declaration: decl(3),
        source_fingerprint: source_fp(),
        target_fingerprint: target_fp(),
        provider: ProviderAssessment::Resolved {
            provider: art.provider_id(),
            artifact_fingerprint: art.artifact_fingerprint(),
        },
        symbol: SymbolAssessment::Exact {
            symbol: SymbolReference::new(art.provider_id(), ArtifactSymbolId::new(0, 1)),
            expected_name: "counter".to_owned(),
            actual_name: "counter".to_owned(),
            kind,
            decoration: SymbolDecoration::Undecorated,
        },
        layout: LayoutAssessment::NotRequired,
        callable_abi: CallableAbiAssessment::NotApplicable,
    })
    .expect("declaration evidence")
}

fn counter_source() -> CompleteSourcePackage {
    source(
        vec![SourceDeclaration {
            id: decl(3),
            linkage: Linkage::External,
            kind: SourceDeclarationKind::Variable { link_name: "counter".to_owned(), thread_local: false },
        }],
        vec![ClosureEntry { declaration: decl(3), requirement: ClosureRequirement::Declaration }],
    )
}

/// A package whose one external variable `counter` is exported by the first
/// provider; `extra` providers join the plan after it.
fn counter_package(symbol: SymbolRecord, extra: Vec<SymbolInventory>) -> LinkAnalysisPackage {
    let kind = symbol.kind();
    let art = artifact(b"/lib/libcounter.so", ProviderResolution::Explicit);
    let mut inventories = vec![inventory(art.clone(), vec![symbol], vec![])];
    let mut atoms = vec![LinkAtom::DynamicLibrary(art.clone())];
    for inv in extra {
        atoms.push(LinkAtom::DynamicLibrary(inv.artifact().clone()));
        inventories.push(inv);
    }
    let mut package_input = input(inventories, ResolvedLinkPlan::try_new(atoms).unwrap());
    package_input.declaration_evidence = vec![counter_evidence(&art, kind)];
    LinkAnalysisPackage::try_new(package_input).expect("internally coherent package")
}

fn visible(index: u64, kind: SymbolKind) -> SymbolRecord {
    data_symbol(index, "counter", SymbolDirection::Exported, kind, SymbolBinding::Global, SymbolVisibility::Default)
}

#[test]
fn wrapper_rejects_nonvisible_wrong_kind_absent_and_ambiguous_providers() {
    let source = counter_source();
    ValidatedLinkAnalysis::try_new(&source, counter_package(visible(1, SymbolKind::Data), vec![]))
        .expect("one visible exported provider");

    let hidden = [
        (SymbolDirection::Exported, SymbolBinding::Local, SymbolVisibility::Default),
        (SymbolDirection::Imported, SymbolBinding::Global, SymbolVisibility::Default),
        (SymbolDirection::Exported, SymbolBinding::Global, SymbolVisibility::Hidden),
        (SymbolDirection::Exported, SymbolBinding::Weak, SymbolVisibility::Default),
    ];
    for (direction, binding, visibility) in hidden {
        let symbol = data_symbol(1, "counter", direction, SymbolKind::Data, binding, visibility);
        assert_eq!(
            ValidatedLinkAnalysis::try_new(&source, counter_package(symbol, vec![])),
            Err(ContractError::SymbolNotVisible { declaration: decl(3) })
        );
    }

    assert!(matches!(
        ValidatedLinkAnalysis::try_new(&source, counter_package(visible(1, SymbolKind::Function), vec![])),
        Err(ContractError::SymbolKindMismatch { .. })
    ));

    let art = artifact(b"/lib/libcounter.so", ProviderResolution::Explicit);
    let mut absent = input(vec![inventory(art.clone(), vec![visible(1, SymbolKind::Data)], vec![])], plan(&[]));
    absent.declaration_evidence = vec![counter_evidence(&art, SymbolKind::Data)];
    let absent = LinkAnalysisPackage::try_new(absent).expect("unplanned provider package");
    assert_eq!(
        ValidatedLinkAnalysis::try_new(&source, absent),
        Err(ContractError::ProviderNotInPlan { provider: art.provider_id() })
    );

    let second = artifact(b"/lib/libsecond.so", ProviderResolution::Explicit);
    let duplicate_provider = inventory(second, vec![visible(1, SymbolKind::Data)], vec![]);
    assert!(matches!(
        ValidatedLinkAnalysis::try_new(&source, counter_package(visible(1, SymbolKind::Data), vec![duplicate_provider])),
        Err(ContractError::AmbiguousVisibleProviders { count: 2, .. })
    ));

    let art = artifact(b"/lib/libcounter.so", ProviderResolution::Explicit);
    let twice = inventory(art.clone(), vec![visible(1, SymbolKind::Data), visible(2, SymbolKind::Data)], vec![]);
    let mut same_provider = input(vec![twice], plan(&[&art]));
    same_provider.declaration_evidence = vec![counter_evidence(&art, SymbolKind::Data)];
    let same_provider = LinkAnalysisPackage::try_new(same_provider).expect("two exports in one provider");
    assert!(matches!(
        ValidatedLinkAnalysis::try_new(&source, same_provider),
        Err(ContractError::AmbiguousVisibleProviders { count: 2, .. })
    ));
}

#[test]
fn package_canonicalizes_sets_but_never_link_sequence() {
    let a = artifact(b"/lib/liba.so", ProviderResolution::Explicit);
    let b = artifact(b"/lib/libb.so", ProviderResolution::Explicit);
    let c = artifact(b"/lib/libc.so", ProviderResolution::Explicit);
    let inventories = || {
        vec![inventory(a.clone(), vec![], vec![]), inventory(b.clone(), vec![], vec![]), inventory(c.clone(), vec![], vec![])]
    };
    let package = LinkAnalysisPackage::try_new(input(inventories(), plan(&[&a, &b, &c]))).expect("package");

    let mut reversed = inventories();
    reversed.reverse();
    let reordered = LinkAnalysisPackage::try_new(input(reversed, plan(&[&a, &b, &c]))).expect("nonsemantic collections canonicalize");
    assert_eq!(reordered, package);
    assert_eq!(reordered.fingerprint(), package.fingerprint());

    let reversed_plan = LinkAnalysisPackage::try_new(input(inventories(), plan(&[&c, &b, &a]))).expect("sequence variant package");
    assert_ne!(reversed_plan.fingerprint(), package.fingerprint());
    assert_ne!(reversed_plan.resolved_link_plan(), package.resolved_link_plan());
    assert_eq!(reversed_plan.resolved_link_plan().atoms()[0], LinkAtom::DynamicLibrary(c));
}

#[test]
fn native_input_sequence_and_repetition_are_fingerprint_semantics() {
    let first = NativeInput::ObjectPath(b"/lib/liba.so".to_vec());
    let second = NativeInput::ObjectPath(b"/lib/libb.so".to_vec());
    let mut ordered = input(vec![], plan(&[]));
    ordered.native_inputs = vec![first.clone(), second.clone()];
    let package = LinkAnalysisPackage::try_new(ordered).expect("input snapshot");

    let mut reversed_input = input(vec![], plan(&[]));
    reversed_input.native_inputs = vec![second.clone(), first.clone()];
    let reversed = LinkAnalysisPackage::try_new(reversed_input).expect("reversed input snapshot");
    assert_ne!(reversed.native_inputs(), package.native_inputs());
    assert_ne!(reversed.fingerprint(), package.fingerprint());
    assert_eq!(reversed.native_inputs()[0], second);

    let mut repeated_input = input(vec![], plan(&[]));
    repeated_input.native_inputs = vec![first.clone(), second, first];
    let repeated = LinkAnalysisPackage::try_new(repeated_input).expect("repeated input snapshot");
    assert_eq!(repeated.native_inputs().len(), 3);
    assert_ne!(repeated.native_inputs(), package.native_inputs());
    assert_ne!(repeated.fingerprint(), package.fingerprint());
}

#[test]
fn inspection_parser_identity_must_match_the_artifact_container_and_format() {
    let a = artifact(b"/lib/liba.so", ProviderResolution::Explicit);
    let mismatched = SymbolInventory::try_new(a.clone(), inspection_with(InspectionParserKind::MachO), vec![], vec![])
        .expect("inventory constructor preserves parser claims for package validation");
    assert_eq!(
        LinkAnalysisPackage::try_new(input(vec![mismatched], plan(&[]))),
        Err(ContractError::InspectionParserMismatch { provider: a.provider_id() })
    );
    let archive = artifact_of(b"/lib/liba.a", ArtifactKind::StaticLibrary, ProviderResolution::Explicit);
    let without_archive_parser = inventory(archive.clone(), vec![], vec![]);
    assert_eq!(
        LinkAnalysisPackage::try_new(input(vec![without_archive_parser], plan(&[]))),
        Err(ContractError::InspectionParserMismatch { provider: archive.provider_id() })
    );
}

#[test]
fn dependency_graph_requires_bidirectional_evidence_and_acyclic_plan_order() {
    let parent = artifact(b"/lib/libfirst.so", ProviderResolution::Explicit);
    let child = artifact(b"/lib/librepeat.so", ProviderResolution::Dependency { parent: parent.provider_id() });
    let (parent_provider, child_provider) = (parent.provider_id(), child.provider_id());

    let accepted = LinkAnalysisPackage::try_new(input(
        vec![
            inventory(parent.clone(), vec![], vec![edge(b"librepeat.so", Some(child_provider))]),
            inventory(child.clone(), vec![], vec![]),
        ],
        plan(&[&parent, &child]),
    ))
    .expect("one parent-to-child dependency is internally coherent");
    ValidatedLinkAnalysis::try_new(&source(vec![], vec![]), accepted).expect("parent precedes child in the resolved plan");

    assert_eq!(
        LinkAnalysisPackage::try_new(input(
            vec![inventory(parent.clone(), vec![], vec![]), inventory(child.clone(), vec![], vec![])],
            plan(&[&parent, &child]),
        )),
        Err(ContractError::DependencyCrossReference { parent: parent_provider, child: child_provider })
    );

    let cyclic_parent = artifact(b"/lib/libfirst.so", ProviderResolution::Dependency { parent: child_provider });
    assert!(matches!(
        LinkAnalysisPackage::try_new(input(
            vec![
                inventory(cyclic_parent.clone(), vec![], vec![edge(b"librepeat.so", Some(child_provider))]),
                inventory(child.clone(), vec![], vec![edge(b"libfirst.so", Some(parent_provider))]),
            ],
            plan(&[&cyclic_parent, &child]),
        )),
        Err(ContractError::DependencyCycle { .. })
    ));
}

#[test]
fn unresolved_dependency_edges_are_preserved_but_rejected_by_strict_validation() {
    let parent = artifact(b"/lib/libfirst.so", ProviderResolution::Explicit);
    let package = LinkAnalysisPackage::try_new(input(
        vec![inventory(parent.clone(), vec![], vec![edge(b"libnotcaptured.so", None)])],
        plan(&[&parent]),
    ))
    .expect("unchecked packages retain unresolved dependency evidence");
    assert_eq!(package.inventories()[0].dependency_edges()[0].provider(), None);
    assert_eq!(
        ValidatedLinkAnalysis::try_new(&source(vec![], vec![]), package),
        Err(ContractError::UnresolvedDependency { parent: parent.provider_id() })
    );
}

#[test]
fn inventory_preserves_duplicate_names_size_and_dependency_order() {
    let archive = artifact_of(b"/lib/libduplicates.a", ArtifactKind::StaticLibrary, ProviderResolution::Explicit);
    let symbol = |index: u64| {
        SymbolRecord::try_new(SymbolRecordInput {
            id: ArtifactSymbolId::new(0, index),
            name: "same_name".to_owned(),
            raw_name: b"same_name".to_vec(),
            version: None,
            direction: SymbolDirection::Exported,
            kind: SymbolKind::Function,
            binding: SymbolBinding::Global,
            visibility: SymbolVisibility::Default,
            decoration: SymbolDecoration::Undecorated,
            size: 16 + index,
            address: Some(0x1000 + index),
            section: Some(b".text".to_vec()),
            archive_member: Some(format!("member-{index}.o").into_bytes()),
        })
        .expect("duplicate-name symbol")
    };
    let edges = vec![edge(b"libsecond.so", None), edge(b"libfirst.so", None), edge(b"libsecond.so", None)];
    let inventory = SymbolInventory::try_new(archive, inspection_with(InspectionParserKind::Archive), vec![symbol(2), symbol(1)], edges)
        .expect("duplicate names remain distinct by artifact-local identity");
    assert_eq!(inventory.symbols().len(), 2);
    assert_eq!(inventory.symbols()[0].id(), ArtifactSymbolId::new(0, 1));
    assert_eq!(inventory.symbols()[0].size(), 17);
    let names: Vec<Vec<u8>> = inventory.dependency_edges().iter().map(|e| e.requested().to_vec()).collect();
    assert_eq!(names, vec![b"libsecond.so".to_vec(), b"libfirst.so".to_vec(), b"libsecond.so".to_vec()]);
}

#[test]
fn diagnostics_are_canonical_unique_and_source_ranges_are_strictly_checked() {
    let declaration = decl(3);
    let diagnostic = |code: &str, severity: DiagnosticSeverity, message: &str, range: Option<SourceRange>| {
        LincDiagnostic::try_new(LincDiagnosticInput {
            code: LincCode::try_new(code.to_owned()).expect("stable code"),
            severity,
            stage: DiagnosticStage::Validation,
            message: message.to_owned(),
            declaration: Some(declaration),
            provider: None,
            context: LincDiagnosticContext::new(
                target_fp(),
                range,
                None,
                None,
                None,
                Some(DiagnosticEvidenceRef::Declaration { declaration }),
            ),
        })
        .expect("diagnostic")
    };
    let warning = diagnostic("LINC-W4100", DiagnosticSeverity::Warning, "preservation warning", None);
    let mut duplicate = input(vec![], plan(&[]));
    duplicate.diagnostics = vec![warning.clone(), warning];
    assert_eq!(LinkAnalysisPackage::try_new(duplicate), Err(ContractError::DuplicateDiagnostic));

    let empty_range = SourceRange { file: 1, start: 12, end: 12 };
    let mut ranged = input(vec![], plan(&[]));
    ranged.diagnostics = vec![diagnostic("LINC-E4101", DiagnosticSeverity::Error, "empty source range", Some(empty_range))];
    let package = LinkAnalysisPackage::try_new(ranged).expect("source ranges require the complete source package to check");
    let closure = vec![ClosureEntry { declaration, requirement: ClosureRequirement::Declaration }];
    assert!(matches!(
        ValidatedLinkAnalysis::try_new(&source(vec![], closure), package),
        Err(ContractError::InvalidDiagnosticContext { .. })
    ));
}

#[test]
fn analyzer_returns_only_validated_packages_built_from_its_resolution() {
    let art = artifact(b"/lib/libcounter.so", ProviderResolution::Explicit);
    let resolution = || {
        NativeResolution::new(
            source_fp(),
            target_fp(),
            WeakSymbolPolicy::Reject,
            plan(&[&art]),
            vec![inventory(art.clone(), vec![visible(1, SymbolKind::Data)], vec![])],
        )
    };
    let analyzer = NativeAnalyzer::with_defaults();
    let empty = source(vec![], vec![]);
    let validated = analyzer
        .analyze_resolved(&empty, policy(), vec![], resolution(), NativeAnalysisInput::default(), vec![])
        .expect("an empty closure needs no evidence");
    assert_eq!(validated.package().resolved_link_plan(), &plan(&[&art]));
    assert_eq!(validated.package().inventories().len(), 1);
    assert!(validated.package().declaration_evidence().is_empty());

    let linked = counter_source();
    assert!(matches!(
        analyzer.analyze_resolved(&linked, policy(), vec![], resolution(), NativeAnalysisInput::default(), vec![]),
        Err(NativeError::AbiMismatch { .. })
    ));

    let orphan = NativeDeclarationRequest::new(decl(9), SymbolDecoration::Undecorated, CallableAbiAssessment::NotApplicable, None);
    let input = NativeAnalysisInput { declarations: vec![orphan], ..NativeAnalysisInput::default() };
    assert!(matches!(
        analyzer.analyze_resolved(&empty, policy(), vec![], resolution(), input, vec![Ok(())]),
        Err(NativeError::InvalidPolicy { .. })
    ));
}
