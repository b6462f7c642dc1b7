use linc::contract::inventory::InspectionProvenance;
use linc::contract::model::{
    ArtifactKind, InspectionParserIdentity, InspectionParserKind, InspectionToolIdentity, InspectionToolKind, NativeInput,
    ProviderProvenance, ProviderResolution, ResolvedArtifact, ResolvedArtifactInput,
};
use linc::contract::request::ResolutionPolicy;
use linc::contract::{
    Architecture, ArtifactFingerprint, ContentFingerprint, CrtFlavor, Endian, Environment, LinkAtom, LinkerFlavor, NativeAbi,
    ObjectFormat, ObservedTarget, ObservedTargetParts, OperatingSystem, TargetFingerprint,
};
use linc::native::error::NativeError;
use linc::native::inspect::ArtifactInspection;
use linc::native::resolve::LibraryPreference;
use linc::native::resolve_steps::{
    resolve_step, ResolveAction, ResolveEvent, ResolveState, FRAMEWORK_REFUSAL, IMPORT_LIBRARY_REFUSAL, UNEXPECTED_EVENT,
};

fn linux_target() -> ObservedTarget {
    ObservedTarget::try_new(ObservedTargetParts {
        target_fingerprint: TargetFingerprint::from_bytes([7; 32]),
        architecture: Architecture::X86_64,
        operating_system: OperatingSystem::Linux,
        environment: Environment::Gnu,
        object_format: ObjectFormat::Elf,
        endian: Endian::Little,
        pointer_width: 64,
        abi: NativeAbi::SysV64,
        linker: LinkerFlavor::Gnu,
        crt: CrtFlavor::Glibc,
    })
    .unwrap()
}

fn inspection_of(path: &[u8], kind: ArtifactKind) -> ArtifactInspection {
    let fp = ContentFingerprint::from_bytes([5; 32]);
    let artifact = ResolvedArtifact::try_new(ResolvedArtifactInput {
        artifact_fingerprint: ArtifactFingerprint::from_content(path),
        canonical_path: path.to_vec(),
        kind,
        resolution: ProviderResolution::Explicit,
        provenance: ProviderProvenance::User,
        observed_target: linux_target(),
    })
    .unwrap();
    let provenance = InspectionProvenance::try_new(
        InspectionToolIdentity::try_new(InspectionToolKind::LincBuiltin, "1.0".into(), fp).unwrap(),
        vec![InspectionParserIdentity::try_new(InspectionParserKind::Elf, "1.0".into(), fp).unwrap()],
    )
    .unwrap();
    ArtifactInspection::new(artifact, provenance, vec![], vec![])
}

fn start(inputs: Vec<NativeInput>) -> ResolveState {
    ResolveState::start(ResolutionPolicy::HermeticSearch, inputs, vec![], LibraryPreference::DynamicOnly, 8)
}

fn refusal(result: Result<(ResolveState, ResolveAction), NativeError>) -> String {
    match result {
        Err(NativeError::UnsupportedInput { detail }) => detail,
        Err(NativeError::InvalidPolicy { detail }) => detail,
        other => panic!("expected a refusal, got {:?}", other.map(|(_, a)| a)),
    }
}

#[test]
fn import_libraries_and_frameworks_are_refused() {
    let state = start(vec![NativeInput::ImportLibraryName(b"kernel32".to_vec())]);
    assert_eq!(refusal(resolve_step(state, ResolveEvent::Continue)), IMPORT_LIBRARY_REFUSAL);
    let state = start(vec![NativeInput::FrameworkPath(b"/Library/Frameworks/A.framework".to_vec())]);
    assert_eq!(refusal(resolve_step(state, ResolveEvent::Continue)), FRAMEWORK_REFUSAL);
    let state = start(vec![]);
    assert_eq!(refusal(resolve_step(state, ResolveEvent::Candidates(vec![]))), UNEXPECTED_EVENT);
}

#[test]
fn a_path_input_is_canonicalized_inspected_and_planned() {
    let state = start(vec![NativeInput::GroupStart, NativeInput::DynamicLibraryPath(b"lib/liba.so".to_vec()), NativeInput::GroupEnd]);
    let (state, action) = resolve_step(state, ResolveEvent::Continue).unwrap();
    assert!(matches!(action, ResolveAction::Continue));
    let (state, action) = resolve_step(state, ResolveEvent::Continue).unwrap();
    match action {
        ResolveAction::CanonicalizeProvider { path } => assert_eq!(path, b"lib/liba.so".to_vec()),
        other => panic!("unexpected {other:?}"),
    }
    let canonical = ResolveEvent::Canonical { path: b"/lib/liba.so".to_vec(), file_name: Some(b"liba.so".to_vec()) };
    let (state, action) = resolve_step(state, canonical).unwrap();
    match action {
        ResolveAction::Inspect { path, kind, resolution, provenance } => {
            assert_eq!(path, b"/lib/liba.so".to_vec());
            assert_eq!(kind, ArtifactKind::DynamicLibrary);
            assert_eq!(resolution, ProviderResolution::Explicit);
            assert_eq!(provenance, ProviderProvenance::User);
        }
        other => panic!("unexpected {other:?}"),
    }
    let (state, _) = resolve_step(state, ResolveEvent::Inspected(inspection_of(b"/lib/liba.so", ArtifactKind::DynamicLibrary))).unwrap();
    assert!(state.inspections[0].provides(b"liba.so"));
    let (state, _) = resolve_step(state, ResolveEvent::Continue).unwrap();
    let (state, action) = resolve_step(state, ResolveEvent::Continue).unwrap();
    assert!(matches!(action, ResolveAction::Continue));
    let (state, action) = resolve_step(state, ResolveEvent::Continue).unwrap();
    assert!(matches!(action, ResolveAction::Done));
    assert_eq!(state.atoms.len(), 3);
    assert_eq!(state.atoms[0], LinkAtom::GroupStart);
    assert!(matches!(state.atoms[1], LinkAtom::DynamicLibrary(_)));
    assert_eq!(state.bindings.len(), 1);
}

#[test]
fn a_reused_path_must_keep_its_kind() {
    let inputs = vec![NativeInput::ObjectPath(b"a.o".to_vec()), NativeInput::DynamicLibraryPath(b"./a.o".to_vec())];
    let state = start(inputs);
    let (state, _) = resolve_step(state, ResolveEvent::Continue).unwrap();
    let (state, _) = resolve_step(state, ResolveEvent::Canonical { path: b"/w/a.o".to_vec(), file_name: Some(b"a.o".to_vec()) }).unwrap();
    let (state, _) = resolve_step(state, ResolveEvent::Inspected(inspection_of(b"/w/a.o", ArtifactKind::Object))).unwrap();
    let (state, _) = resolve_step(state, ResolveEvent::Continue).unwrap();
    let result = resolve_step(state, ResolveEvent::Canonical { path: b"/w/a.o".to_vec(), file_name: Some(b"a.o".to_vec()) });
    match result {
        Err(NativeError::ArtifactKindMismatch { path, expected, observed }) => {
            assert_eq!(path, b"/w/a.o".to_vec());
            assert_eq!(expected, "dynamic_library");
            assert_eq!(observed, "object");
        }
        other => panic!("expected a kind mismatch, got {:?}", other.map(|(_, a)| a)),
    }
}

fn inspected(path: &[u8], needs: &[&[u8]], names: &[&[u8]]) -> ArtifactInspection {
    let base = inspection_of(path, ArtifactKind::DynamicLibrary);
    let deps = needs
        .iter()
        .map(|n| linc::native::inspect::NeededLibrary::new(n.to_vec(), linc::contract::model::DependencyProvenance::DynamicTable))
        .collect();
    let mut out = ArtifactInspection::new(base.artifact().clone(), base.inspection().clone(), vec![], deps);
    for name in names {
        out.add_provided_name(Some(name));
    }
    out
}

/// Runs the inputs `paths` through the steps, inspecting each as `made`
/// gives it, and stops at the first dependency decision.
fn after_inputs(policy: ResolutionPolicy, made: Vec<ArtifactInspection>) -> ResolveState {
    let inputs = made
        .iter()
        .map(|i| NativeInput::DynamicLibraryPath(i.artifact().canonical_path().to_vec()))
        .collect();
    let mut state = ResolveState::start(policy, inputs, vec![], LibraryPreference::DynamicOnly, 8);
    for inspection in made {
        let path = inspection.artifact().canonical_path().to_vec();
        let (s, _) = resolve_step(state, ResolveEvent::Continue).unwrap();
        let (s, _) = resolve_step(s, ResolveEvent::Canonical { path, file_name: None }).unwrap();
        let (s, _) = resolve_step(s, ResolveEvent::Inspected(inspection)).unwrap();
        state = s;
    }
    state
}

#[test]
fn a_dependency_answered_once_is_bound_and_twice_is_ambiguous() {
    let made = vec![
        inspected(b"/lib/libapp.so", &[b"libdep.so"], &[]),
        inspected(b"/lib/libdep.so", &[], &[b"libdep.so"]),
    ];
    let dep_provider = made[1].artifact().provider_id();
    let state = after_inputs(ResolutionPolicy::HermeticSearch, made);
    let (state, action) = resolve_step(state, ResolveEvent::Continue).unwrap();
    assert!(matches!(action, ResolveAction::Continue));
    assert_eq!(state.row, vec![Some(dep_provider)]);

    let made = vec![
        inspected(b"/lib/libapp.so", &[b"libdep.so"], &[]),
        inspected(b"/lib/libdep.so", &[], &[b"libdep.so"]),
        inspected(b"/opt/libdep.so", &[], &[b"libdep.so"]),
    ];
    let state = after_inputs(ResolutionPolicy::HermeticSearch, made);
    match resolve_step(state, ResolveEvent::Continue) {
        Err(NativeError::AmbiguousProvider { requested, candidates }) => {
            assert_eq!(requested, b"libdep.so".to_vec());
            assert_eq!(candidates, vec![b"/lib/libdep.so".to_vec(), b"/opt/libdep.so".to_vec()]);
        }
        other => panic!("expected an ambiguous provider, got {:?}", other.map(|(_, a)| a)),
    }
}

#[test]
fn an_unanswered_dependency_is_missing_under_exact_paths() {
    let made = vec![inspected(b"/lib/libapp.so", &[b"libgone.so"], &[])];
    let state = after_inputs(ResolutionPolicy::ExactPathsOnly, made);
    match resolve_step(state, ResolveEvent::Continue) {
        Err(NativeError::MissingProvider { requested }) => assert_eq!(requested, b"libgone.so".to_vec()),
        other => panic!("expected a missing provider, got {:?}", other.map(|(_, a)| a)),
    }
}
