use linc::native::resolve::{
    dependency_filenames, dynamic_filename, kind_label, push_distinct, static_filename, unique_candidate_by_priority,
    LibraryPreference, NativeResolver, ResolverConfiguration,
};
use linc::native::inspect::{InspectionLimits, NativeInspector};
use linc::native::analyze::NativeAnalyzer;
use linc::contract::graph::first_unranked;
use linc::native::resolve::ensure_acyclic;
use linc::native::NativeError;
use linc::contract::model::ArtifactKind;

#[test]
fn exact_library_names_and_preference_order_are_deterministic() {
    assert_eq!(static_filename(b"one").unwrap(), b"libone.a".to_vec());
    assert_eq!(static_filename(b"one.a").unwrap(), b"libone.a".to_vec());
    assert_eq!(dynamic_filename(b"one").unwrap(), b"libone.so".to_vec());
    assert_eq!(dynamic_filename(b"one.so.2").unwrap(), b"libone.so.2".to_vec());
    assert_eq!(
        dependency_filenames(b"one", LibraryPreference::PreferDynamic).unwrap(),
        vec![b"libone.so".to_vec(), b"libone.a".to_vec()]
    );
    assert_eq!(
        dependency_filenames(b"libone.so.2", LibraryPreference::StaticOnly).unwrap(),
        vec![b"libone.so.2".to_vec()]
    );
    assert_eq!(
        dependency_filenames(b"one.so.2", LibraryPreference::StaticOnly).unwrap(),
        vec![b"one.so.2".to_vec()]
    );

    // Both candidate files exist in one directory: the preferred kind wins.
    let names = dependency_filenames(b"one", LibraryPreference::PreferDynamic).unwrap();
    let found = vec![vec![b"/root/libone.so".to_vec()], vec![b"/root/libone.a".to_vec()]];
    assert_eq!(
        unique_candidate_by_priority(&names, &found).unwrap(),
        b"/root/libone.so".to_vec(),
        "preference selects a kind before ambiguity is considered"
    );
}

#[test]
fn non_utf8_library_names_are_rejected_without_lossy_normalization() {
    let name = vec![b'o', b'n', b'e', 0xff];
    assert!(matches!(static_filename(&name), Err(NativeError::UnsupportedInput { .. })));
    assert!(matches!(dynamic_filename(&name), Err(NativeError::UnsupportedInput { .. })));
    assert!(matches!(
        dependency_filenames(&name, LibraryPreference::DynamicOnly),
        Err(NativeError::UnsupportedInput { .. })
    ));

    let error = unique_candidate_by_priority(std::slice::from_ref(&name), &[vec![]]).unwrap_err();
    assert!(matches!(error, NativeError::MissingProvider { requested } if requested == name));
}

#[test]
fn library_names_with_the_other_kinds_suffix_are_refused() {
    assert!(matches!(static_filename(b"one.so"), Err(NativeError::UnsupportedInput { .. })));
    assert!(matches!(static_filename(b"one.so.1"), Err(NativeError::UnsupportedInput { .. })));
    assert!(matches!(dynamic_filename(b"one.a"), Err(NativeError::UnsupportedInput { .. })));
    assert!(matches!(static_filename(&vec![b'a'; 4097]), Err(NativeError::UnsupportedInput { .. })));
    assert_eq!(static_filename(b"libone").unwrap(), b"libone.a".to_vec());
    assert_eq!(dynamic_filename(b"libone.so").unwrap(), b"libone.so".to_vec());
    assert_eq!(
        dependency_filenames(b"one", LibraryPreference::PreferStatic).unwrap(),
        vec![b"libone.a".to_vec(), b"libone.so".to_vec()]
    );
    assert_eq!(dependency_filenames(b"one", LibraryPreference::StaticOnly).unwrap(), vec![b"libone.a".to_vec()]);
    assert_eq!(dependency_filenames(b"one", LibraryPreference::DynamicOnly).unwrap(), vec![b"libone.so".to_vec()]);
}

#[test]
fn candidate_selection_dedups_then_reports_ambiguity_or_absence() {
    let names = vec![b"libx.so".to_vec(), b"libx.a".to_vec()];
    let same_file_twice = vec![vec![b"/a/libx.so".to_vec(), b"/a/libx.so".to_vec()], vec![]];
    assert_eq!(unique_candidate_by_priority(&names, &same_file_twice).unwrap(), b"/a/libx.so".to_vec());

    let two_files = vec![vec![b"/a/libx.so".to_vec(), b"/b/libx.so".to_vec()], vec![b"/a/libx.a".to_vec()]];
    match unique_candidate_by_priority(&names, &two_files) {
        Err(NativeError::AmbiguousProvider { requested, candidates }) => {
            assert_eq!(requested, b"libx.so".to_vec());
            assert_eq!(candidates, vec![b"/a/libx.so".to_vec(), b"/b/libx.so".to_vec()]);
        }
        other => panic!("unexpected {other:?}"),
    }

    let fallback = vec![vec![], vec![b"/a/libx.a".to_vec()]];
    assert_eq!(unique_candidate_by_priority(&names, &fallback).unwrap(), b"/a/libx.a".to_vec());

    match unique_candidate_by_priority(&[], &[]) {
        Err(NativeError::MissingProvider { requested }) => assert_eq!(requested, b"<empty candidate set>".to_vec()),
        other => panic!("unexpected {other:?}"),
    }
}

#[test]
fn search_paths_stay_distinct_and_ordered() {
    let mut paths = vec![b"/a".to_vec()];
    push_distinct(&mut paths, b"/b".to_vec());
    push_distinct(&mut paths, b"/a".to_vec());
    assert_eq!(paths, vec![b"/a".to_vec(), b"/b".to_vec()]);
}

#[test]
fn resolver_configuration_requires_a_nonzero_limit() {
    assert!(matches!(
        ResolverConfiguration::new(Vec::new(), LibraryPreference::StaticOnly, 0),
        Err(NativeError::InvalidPolicy { .. })
    ));
    let configuration = ResolverConfiguration::new(vec![b"/lib".to_vec()], LibraryPreference::PreferStatic, 7).unwrap();
    assert_eq!(configuration.toolchain_search_paths(), &[b"/lib".to_vec()][..]);
    assert_eq!(configuration.library_preference(), LibraryPreference::PreferStatic);
    assert_eq!(configuration.max_transitive_dependencies(), 7);
    let defaults = ResolverConfiguration::default();
    assert_eq!(defaults.max_transitive_dependencies(), 4096);
    assert_eq!(defaults.library_preference(), LibraryPreference::DynamicOnly);
    let resolver = NativeResolver::new(NativeInspector::with_default_limits(), configuration.clone()).unwrap();
    assert_eq!(resolver.configuration(), &configuration);
    assert_eq!(kind_label(ArtifactKind::StaticLibrary), "static_library");
    assert_eq!(kind_label(ArtifactKind::Framework), "framework");
}

#[test]
fn analyzer_built_from_default_parts_has_nonzero_limits() {
    let inspector = NativeInspector::new(InspectionLimits::default()).unwrap();
    let resolver = NativeResolver::new(inspector, ResolverConfiguration::default()).unwrap();
    let analyzer = NativeAnalyzer::new(resolver);
    assert_ne!(analyzer.resolver().inspector().limits().max_symbols, 0);
}

fn provider_id(byte: u8) -> linc::contract::ProviderId {
    linc::contract::ProviderId::parse(&format!("lprovider1_{}", format!("{byte:02x}").repeat(32))).unwrap()
}

#[test]
fn dependency_cycles_are_refused() {
    assert_eq!(first_unranked(&vec![vec![1], vec![2], vec![]]), None);
    assert_eq!(first_unranked(&vec![vec![1], vec![0]]), Some(0));
    assert_eq!(first_unranked(&vec![vec![], vec![1]]), Some(1));
    assert_eq!(first_unranked(&vec![]), None);

    let paths = vec![b"/a".to_vec(), b"/b".to_vec(), b"/c".to_vec()];
    let providers = vec![provider_id(1), provider_id(2), provider_id(3)];
    let chain = vec![vec![Some(provider_id(2))], vec![Some(provider_id(3)), None], vec![]];
    assert!(ensure_acyclic(&paths, &providers, &chain).is_ok());
    let cycle = vec![vec![Some(provider_id(2))], vec![Some(provider_id(3))], vec![Some(provider_id(2))]];
    match ensure_acyclic(&paths, &providers, &cycle) {
        Err(NativeError::DependencyCycle { path }) => assert_eq!(path, b"/b".to_vec()),
        other => panic!("unexpected {other:?}"),
    }
    let dangling = vec![vec![Some(provider_id(9))]];
    assert!(matches!(ensure_acyclic(&paths, &providers, &dangling), Err(NativeError::InvalidPolicy { .. })));
}
