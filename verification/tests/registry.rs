use nlp_stack::cli::{package_surface, parse_operation, TextCoreOperation};
use nlp_stack::stats::{analyze_text_statistics, TextStatisticsRequest};
use nlp_stack::registry::{
    namespace_operation, registry_operations, registry_package_surface, resolve_operation,
    route_request, validate_package_surfaces, PackageSurface, RegistryError, RegistryRoute,
    SurfaceOperation,
};

fn operation(id: &str, name: &str) -> SurfaceOperation {
    SurfaceOperation {
        id: id.to_string(),
        name: name.to_string(),
        description: name.to_string(),
    }
}

fn surface(library: &str, operations: Vec<SurfaceOperation>) -> PackageSurface {
    PackageSurface {
        library: library.to_string(),
        version: "0.1.0".to_string(),
        operations,
    }
}

#[test]
fn validation_rejects_a_duplicate_namespaced_operation() {
    let duplicate = surface(
        "duplicate",
        vec![operation("same", "Same"), operation("same", "Same again")],
    );
    let error = validate_package_surfaces(&[duplicate]).unwrap_err();

    assert_eq!(
        error,
        RegistryError::DuplicateOperation("duplicate/same".to_string())
    );
}

#[test]
fn validation_reserves_the_namespace_delimiter() {
    let invalid = surface("invalid/library", Vec::new());

    assert!(matches!(
        validate_package_surfaces(&[invalid]),
        Err(RegistryError::ReservedNamespaceDelimiter {
            field: "library",
            ..
        })
    ));
}

#[test]
fn namespacing_joins_library_and_operation_with_a_slash() {
    assert_eq!(
        namespace_operation("moenarch-text-core", "text.statistics"),
        "moenarch-text-core/text.statistics"
    );
    assert_eq!(namespace_operation("", ""), "/");
}

#[test]
fn distinct_libraries_and_operations_validate() {
    let surfaces = [
        surface("alpha", vec![operation("one", "One"), operation("two", "Two")]),
        surface("beta", vec![operation("one", "One")]),
    ];
    assert_eq!(validate_package_surfaces(&surfaces), Ok(()));
    assert_eq!(validate_package_surfaces(&[]), Ok(()));
}

#[test]
fn every_registry_error_is_reachable() {
    assert_eq!(
        validate_package_surfaces(&[surface("", Vec::new())]),
        Err(RegistryError::EmptyLibrary)
    );
    assert_eq!(
        validate_package_surfaces(&[surface("a", Vec::new()), surface("a", Vec::new())]),
        Err(RegistryError::DuplicateLibrary("a".to_string()))
    );
    assert_eq!(
        validate_package_surfaces(&[surface("a", vec![operation("", "Empty")])]),
        Err(RegistryError::EmptyOperation {
            library: "a".to_string()
        })
    );
    assert_eq!(
        validate_package_surfaces(&[surface("a", vec![operation("x/y", "Nested")])]),
        Err(RegistryError::ReservedNamespaceDelimiter {
            field: "operation",
            value: "x/y".to_string()
        })
    );
}

#[test]
fn first_problem_in_order_is_reported() {
    let surfaces = [
        surface("a", vec![operation("one", "One"), operation("one", "Again")]),
        surface("", Vec::new()),
    ];
    assert_eq!(
        validate_package_surfaces(&surfaces),
        Err(RegistryError::DuplicateOperation("a/one".to_string()))
    );
}

fn registered() -> Vec<PackageSurface> {
    vec![
        surface(
            "moenarch-text-core",
            vec![operation("describe", "Describe"), operation("text.statistics", "Statistics")],
        ),
        surface("moenarch-text-index", vec![operation("index.search", "Search")]),
    ]
}

#[test]
fn namespaced_requests_reach_the_owning_library() {
    let surfaces = registered();
    assert_eq!(
        resolve_operation(&surfaces, "moenarch-text-core/text.statistics"),
        Some((0, "text.statistics".to_string()))
    );
    assert_eq!(
        resolve_operation(&surfaces, "moenarch-text-index/index.search"),
        Some((1, "index.search".to_string()))
    );
}

#[test]
fn unknown_or_unnamespaced_requests_are_not_routed() {
    let surfaces = registered();
    assert_eq!(resolve_operation(&surfaces, "text.statistics"), None);
    assert_eq!(resolve_operation(&surfaces, "moenarch-text-core/text.unknown"), None);
    assert_eq!(resolve_operation(&surfaces, "unknown/text.statistics"), None);
    assert_eq!(resolve_operation(&surfaces, "moenarch-text-core/"), None);
}

#[test]
fn registry_lists_its_own_operation_first_then_namespaced_ones() {
    let surfaces = registered();
    assert_eq!(validate_package_surfaces(&surfaces), Ok(()));
    let operations = registry_operations(&surfaces, operation("registry.describe", "Inspect"));
    let ids = operations.iter().map(|found| found.id.as_str()).collect::<Vec<_>>();
    assert_eq!(
        ids,
        vec![
            "registry.describe",
            "moenarch-text-core/describe",
            "moenarch-text-core/text.statistics",
            "moenarch-text-index/index.search",
        ]
    );
    assert_eq!(operations[2].name, "Statistics");
    for id in &ids[1..] {
        assert!(resolve_operation(&surfaces, id).is_some());
    }
}

#[test]
fn registry_errors_read_as_sentences() {
    assert_eq!(
        RegistryError::DuplicateOperation("a/b".to_string()).message(),
        "duplicate namespaced operation `a/b`"
    );
    assert_eq!(
        RegistryError::ReservedNamespaceDelimiter {
            field: "library",
            value: "x/y".to_string()
        }
        .message(),
        "library `x/y` contains the reserved `/` delimiter"
    );
    assert_eq!(
        RegistryError::EmptyLibrary.message(),
        "package surface has an empty library name"
    );
}

#[test]
fn requests_are_routed_to_the_owning_library() {
    let surfaces = vec![
        surface("moenarch-text-core", vec![operation("text.statistics", "Statistics")]),
        surface("moenarch-text-index", vec![operation("index.search", "Search")]),
    ];
    assert_eq!(route_request(&surfaces, "registry.describe"), Ok(RegistryRoute::Describe));
    assert_eq!(
        route_request(&surfaces, "moenarch-text-index/index.search"),
        Ok(RegistryRoute::Forward { surface: 1, operation: "index.search".to_string() })
    );
    assert_eq!(route_request(&surfaces, "moenarch-text-index/text.statistics"), Ok(RegistryRoute::Unsupported));
    assert_eq!(route_request(&surfaces, "text.statistics"), Ok(RegistryRoute::Unsupported));
    let broken = vec![surface("", vec![])];
    assert_eq!(route_request(&broken, "registry.describe"), Err(RegistryError::EmptyLibrary));
}

#[test]
fn the_registry_surface_lists_describe_then_namespaced_operations() {
    let surfaces = vec![
        surface("moenarch-text-core", vec![operation("text.statistics", "Statistics")]),
        surface("moenarch-text-index", vec![operation("index.search", "Search")]),
    ];
    let registry = registry_package_surface(&surfaces, "nlp-package-registry", "0.2.0");
    assert_eq!(registry.library, "nlp-package-registry");
    assert_eq!(registry.version, "0.2.0");
    let ids: Vec<&str> = registry.operations.iter().map(|operation| operation.id.as_str()).collect();
    assert_eq!(
        ids,
        vec!["registry.describe", "moenarch-text-core/text.statistics", "moenarch-text-index/index.search"]
    );
    assert_eq!(registry.operations[0].name, "Inspect registered NLP package surfaces");
}

fn registered_surfaces() -> Vec<PackageSurface> {
    vec![
        package_surface("0.1.0"),
        surface("moenarch-text-retrieval", vec![operation("retrieval.search", "Search")]),
    ]
}

#[test]
fn registry_namespaces_every_library_operation_deterministically() {
    let surfaces = registered_surfaces();
    assert_eq!(validate_package_surfaces(&surfaces), Ok(()));
    let registry = registry_package_surface(&surfaces, "moenarch-nlp-package-registry", "0.1.0");
    let ids: Vec<&str> = registry.operations.iter().map(|operation| operation.id.as_str()).collect();

    assert_eq!(registry.library, "moenarch-nlp-package-registry");
    assert_eq!(ids.first(), Some(&"registry.describe"));
    assert!(ids.contains(&"moenarch-text-core/text.statistics"));
    assert!(ids.contains(&"moenarch-text-retrieval/retrieval.search"));
    let mut unique = ids.clone();
    unique.sort_unstable();
    unique.dedup();
    assert_eq!(ids.len(), unique.len());
    assert_eq!(registry, registry_package_surface(&surfaces, "moenarch-nlp-package-registry", "0.1.0"));
}

#[test]
fn registry_forwards_to_the_library_owned_runner() {
    let surfaces = registered_surfaces();
    let route = route_request(&surfaces, "moenarch-text-core/text.statistics").unwrap();
    let RegistryRoute::Forward { surface, operation } = route else {
        panic!("the request is forwarded");
    };
    assert_eq!(surfaces[surface].library, "moenarch-text-core");
    assert_eq!(parse_operation(&operation), Some(TextCoreOperation::Statistics));
    let result = analyze_text_statistics(TextStatisticsRequest { text: "one two".to_string() });
    assert_eq!(result.word_count, 2);
}

#[test]
fn registry_rejects_an_unknown_or_unnamespaced_operation() {
    let surfaces = registered_surfaces();
    assert_eq!(route_request(&surfaces, "text.statistics"), Ok(RegistryRoute::Unsupported));
}
