use gradle_dependency_health_checker::catalog::parse_version_catalog;
use gradle_dependency_health_checker::error::AnalysisError;

#[test]
fn test_basic_catalog_parsing() {
    let catalog = parse_version_catalog(
        r#"
[versions]
test = "1.0.0"

[libraries]
test-lib = { group = "com.example", name = "test", version.ref = "test" }
"#,
    )
    .unwrap();
    assert!(catalog.versions.is_some());
    assert!(catalog.libraries.is_some());
}

#[test]
fn test_version_ref_resolution_for_library() {
    let catalog = parse_version_catalog(
        r#"
[versions]
kotlin = "1.8.0"
junit = "5.9.0"

[libraries]
kotlin-stdlib = { group = "org.jetbrains.kotlin", name = "kotlin-stdlib", version.ref = "kotlin" }
junit-api = { group = "org.junit.jupiter", name = "junit-jupiter-api", version.ref = "junit" }
direct-version = { group = "com.example", name = "direct", version = "2.0.0" }
"#,
    )
    .unwrap();

    // Test version.ref resolution
    let (group, name, version) = catalog.resolve_library_version("kotlin-stdlib").unwrap();
    assert_eq!(group, "org.jetbrains.kotlin");
    assert_eq!(name, "kotlin-stdlib");
    assert_eq!(version, "1.8.0");

    let (group, name, version) = catalog.resolve_library_version("junit-api").unwrap();
    assert_eq!(group, "org.junit.jupiter");
    assert_eq!(name, "junit-jupiter-api");
    assert_eq!(version, "5.9.0");

    // Test direct version
    let (group, name, version) = catalog.resolve_library_version("direct-version").unwrap();
    assert_eq!(group, "com.example");
    assert_eq!(name, "direct");
    assert_eq!(version, "2.0.0");
}

#[test]
fn test_version_ref_resolution_for_plugin() {
    let catalog = parse_version_catalog(
        r#"
[versions]
kotlin = "1.8.0"
spring = "3.0.0"

[plugins]
kotlin-jvm = { id = "org.jetbrains.kotlin.jvm", version.ref = "kotlin" }
spring-boot = { id = "org.springframework.boot", version = "2.7.0" }
java-library = { id = "java-library" }
application = { id = "application" }
"#,
    )
    .unwrap();

    // Test version.ref resolution for plugins
    let (id, version) = catalog.resolve_plugin_version("kotlin-jvm").unwrap();
    assert_eq!(id, "org.jetbrains.kotlin.jvm");
    assert_eq!(version, Some("1.8.0".to_string()));

    // Test direct version for plugins
    let (id, version) = catalog.resolve_plugin_version("spring-boot").unwrap();
    assert_eq!(id, "org.springframework.boot");
    assert_eq!(version, Some("2.7.0".to_string()));

    // Test plugins without version (core plugins)
    let (id, version) = catalog.resolve_plugin_version("java-library").unwrap();
    assert_eq!(id, "java-library");
    assert_eq!(version, None);

    let (id, version) = catalog.resolve_plugin_version("application").unwrap();
    assert_eq!(id, "application");
    assert_eq!(version, None);
}

#[test]
fn test_reference_and_literal_versions_resolve_alike() {
    // A library whose version goes through the versions section resolves to
    // the same coordinates as one spelling the same version literally.
    let catalog = parse_version_catalog(
        r#"
[versions]
okhttp = "4.12.0"

[libraries]
via-ref = { group = "com.squareup.okhttp3", name = "okhttp", version.ref = "okhttp" }
via-table-ref = { group = "com.squareup.okhttp3", name = "okhttp", version = { ref = "okhttp" } }
via-literal = { group = "com.squareup.okhttp3", name = "okhttp", version = "4.12.0" }
"#,
    )
    .unwrap();

    let a = catalog.resolve_library_version("via-ref").unwrap();
    let b = catalog.resolve_library_version("via-table-ref").unwrap();
    let c = catalog.resolve_library_version("via-literal").unwrap();
    assert_eq!(a, c);
    assert_eq!(b, c);
}

#[test]
fn test_unresolvable_aliases_are_not_errors() {
    let catalog = parse_version_catalog(
        r#"
[versions]
kotlin = "1.8.0"

[libraries]
missing-version = { group = "com.example", name = "x", version.ref = "absent" }
missing-group = { name = "x", version = "1.0" }
"#,
    )
    .unwrap();

    assert_eq!(catalog.resolve_library_version("unknown"), None);
    assert_eq!(catalog.resolve_library_version("missing-version"), None);
    assert_eq!(catalog.resolve_library_version("missing-group"), None);
    assert_eq!(catalog.resolve_plugin_version("unknown"), None);
}

#[test]
fn test_malformed_catalog_document_is_an_error() {
    // an entry of a recognized section in no accepted shape
    let result = parse_version_catalog(
        r#"
[versions]
kotlin = [1, 2]
"#,
    );
    assert!(matches!(result, Err(AnalysisError::TomlParsing(_))));

    // a duplicate key in a recognized section
    let result = parse_version_catalog(
        r#"
[versions]
kotlin = "1.8.0"
kotlin = "1.9.0"
"#,
    );
    assert!(matches!(result, Err(AnalysisError::TomlParsing(_))));
}

#[test]
fn test_unknown_sections_are_ignored() {
    let catalog = parse_version_catalog(
        r#"
[versions]
kotlin = "1.8.0"

[bundles]
everything = ["a", "b"]
"#,
    )
    .unwrap();
    assert!(catalog.versions.is_some());
    assert!(catalog.libraries.is_none());
    assert!(catalog.plugins.is_none());
}

#[test]
fn test_repeated_recognized_section_is_an_error() {
    let result = parse_version_catalog(
        r#"
[versions]
kotlin = "1.8.0"

[versions]
spring = "2.7.0"
"#,
    );
    assert!(matches!(result, Err(AnalysisError::TomlParsing(_))));
}
