use gradle_dependency_health_checker::analyzer::perform_complete_analysis;
use gradle_dependency_health_checker::catalog::{parse_version_catalog, VersionCatalog};
use gradle_dependency_health_checker::extract::parse_plugins_from_file;
use gradle_dependency_health_checker::model::PluginLocation;

fn no_catalogs() -> Vec<(String, VersionCatalog)> {
    Vec::new()
}

fn plugin_bucket<'a>(
    m: &'a Vec<(String, Vec<PluginLocation>)>,
    key: &str,
) -> Option<&'a Vec<PluginLocation>> {
    for (k, v) in m {
        if k == key {
            return Some(v);
        }
    }
    None
}

#[test]
fn test_plugins_block_parsing() {
    let content = r#"
plugins {
    id 'java'
    id 'org.springframework.boot' version '2.7.0'
    id("kotlin-jvm") version "1.8.0"
    id("application")
}

apply plugin: 'jacoco'

dependencies {
    implementation 'org.springframework:spring-core:5.3.0'
}
"#;
    let plugins = parse_plugins_from_file("app/build.gradle", content, &no_catalogs());

    assert_eq!(plugins.len(), 5);

    // Check plugins block entries
    let java_plugin = plugins.iter().find(|p| p.plugin.id == "java").unwrap();
    assert_eq!(java_plugin.plugin.version, None);

    let spring_plugin = plugins.iter().find(|p| p.plugin.id == "org.springframework.boot").unwrap();
    assert_eq!(spring_plugin.plugin.version, Some("2.7.0".to_string()));

    let kotlin_plugin = plugins.iter().find(|p| p.plugin.id == "kotlin-jvm").unwrap();
    assert_eq!(kotlin_plugin.plugin.version, Some("1.8.0".to_string()));

    let app_plugin = plugins.iter().find(|p| p.plugin.id == "application").unwrap();
    assert_eq!(app_plugin.plugin.version, None);

    // Check apply plugin entry
    let jacoco_plugin = plugins.iter().find(|p| p.plugin.id == "jacoco").unwrap();
    assert_eq!(jacoco_plugin.plugin.version, None);
}

#[test]
fn test_kotlin_dsl_plugin_parsing() {
    let content = r#"
plugins {
    id("org.springframework.boot") version "2.7.0"
    id("java-library")
    application
}

apply(plugin = "jacoco")

dependencies {
    implementation("org.springframework:spring-core:5.3.0")
}
"#;
    let plugins = parse_plugins_from_file("app/build.gradle.kts", content, &no_catalogs());

    assert_eq!(plugins.len(), 4);

    let spring_plugin = plugins.iter().find(|p| p.plugin.id == "org.springframework.boot").unwrap();
    assert_eq!(spring_plugin.plugin.version, Some("2.7.0".to_string()));

    let java_lib_plugin = plugins.iter().find(|p| p.plugin.id == "java-library").unwrap();
    assert_eq!(java_lib_plugin.plugin.version, None);

    let app_plugin = plugins.iter().find(|p| p.plugin.id == "application").unwrap();
    assert_eq!(app_plugin.plugin.version, None);

    let jacoco_plugin = plugins.iter().find(|p| p.plugin.id == "jacoco").unwrap();
    assert_eq!(jacoco_plugin.plugin.version, None);
}

#[test]
fn test_version_catalog_plugin_parsing() {
    let catalog_content = r#"
[versions]
kotlin = "1.8.0"
spring = "2.7.0"

[plugins]
kotlinJvm = { id = "org.jetbrains.kotlin.jvm", version.ref = "kotlin" }
springBoot = { id = "org.springframework.boot", version.ref = "spring" }
javaLibrary = { id = "java-library" }
"#;
    let catalog = parse_version_catalog(catalog_content).unwrap();
    let catalogs = vec![("libs.versions.toml".to_string(), catalog)];

    let content = r#"
plugins {
    alias(libs.plugins.kotlinJvm)
    alias(libs.plugins.springBoot)
    alias(libs.plugins.javaLibrary)
}

dependencies {
    implementation 'org.springframework:spring-core:5.3.0'
}
"#;
    let plugins = parse_plugins_from_file("app/build.gradle", content, &catalogs);

    assert_eq!(plugins.len(), 3);

    let kotlin_plugin = plugins.iter().find(|p| p.plugin.id == "org.jetbrains.kotlin.jvm").unwrap();
    assert_eq!(kotlin_plugin.plugin.version, Some("1.8.0".to_string()));

    let spring_plugin = plugins.iter().find(|p| p.plugin.id == "org.springframework.boot").unwrap();
    assert_eq!(spring_plugin.plugin.version, Some("2.7.0".to_string()));

    let java_lib_plugin = plugins.iter().find(|p| p.plugin.id == "java-library").unwrap();
    assert_eq!(java_lib_plugin.plugin.version, None);
}

#[test]
fn test_duplicate_plugin_analysis() {
    let app_content = r#"
plugins {
    id 'java'
    id 'org.springframework.boot' version '2.7.0'
}
"#;
    let lib_content = r#"
plugins {
    id 'java'
    id 'java-library'
}
"#;
    let build_files = vec![
        ("app/build.gradle".to_string(), app_content.to_string()),
        ("lib/build.gradle".to_string(), lib_content.to_string()),
    ];
    let analysis = perform_complete_analysis(&build_files, &Vec::new(), 2, 2).unwrap();

    // Should detect java plugin as duplicate across modules
    assert_eq!(analysis.plugin_analysis.duplicate_plugins.len(), 1);
    assert!(plugin_bucket(&analysis.plugin_analysis.duplicate_plugins, "java").is_some());

    let java_duplicates = plugin_bucket(&analysis.plugin_analysis.duplicate_plugins, "java").unwrap();
    assert_eq!(java_duplicates.len(), 2);
}

#[test]
fn test_arbitrary_identifiers_are_not_shorthand_plugins() {
    let content = r#"
plugins {
    application
    somethingElse
    mavenCentral
}
"#;
    let plugins = parse_plugins_from_file("app/build.gradle", content, &no_catalogs());
    // only the whitelisted shorthand is recognized
    assert_eq!(plugins.len(), 1);
    assert_eq!(plugins[0].plugin.id, "application");
}

#[test]
fn test_kotlin_shorthand_plugin_with_version() {
    let content = r#"
plugins {
    kotlin("jvm") version "1.9.10"
}
"#;
    let plugins = parse_plugins_from_file("app/build.gradle.kts", content, &no_catalogs());
    assert_eq!(plugins.len(), 1);
    assert_eq!(plugins[0].plugin.id, "org.jetbrains.kotlin.jvm");
    assert_eq!(plugins[0].plugin.version, Some("1.9.10".to_string()));
}
