use gradle_dependency_health_checker::catalog::{parse_version_catalog, VersionCatalog};
use gradle_dependency_health_checker::extract::parse_dependencies_from_file;
use gradle_dependency_health_checker::model::DependencySourceType;

fn no_catalogs() -> Vec<(String, VersionCatalog)> {
    Vec::new()
}

#[test]
fn test_basic_dependency_parsing() {
    let content = r#"
dependencies {
    implementation 'com.example:test:1.0.0'
}
"#;
    let dependencies = parse_dependencies_from_file("app/build.gradle", content, &no_catalogs());
    assert!(!dependencies.is_empty());
}

#[test]
fn test_multiplatform_sourceset_parsing() {
    let content = r#"
sourceSets {
    commonMain.dependencies {
        implementation("org.jetbrains.kotlinx:kotlinx-coroutines-core:1.7.3")
        api("io.ktor:ktor-client-core:2.3.5")
    }

    commonTest {
        dependencies {
            implementation("kotlin-test")
        }
    }

    androidMain {
        dependencies {
            implementation("androidx.core:core-ktx:1.13.0")
        }
    }

    iosMain.dependencies {
        implementation("io.ktor:ktor-client-darwin:2.3.5")
    }
}

dependencies {
    implementation("com.google.code.gson:gson:2.10.1")
}
"#;
    let dependencies = parse_dependencies_from_file(
        "multiplatform/build.gradle",
        content,
        &no_catalogs(),
    );

    // Should find at least 4 dependencies
    assert!(
        dependencies.len() >= 4,
        "Expected at least 4 dependencies, found {}",
        dependencies.len()
    );

    let configs: Vec<&String> = dependencies.iter().map(|d| &d.configuration).collect();

    // Should have main dependencies (regular dependencies block)
    assert!(
        configs.iter().any(|c| c == &"implementation"),
        "Should have main implementation dependencies"
    );

    // Should have source set specific dependencies
    assert!(
        configs.iter().any(|c| c.contains("-commonMain")),
        "Should have commonMain dependencies"
    );
}

#[test]
fn test_mixed_libs_and_string_dependencies() {
    let catalog_content = r#"[versions]
kotlin = "1.9.10"
kotlinx-coroutines = "1.7.3"
ktor = "2.3.5"

[libraries]
kotlinx-coroutines-core = { group = "org.jetbrains.kotlinx", name = "kotlinx-coroutines-core", version.ref = "kotlinx-coroutines" }
ktor-client-core = { group = "io.ktor", name = "ktor-client-core", version.ref = "ktor" }
"#;
    let catalog = parse_version_catalog(catalog_content).unwrap();
    let catalogs = vec![("gradle/libs.versions.toml".to_string(), catalog)];

    let content = r#"
sourceSets {
    commonMain.dependencies {
        implementation(libs.kotlinx.coroutines.core)
        api(libs.ktor.client.core)
        implementation("com.google.code.gson:gson:2.10.1")
    }

    commonTest {
        dependencies {
            implementation("junit:junit:4.13.2")
            implementation("kotlin-test")
        }
    }
}

dependencies {
    implementation(libs.ktor.client.core)
    implementation("com.squareup.retrofit2:retrofit:2.9.0")
}
"#;
    let dependencies = parse_dependencies_from_file("mixed/build.gradle", content, &catalogs);

    // Should find dependencies from both libs and string formats
    assert!(
        dependencies.len() >= 6,
        "Expected at least 6 dependencies, found {}",
        dependencies.len()
    );

    // Check that we have both direct and version catalog dependencies
    let has_direct = dependencies
        .iter()
        .any(|d| matches!(d.source_type, DependencySourceType::Direct));
    let has_catalog = dependencies
        .iter()
        .any(|d| matches!(d.source_type, DependencySourceType::VersionCatalog(_)));

    assert!(has_direct, "Should have direct string dependencies");
    assert!(has_catalog, "Should have version catalog dependencies");

    // Check for specific expected dependencies
    let dep_strings: Vec<String> = dependencies
        .iter()
        .map(|d| {
            format!(
                "{}:{}:{}",
                d.dependency.group,
                d.dependency.artifact,
                d.dependency.version.as_ref().unwrap_or(&"None".to_string())
            )
        })
        .collect();

    // Should find gson (string dependency)
    assert!(dep_strings.iter().any(|s| s.contains("gson")), "Should find gson dependency");

    // Should find kotlinx-coroutines-core (from catalog)
    assert!(
        dep_strings.iter().any(|s| s.contains("kotlinx-coroutines-core")),
        "Should find kotlinx-coroutines-core dependency"
    );

    // Should find ktor-client-core (from catalog) - might be duplicate
    let ktor_core_count = dep_strings.iter().filter(|s| s.contains("ktor-client-core")).count();
    assert!(ktor_core_count >= 1, "Should find at least one ktor-client-core dependency");

    // Test source set suffixes
    let configs: Vec<&String> = dependencies.iter().map(|d| &d.configuration).collect();
    assert!(
        configs.iter().any(|c| c.contains("-commonMain")),
        "Should have commonMain dependencies"
    );
    assert!(
        configs.iter().any(|c| c.contains("-commonTest")),
        "Should have commonTest dependencies"
    );
}

#[test]
fn test_project_dependencies_are_ignored() {
    let content = r#"
dependencies {
    // External dependencies (should be analyzed)
    implementation("com.google.code.gson:gson:2.10.1")
    api("io.ktor:ktor-client-core:2.3.5")

    // Project dependencies (should be ignored)
    implementation(project(":core"))
    api(project(":shared"))
    testImplementation(project(":test-utils"))

    // Projects accessor (should be ignored)
    implementation(projects.data.database)
    api(projects.ui.components)

    // Mixed case
    implementation("androidx.core:core-ktx:1.13.0")
    implementation(project(":another-module"))
}
"#;
    let dependencies = parse_dependencies_from_file(
        "project-deps/build.gradle",
        content,
        &no_catalogs(),
    );

    // Should only find external dependencies, not project dependencies
    assert_eq!(
        dependencies.len(),
        3,
        "Expected 3 external dependencies, found {}",
        dependencies.len()
    );

    let dep_artifacts: Vec<&String> = dependencies.iter().map(|d| &d.dependency.artifact).collect();

    assert!(dep_artifacts.contains(&&"gson".to_string()), "Should find gson dependency");
    assert!(
        dep_artifacts.contains(&&"ktor-client-core".to_string()),
        "Should find ktor-client-core dependency"
    );
    assert!(dep_artifacts.contains(&&"core-ktx".to_string()), "Should find core-ktx dependency");

    // Check that project dependencies are NOT included
    assert!(
        !dep_artifacts.iter().any(|&artifact| artifact == "core" || artifact == "shared"
            || artifact == "test-utils" || artifact == "another-module" || artifact == "database"
            || artifact == "components"),
        "Should not include project dependencies"
    );
}

#[test]
fn test_kotlin_sourceset_dependencies() {
    let content = r#"
kotlin {
    sourceSets {
        commonMain.dependencies {
            implementation("org.jetbrains.kotlinx:kotlinx-coroutines-core:1.7.3")
        }
    }
}

dependencies {
    commonMainImplementation("androidx.core:core-ktx:1.13.0")
}
"#;
    let dependencies = parse_dependencies_from_file(
        "kotlin-mp/build.gradle",
        content,
        &no_catalogs(),
    );

    assert!(
        dependencies.len() >= 1,
        "Expected at least 1 dependency, found {}",
        dependencies.len()
    );
}

#[test]
fn test_compose_accessor_dependencies() {
    let content = r#"
kotlin {
    sourceSets {
        commonMain.dependencies {
            implementation(compose.runtime)
            implementation(compose.ui)
        }
    }
}
"#;
    let dependencies = parse_dependencies_from_file(
        "compose-test/build.gradle",
        content,
        &no_catalogs(),
    );

    // Should find compose dependencies
    assert!(
        dependencies.len() >= 2,
        "Expected at least 2 compose dependencies, found {}",
        dependencies.len()
    );

    // Check that compose dependencies are found
    let has_compose = dependencies.iter().any(|d| d.dependency.group.contains("compose"));
    assert!(has_compose, "Should find compose dependencies");
}

#[test]
fn test_map_style_dependency_parsing() {
    let content = r#"
dependencies {
    implementation(group: 'com.example', name: 'widget', version: '1.2.3')
    testImplementation(name: "probe", group: "org.sample", version: "0.9")
}
"#;
    let dependencies = parse_dependencies_from_file("map/build.gradle", content, &no_catalogs());

    assert_eq!(dependencies.len(), 2);
    assert_eq!(dependencies[0].dependency.group, "com.example");
    assert_eq!(dependencies[0].dependency.artifact, "widget");
    assert_eq!(dependencies[0].dependency.version, Some("1.2.3".to_string()));
    assert_eq!(dependencies[0].configuration, "implementation");
    assert_eq!(dependencies[1].dependency.group, "org.sample");
    assert_eq!(dependencies[1].dependency.artifact, "probe");
    assert_eq!(dependencies[1].dependency.version, Some("0.9".to_string()));
    assert_eq!(dependencies[1].configuration, "testImplementation");
}

#[test]
fn test_bare_dotted_alias_is_hyphenated_for_lookup() {
    let catalog_content = r#"[versions]
kotlinx-coroutines = "1.7.3"

[libraries]
kotlinx-coroutines-core = { group = "org.jetbrains.kotlinx", name = "kotlinx-coroutines-core", version.ref = "kotlinx-coroutines" }
"#;
    let catalog = parse_version_catalog(catalog_content).unwrap();
    let catalogs = vec![("gradle/libs.versions.toml".to_string(), catalog)];

    let content = r#"
dependencies {
    implementation libs.kotlinx.coroutines.core
}
"#;
    let dependencies = parse_dependencies_from_file("bare/build.gradle", content, &catalogs);
    assert_eq!(dependencies.len(), 1);
    assert_eq!(dependencies[0].dependency.group, "org.jetbrains.kotlinx");
    assert_eq!(dependencies[0].dependency.artifact, "kotlinx-coroutines-core");
    assert_eq!(dependencies[0].dependency.version, Some("1.7.3".to_string()));
    // the provenance keeps the alias as written
    assert!(matches!(
        &dependencies[0].source_type,
        DependencySourceType::VersionCatalog(r) if r == "kotlinx.coroutines.core"
    ));
}
