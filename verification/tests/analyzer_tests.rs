use gradle_dependency_health_checker::analyzer::{analyze_duplicates, DuplicateAnalysis};
use gradle_dependency_health_checker::model::DependencySourceType;
use gradle_dependency_health_checker::catalog::{parse_version_catalog, VersionCatalog};
use gradle_dependency_health_checker::extract::{load_all_dependencies, parse_dependencies_from_file};
use gradle_dependency_health_checker::model::DependencyLocation;

fn catalogs_from(content: &str) -> Vec<(String, VersionCatalog)> {
    let catalog = parse_version_catalog(content).unwrap();
    vec![("gradle/libs.versions.toml".to_string(), catalog)]
}

fn bucket<'a>(
    m: &'a Vec<(String, Vec<DependencyLocation>)>,
    key: &str,
) -> Option<&'a Vec<DependencyLocation>> {
    for (k, v) in m {
        if k == key {
            return Some(v);
        }
    }
    None
}

fn analyze(files: &[(&str, &str)], catalogs: &Vec<(String, VersionCatalog)>) -> DuplicateAnalysis {
    let files: Vec<(String, String)> = files
        .iter()
        .map(|(p, c)| (p.to_string(), c.to_string()))
        .collect();
    let deps = load_all_dependencies(&files, catalogs);
    analyze_duplicates(&deps)
}

#[test]
fn test_detect_version_conflicts() {
    let app_build_gradle = r#"
dependencies {
    implementation 'com.squareup.okhttp3:okhttp:4.10.0'
    implementation 'com.google.code.gson:gson:2.10.1'
}
"#;
    let lib_build_gradle = r#"
dependencies {
    implementation 'com.squareup.okhttp3:okhttp:4.12.0'
    implementation 'com.google.code.gson:gson:2.10.1'
}
"#;
    let analysis = analyze(
        &[("app/build.gradle", app_build_gradle), ("lib/build.gradle", lib_build_gradle)],
        &Vec::new(),
    );

    assert_eq!(analysis.version_conflicts.len(), 1);
    assert!(bucket(&analysis.version_conflicts, "com.squareup.okhttp3:okhttp").is_some());

    let okhttp_conflicts = bucket(&analysis.version_conflicts, "com.squareup.okhttp3:okhttp").unwrap();
    assert_eq!(okhttp_conflicts.len(), 2);

    assert_eq!(analysis.regular_duplicates.len(), 1);
    assert!(bucket(&analysis.regular_duplicates, "com.google.code.gson:gson").is_some());
}

#[test]
fn test_detect_mixed_catalog_and_direct_conflicts() {
    let catalog_content = r#"
[versions]
okhttp = "4.12.0"

[libraries]
okhttp = { group = "com.squareup.okhttp3", name = "okhttp", version.ref = "okhttp" }
"#;
    let app_build_gradle = r#"
dependencies {
    implementation libs.okhttp
}
"#;
    let lib_build_gradle = r#"
dependencies {
    implementation 'com.squareup.okhttp3:okhttp:4.10.0'
}
"#;
    let catalogs = catalogs_from(catalog_content);
    let analysis = analyze(
        &[("app/build.gradle", app_build_gradle), ("lib/build.gradle", lib_build_gradle)],
        &catalogs,
    );

    assert_eq!(analysis.version_conflicts.len(), 1);
    assert!(bucket(&analysis.version_conflicts, "com.squareup.okhttp3:okhttp").is_some());

    let conflicts = bucket(&analysis.version_conflicts, "com.squareup.okhttp3:okhttp").unwrap();
    assert_eq!(conflicts.len(), 2);

    let catalog_dep = conflicts
        .iter()
        .find(|d| matches!(d.source_type, DependencySourceType::VersionCatalog(_)))
        .unwrap();
    let direct_dep = conflicts
        .iter()
        .find(|d| matches!(d.source_type, DependencySourceType::Direct))
        .unwrap();

    assert_eq!(catalog_dep.dependency.version, Some("4.12.0".to_string()));
    assert_eq!(direct_dep.dependency.version, Some("4.10.0".to_string()));
}

#[test]
fn test_ignore_same_file_duplicates() {
    let build_gradle = r#"
dependencies {
    implementation 'com.squareup.okhttp3:okhttp:4.12.0'
    testImplementation 'com.squareup.okhttp3:okhttp:4.12.0'
}
"#;
    let analysis = analyze(&[("build.gradle", build_gradle)], &Vec::new());

    assert_eq!(analysis.version_conflicts.len(), 0);
    assert_eq!(analysis.regular_duplicates.len(), 0);
}

#[test]
fn test_no_duplicates_single_dependency() {
    let build_gradle = r#"
dependencies {
    implementation 'com.squareup.okhttp3:okhttp:4.12.0'
}
"#;
    let analysis = analyze(&[("build.gradle", build_gradle)], &Vec::new());

    assert_eq!(analysis.version_conflicts.len(), 0);
    assert_eq!(analysis.regular_duplicates.len(), 0);
}

#[test]
fn test_complex_scenario_multiple_conflicts_and_duplicates() {
    let catalog_content = r#"
[versions]
okhttp = "4.12.0"
gson = "2.10.1"

[libraries]
okhttp = { group = "com.squareup.okhttp3", name = "okhttp", version.ref = "okhttp" }
gson = { group = "com.google.code.gson", name = "gson", version.ref = "gson" }
"#;
    let app_build_gradle = r#"
dependencies {
    implementation libs.okhttp
    implementation libs.gson
}
"#;
    let lib_build_gradle = r#"
dependencies {
    implementation 'com.squareup.okhttp3:okhttp:4.12.0'
    implementation 'com.google.code.gson:gson:2.10.1'
}
"#;
    let feature_build_gradle = r#"
dependencies {
    implementation 'com.squareup.okhttp3:okhttp:4.10.0'
    implementation 'com.google.code.gson:gson:2.10.1'
}
"#;
    let catalogs = catalogs_from(catalog_content);
    let analysis = analyze(
        &[
            ("app/build.gradle", app_build_gradle),
            ("lib/build.gradle", lib_build_gradle),
            ("feature/build.gradle", feature_build_gradle),
        ],
        &catalogs,
    );

    assert_eq!(analysis.version_conflicts.len(), 1);
    assert!(bucket(&analysis.version_conflicts, "com.squareup.okhttp3:okhttp").is_some());

    let okhttp_conflicts = bucket(&analysis.version_conflicts, "com.squareup.okhttp3:okhttp").unwrap();
    assert_eq!(okhttp_conflicts.len(), 3);

    assert_eq!(analysis.regular_duplicates.len(), 1);
    assert!(bucket(&analysis.regular_duplicates, "com.google.code.gson:gson").is_some());

    let gson_duplicates = bucket(&analysis.regular_duplicates, "com.google.code.gson:gson").unwrap();
    assert_eq!(gson_duplicates.len(), 3);
}

#[test]
fn test_single_file_parse_produces_locations() {
    let deps = parse_dependencies_from_file(
        "app/build.gradle",
        "dependencies {\n    implementation 'a:b:1.0'\n}\n",
        &Vec::new(),
    );
    assert_eq!(deps.len(), 1);
    assert_eq!(deps[0].dependency.group, "a");
    assert_eq!(deps[0].dependency.artifact, "b");
    assert_eq!(deps[0].dependency.version, Some("1.0".to_string()));
    assert_eq!(deps[0].file_path, "app/build.gradle");
    assert_eq!(deps[0].line_number, 2);
    assert_eq!(deps[0].configuration, "implementation");
}
