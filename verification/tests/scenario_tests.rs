use gradle_dependency_health_checker::analyzer::perform_complete_analysis;
use gradle_dependency_health_checker::bundles::find_dependency_bundles;
use gradle_dependency_health_checker::config::BundleNamePatterns;
use gradle_dependency_health_checker::extract::{load_all_dependencies, parse_dependencies_from_file};
use gradle_dependency_health_checker::model::DependencyLocation;

fn bucket<'a>(
    m: &'a Vec<(String, Vec<DependencyLocation>)>,
    key: &str,
) -> Option<&'a Vec<DependencyLocation>> {
    for (k, v) in m {
        if k == key {
            return Some(v);
        }
    }
    None
}

#[test]
fn test_bundle_subset_pruning() {
    // Two modules share exactly three dependencies; every two-element subset
    // is served by the same two modules as the full triple and must be
    // pruned in its favor.
    let module = r#"
dependencies {
    implementation 'g:a:1.0'
    implementation 'g:b:1.0'
    implementation 'g:c:1.0'
}
"#;
    let files = vec![
        ("m1/build.gradle".to_string(), module.to_string()),
        ("m2/build.gradle".to_string(), module.to_string()),
    ];
    let deps = load_all_dependencies(&files, &Vec::new());
    let analysis = find_dependency_bundles(&deps, 2, 2);

    assert_eq!(analysis.recommended_bundles.len(), 1);
    assert_eq!(analysis.total_bundles_found, 1);
    let b = &analysis.recommended_bundles[0];
    assert_eq!(b.dependencies, vec!["g:a".to_string(), "g:b".to_string(), "g:c".to_string()]);
    assert_eq!(b.bundle_size, 3);
    assert_eq!(b.module_count, 2);
}

#[test]
fn test_bundle_non_pruning_across_module_sets() {
    // The pair {x, y} is shared by three modules while the triple {x, y, z}
    // is shared by only two: their module sets differ, so both survive.
    let full = r#"
dependencies {
    implementation 'g:x:1.0'
    implementation 'g:y:1.0'
    implementation 'g:z:1.0'
}
"#;
    let partial = r#"
dependencies {
    implementation 'g:x:1.0'
    implementation 'g:y:1.0'
}
"#;
    let files = vec![
        ("m1/build.gradle".to_string(), full.to_string()),
        ("m2/build.gradle".to_string(), full.to_string()),
        ("m3/build.gradle".to_string(), partial.to_string()),
    ];
    let deps = load_all_dependencies(&files, &Vec::new());
    let analysis = find_dependency_bundles(&deps, 2, 2);

    let pair = analysis
        .recommended_bundles
        .iter()
        .find(|b| b.dependencies == vec!["g:x".to_string(), "g:y".to_string()]);
    let triple = analysis.recommended_bundles.iter().find(|b| {
        b.dependencies == vec!["g:x".to_string(), "g:y".to_string(), "g:z".to_string()]
    });
    let pair = pair.expect("the pair shared by all three modules must survive");
    let triple = triple.expect("the full triple must survive");
    assert_eq!(pair.module_count, 3);
    assert_eq!(triple.module_count, 2);
}

#[test]
fn test_bundle_priority_score_formula() {
    // Two dependencies over two modules, all declared under
    // `implementation`: 20*2 + 10*2 + 5 in half-point units.
    let module = r#"
dependencies {
    implementation 'g:a:1.0'
    implementation 'g:b:1.0'
}
"#;
    let files = vec![
        ("m1/build.gradle".to_string(), module.to_string()),
        ("m2/build.gradle".to_string(), module.to_string()),
    ];
    let deps = load_all_dependencies(&files, &Vec::new());
    let analysis = find_dependency_bundles(&deps, 2, 2);

    assert_eq!(analysis.recommended_bundles.len(), 1);
    assert_eq!(analysis.recommended_bundles[0].priority_score, 65);
    assert_eq!(
        analysis.recommended_bundles[0].configurations,
        vec!["implementation".to_string()]
    );
}

#[test]
fn test_three_modules_one_conflict_one_duplicate() {
    // Three modules declare okhttp at three versions (one through a catalog
    // alias) and gson at one version: exactly one conflict and exactly one
    // regular duplicate, each with three locations.
    let catalog = r#"
[versions]
okhttp = "4.12.0"

[libraries]
okhttp = { group = "com.squareup.okhttp3", name = "okhttp", version.ref = "okhttp" }
"#;
    let m1 = r#"
dependencies {
    implementation 'com.squareup.okhttp3:okhttp:4.10.0'
    implementation 'com.google.code.gson:gson:2.10.1'
}
"#;
    let m2 = r#"
dependencies {
    implementation libs.okhttp
    implementation 'com.google.code.gson:gson:2.10.1'
}
"#;
    let m3 = r#"
dependencies {
    implementation 'com.squareup.okhttp3:okhttp:4.11.0'
    implementation 'com.google.code.gson:gson:2.10.1'
}
"#;
    let build_files = vec![
        ("m1/build.gradle".to_string(), m1.to_string()),
        ("m2/build.gradle".to_string(), m2.to_string()),
        ("m3/build.gradle".to_string(), m3.to_string()),
    ];
    let catalog_files = vec![("gradle/libs.versions.toml".to_string(), catalog.to_string())];
    let analysis = perform_complete_analysis(&build_files, &catalog_files, 2, 2).unwrap();

    assert_eq!(analysis.duplicate_analysis.version_conflicts.len(), 1);
    let okhttp = bucket(
        &analysis.duplicate_analysis.version_conflicts,
        "com.squareup.okhttp3:okhttp",
    )
    .unwrap();
    assert_eq!(okhttp.len(), 3);

    assert_eq!(analysis.duplicate_analysis.regular_duplicates.len(), 1);
    let gson = bucket(
        &analysis.duplicate_analysis.regular_duplicates,
        "com.google.code.gson:gson",
    )
    .unwrap();
    assert_eq!(gson.len(), 3);
}

#[test]
fn test_source_set_suffix_and_same_file_exemption() {
    // The same coordinate declared in a commonMain scope and in the
    // top-level block of one file yields two locations with distinct
    // configurations, and no cross-file duplicate.
    let content = r#"
sourceSets {
    commonMain.dependencies {
        implementation("x:y:1.0")
    }
}

dependencies {
    implementation("x:y:1.0")
}
"#;
    let deps = parse_dependencies_from_file("mp/build.gradle", content, &Vec::new());
    assert_eq!(deps.len(), 2);
    let configs: Vec<&String> = deps.iter().map(|d| &d.configuration).collect();
    assert!(configs.contains(&&"implementation-commonMain".to_string()));
    assert!(configs.contains(&&"implementation".to_string()));

    let build_files = vec![("mp/build.gradle".to_string(), content.to_string())];
    let analysis = perform_complete_analysis(&build_files, &Vec::new(), 2, 2).unwrap();
    assert_eq!(analysis.duplicate_analysis.regular_duplicates.len(), 0);
    assert_eq!(analysis.duplicate_analysis.version_conflicts.len(), 0);
}

#[test]
fn test_bundle_name_suggestions() {
    let patterns = BundleNamePatterns::default();
    assert_eq!(patterns.find_bundle_name("androidx.compose"), "androidx-bundle");
    assert_eq!(patterns.find_bundle_name("org.jetbrains.kotlinx"), "kotlin-bundle");
    assert_eq!(patterns.find_bundle_name("junit"), "testing-bundle");
    assert_eq!(patterns.find_bundle_name("com.squareup.okhttp3"), "networking-bundle");
    assert_eq!(patterns.find_bundle_name("com.google.code.gson"), "json-bundle");
    // fallback: the last dotted component with the generic suffix
    assert_eq!(patterns.find_bundle_name("com.example.widgets"), "widgets-bundle");
}

#[test]
fn test_empty_project_is_quiet() {
    let analysis = perform_complete_analysis(&Vec::new(), &Vec::new(), 2, 2).unwrap();
    assert_eq!(analysis.duplicate_analysis.regular_duplicates.len(), 0);
    assert_eq!(analysis.duplicate_analysis.version_conflicts.len(), 0);
    assert_eq!(analysis.plugin_analysis.duplicate_plugins.len(), 0);
    assert_eq!(analysis.bundle_analysis.recommended_bundles.len(), 0);
    assert_eq!(analysis.bundle_analysis.total_bundles_found, 0);
}

#[test]
fn test_bundles_ranked_by_score() {
    // A larger shared set ranks above a smaller one with a disjoint module
    // pair.
    let a = "dependencies {\n    implementation 'g:p:1'\n    implementation 'g:q:1'\n    implementation 'g:r:1'\n}\n";
    let b = "dependencies {\n    implementation 'g:s:1'\n    implementation 'g:t:1'\n}\n";
    let files = vec![
        ("a1/build.gradle".to_string(), a.to_string()),
        ("a2/build.gradle".to_string(), a.to_string()),
        ("b1/build.gradle".to_string(), b.to_string()),
        ("b2/build.gradle".to_string(), b.to_string()),
    ];
    let deps = load_all_dependencies(&files, &Vec::new());
    let analysis = find_dependency_bundles(&deps, 2, 2);

    assert!(analysis.recommended_bundles.len() >= 2);
    for w in analysis.recommended_bundles.windows(2) {
        assert!(w[0].priority_score >= w[1].priority_score);
    }
    assert_eq!(analysis.recommended_bundles[0].bundle_size, 3);
}
