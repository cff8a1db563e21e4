use gradle_dependency_health_checker::cli::{validate_args, validate_threshold, Args, Commands};
use gradle_dependency_health_checker::config::Config;

#[test]
fn test_valid_all_command() {
    let config = Config::default();
    let args = Args {
        path: ".".to_string(),
        output: None,
        silent: false,
        command: Some(Commands::All {
            min_version_conflicts: Some(2),
            min_duplicate_dependencies: Some(3),
            min_duplicate_plugins: Some(2),
            min_bundle_size: Some(2),
            min_bundle_modules: Some(2),
            max_bundle_recommendations: Some(5),
        }),
    };

    assert!(validate_args(&args, &config).is_ok());
}

#[test]
fn test_invalid_version_conflicts_threshold() {
    let config = Config::default();
    let args = Args {
        path: ".".to_string(),
        output: None,
        silent: false,
        command: Some(Commands::Conflicts { min_version_conflicts: Some(1) }),
    };

    let result = validate_args(&args, &config);
    assert!(result.is_err());
    assert!(result.unwrap_err().message().contains("--min-version-conflicts must be at least 2"));
}

#[test]
fn test_invalid_duplicate_dependencies_threshold() {
    let config = Config::default();
    let args = Args {
        path: ".".to_string(),
        output: None,
        silent: false,
        command: Some(Commands::Dependencies { min_duplicate_dependencies: Some(0) }),
    };

    let result = validate_args(&args, &config);
    assert!(result.is_err());
    assert!(
        result.unwrap_err().message().contains("--min-duplicate-dependencies must be at least 2")
    );
}

#[test]
fn test_invalid_duplicate_plugins_threshold() {
    let config = Config::default();
    let args = Args {
        path: ".".to_string(),
        output: None,
        silent: false,
        command: Some(Commands::Plugins { min_duplicate_plugins: Some(1) }),
    };

    let result = validate_args(&args, &config);
    assert!(result.is_err());
    assert!(result.unwrap_err().message().contains("--min-duplicate-plugins must be at least 2"));
}

#[test]
fn test_default_behavior_validation() {
    let config = Config::default();
    let args = Args { path: ".".to_string(), output: None, silent: false, command: None };

    // Default behavior should not require validation
    assert!(validate_args(&args, &config).is_ok());
}

#[test]
fn test_zero_recommendation_cap_is_rejected() {
    let config = Config::default();
    let args = Args {
        path: ".".to_string(),
        output: None,
        silent: false,
        command: Some(Commands::Bundles {
            min_bundle_size: Some(2),
            min_bundle_modules: Some(2),
            max_bundle_recommendations: Some(0),
        }),
    };

    let result = validate_args(&args, &config);
    assert!(result.is_err());
    assert!(result.unwrap_err().message().contains("--max-bundle-recommendations must be at least 1"));
}

#[test]
fn test_threshold_message_spells_the_floor() {
    let result = validate_threshold("--min-bundle-size", Some(1), 7);
    assert!(result.is_err());
    assert_eq!(
        result.unwrap_err().message(),
        "Validation error: --min-bundle-size must be at least 7 (requires at least 7 occurrences)"
    );
    assert!(validate_threshold("--min-bundle-size", Some(7), 7).is_ok());
    assert!(validate_threshold("--min-bundle-size", None, 7).is_ok());
}

#[test]
fn test_analysis_options_defaults_and_disabling() {
    let config = Config::default();

    let all_defaults = Args { path: ".".to_string(), output: None, silent: false, command: None };
    let options = all_defaults.get_analysis_options(&config);
    assert_eq!(options.min_version_conflicts, 2);
    assert_eq!(options.min_duplicate_dependencies, 2);
    assert_eq!(options.min_duplicate_plugins, 2);
    assert_eq!(options.min_bundle_size, 2);
    assert_eq!(options.min_bundle_modules, 2);
    assert_eq!(options.max_bundle_recommendations, 5);

    let conflicts_only = Args {
        path: ".".to_string(),
        output: None,
        silent: false,
        command: Some(Commands::Conflicts { min_version_conflicts: Some(5) }),
    };
    let options = conflicts_only.get_analysis_options(&config);
    assert_eq!(options.min_version_conflicts, 5);
    assert_eq!(options.min_duplicate_dependencies, usize::MAX);
    assert_eq!(options.min_duplicate_plugins, usize::MAX);
    assert_eq!(options.min_bundle_size, usize::MAX);
    assert_eq!(options.min_bundle_modules, usize::MAX);
    assert_eq!(options.max_bundle_recommendations, 0);
}
