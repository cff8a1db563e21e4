//! Command-line options: the argument model, threshold validation, and the
//! effective analysis options each command selects.
//!
//! Argument strings are parsed into this model by the surrounding program;
//! here stands the logic that interprets and validates the parsed values.

use vstd::prelude::*;
use crate::config::Config;
use crate::error::AnalysisError;
use crate::text::dec_of;
use crate::text::usize_to_string;

verus! {

/// The subcommands and their threshold options. Every threshold is optional
/// and falls back to the configuration's default.
#[derive(Debug)]
pub enum Commands {
    /// Run all checks: version conflicts, duplicates and bundles.
    All {
        min_version_conflicts: Option<usize>,
        min_duplicate_dependencies: Option<usize>,
        min_duplicate_plugins: Option<usize>,
        min_bundle_size: Option<usize>,
        min_bundle_modules: Option<usize>,
        max_bundle_recommendations: Option<usize>,
    },
    /// Check for version conflicts only.
    Conflicts { min_version_conflicts: Option<usize> },
    /// Check for duplicate dependencies only.
    Dependencies { min_duplicate_dependencies: Option<usize> },
    /// Check for duplicate plugins only.
    Plugins { min_duplicate_plugins: Option<usize> },
    /// Check for duplicate dependencies and plugins.
    Duplicates {
        min_duplicate_dependencies: Option<usize>,
        min_duplicate_plugins: Option<usize>,
    },
    /// Generate bundle recommendations only.
    Bundles {
        min_bundle_size: Option<usize>,
        min_bundle_modules: Option<usize>,
        max_bundle_recommendations: Option<usize>,
    },
}

/// The parsed command line: an optional subcommand, the project path, an
/// optional output file, and the silent flag.
#[derive(Debug)]
pub struct Args {
    pub command: Option<Commands>,
    pub path: String,
    pub output: Option<String>,
    pub silent: bool,
}

/// The effective thresholds of one run. A check a subcommand leaves out is
/// disabled by an unreachably high threshold (or a zero recommendation
/// count).
#[derive(Debug, PartialEq, Eq, Structural)]
pub struct AnalysisOptions {
    pub min_version_conflicts: usize,
    pub min_duplicate_dependencies: usize,
    pub min_duplicate_plugins: usize,
    pub min_bundle_size: usize,
    pub min_bundle_modules: usize,
    pub max_bundle_recommendations: usize,
}

/// `v` or the fallback `d`.
pub open spec fn opt_or(v: Option<usize>, d: usize) -> usize {
    match v {
        Some(x) => x,
        None => d,
    }
}

fn unwrap_or(v: &Option<usize>, d: usize) -> (r: usize)
    ensures
        r == opt_or(*v, d),
{
    match v {
        Some(x) => *x,
        None => d,
    }
}

/// The options each command selects: its own thresholds with configured
/// fallbacks, every other check disabled.
pub open spec fn spec_analysis_options(cmd: Option<Commands>, c: Config) -> AnalysisOptions {
    match cmd {
        Some(
            Commands::All {
                min_version_conflicts,
                min_duplicate_dependencies,
                min_duplicate_plugins,
                min_bundle_size,
                min_bundle_modules,
                max_bundle_recommendations,
            },
        ) => AnalysisOptions {
            min_version_conflicts: opt_or(min_version_conflicts, c.default_min_version_conflicts),
            min_duplicate_dependencies: opt_or(
                min_duplicate_dependencies,
                c.default_min_duplicate_dependencies,
            ),
            min_duplicate_plugins: opt_or(min_duplicate_plugins, c.default_min_duplicate_plugins),
            min_bundle_size: opt_or(min_bundle_size, c.default_min_bundle_size),
            min_bundle_modules: opt_or(min_bundle_modules, c.default_min_bundle_modules),
            max_bundle_recommendations: opt_or(
                max_bundle_recommendations,
                c.default_max_bundle_recommendations,
            ),
        },
        Some(Commands::Conflicts { min_version_conflicts }) => AnalysisOptions {
            min_version_conflicts: opt_or(min_version_conflicts, c.default_min_version_conflicts),
            min_duplicate_dependencies: usize::MAX,
            min_duplicate_plugins: usize::MAX,
            min_bundle_size: usize::MAX,
            min_bundle_modules: usize::MAX,
            max_bundle_recommendations: 0,
        },
        Some(Commands::Dependencies { min_duplicate_dependencies }) => AnalysisOptions {
            min_version_conflicts: usize::MAX,
            min_duplicate_dependencies: opt_or(
                min_duplicate_dependencies,
                c.default_min_duplicate_dependencies,
            ),
            min_duplicate_plugins: usize::MAX,
            min_bundle_size: usize::MAX,
            min_bundle_modules: usize::MAX,
            max_bundle_recommendations: 0,
        },
        Some(Commands::Plugins { min_duplicate_plugins }) => AnalysisOptions {
            min_version_conflicts: usize::MAX,
            min_duplicate_dependencies: usize::MAX,
            min_duplicate_plugins: opt_or(min_duplicate_plugins, c.default_min_duplicate_plugins),
            min_bundle_size: usize::MAX,
            min_bundle_modules: usize::MAX,
            max_bundle_recommendations: 0,
        },
        Some(Commands::Duplicates { min_duplicate_dependencies, min_duplicate_plugins }) => AnalysisOptions {
            min_version_conflicts: usize::MAX,
            min_duplicate_dependencies: opt_or(
                min_duplicate_dependencies,
                c.default_min_duplicate_dependencies,
            ),
            min_duplicate_plugins: opt_or(min_duplicate_plugins, c.default_min_duplicate_plugins),
            min_bundle_size: usize::MAX,
            min_bundle_modules: usize::MAX,
            max_bundle_recommendations: 0,
        },
        Some(
            Commands::Bundles { min_bundle_size, min_bundle_modules, max_bundle_recommendations },
        ) => AnalysisOptions {
            min_version_conflicts: usize::MAX,
            min_duplicate_dependencies: usize::MAX,
            min_duplicate_plugins: usize::MAX,
            min_bundle_size: opt_or(min_bundle_size, c.default_min_bundle_size),
            min_bundle_modules: opt_or(min_bundle_modules, c.default_min_bundle_modules),
            max_bundle_recommendations: opt_or(
                max_bundle_recommendations,
                c.default_max_bundle_recommendations,
            ),
        },
        None => AnalysisOptions {
            min_version_conflicts: c.default_min_version_conflicts,
            min_duplicate_dependencies: c.default_min_duplicate_dependencies,
            min_duplicate_plugins: c.default_min_duplicate_plugins,
            min_bundle_size: c.default_min_bundle_size,
            min_bundle_modules: c.default_min_bundle_modules,
            max_bundle_recommendations: c.default_max_bundle_recommendations,
        },
    }
}

impl Args {
    /// The effective analysis options this command line selects.
    pub fn get_analysis_options(&self, config: &Config) -> (r: AnalysisOptions)
        ensures
            r == spec_analysis_options(self.command, *config),
    {
        match &self.command {
            Some(
                Commands::All {
                    min_version_conflicts,
                    min_duplicate_dependencies,
                    min_duplicate_plugins,
                    min_bundle_size,
                    min_bundle_modules,
                    max_bundle_recommendations,
                },
            ) => AnalysisOptions {
                min_version_conflicts: unwrap_or(
                    min_version_conflicts,
                    config.default_min_version_conflicts,
                ),
                min_duplicate_dependencies: unwrap_or(
                    min_duplicate_dependencies,
                    config.default_min_duplicate_dependencies,
                ),
                min_duplicate_plugins: unwrap_or(
                    min_duplicate_plugins,
                    config.default_min_duplicate_plugins,
                ),
                min_bundle_size: unwrap_or(min_bundle_size, config.default_min_bundle_size),
                min_bundle_modules: unwrap_or(
                    min_bundle_modules,
                    config.default_min_bundle_modules,
                ),
                max_bundle_recommendations: unwrap_or(
                    max_bundle_recommendations,
                    config.default_max_bundle_recommendations,
                ),
            },
            Some(Commands::Conflicts { min_version_conflicts }) => AnalysisOptions {
                min_version_conflicts: unwrap_or(
                    min_version_conflicts,
                    config.default_min_version_conflicts,
                ),
                min_duplicate_dependencies: usize::MAX,
                min_duplicate_plugins: usize::MAX,
                min_bundle_size: usize::MAX,
                min_bundle_modules: usize::MAX,
                max_bundle_recommendations: 0,
            },
            Some(Commands::Dependencies { min_duplicate_dependencies }) => AnalysisOptions {
                min_version_conflicts: usize::MAX,
                min_duplicate_dependencies: unwrap_or(
                    min_duplicate_dependencies,
                    config.default_min_duplicate_dependencies,
                ),
                min_duplicate_plugins: usize::MAX,
                min_bundle_size: usize::MAX,
                min_bundle_modules: usize::MAX,
                max_bundle_recommendations: 0,
            },
            Some(Commands::Plugins { min_duplicate_plugins }) => AnalysisOptions {
                min_version_conflicts: usize::MAX,
                min_duplicate_dependencies: usize::MAX,
                min_duplicate_plugins: unwrap_or(
                    min_duplicate_plugins,
                    config.default_min_duplicate_plugins,
                ),
                min_bundle_size: usize::MAX,
                min_bundle_modules: usize::MAX,
                max_bundle_recommendations: 0,
            },
            Some(
                Commands::Duplicates { min_duplicate_dependencies, min_duplicate_plugins },
            ) => AnalysisOptions {
                min_version_conflicts: usize::MAX,
                min_duplicate_dependencies: unwrap_or(
                    min_duplicate_dependencies,
                    config.default_min_duplicate_dependencies,
                ),
                min_duplicate_plugins: unwrap_or(
                    min_duplicate_plugins,
                    config.default_min_duplicate_plugins,
                ),
                min_bundle_size: usize::MAX,
                min_bundle_modules: usize::MAX,
                max_bundle_recommendations: 0,
            },
            Some(
                Commands::Bundles {
                    min_bundle_size,
                    min_bundle_modules,
                    max_bundle_recommendations,
                },
            ) => AnalysisOptions {
                min_version_conflicts: usize::MAX,
                min_duplicate_dependencies: usize::MAX,
                min_duplicate_plugins: usize::MAX,
                min_bundle_size: unwrap_or(min_bundle_size, config.default_min_bundle_size),
                min_bundle_modules: unwrap_or(
                    min_bundle_modules,
                    config.default_min_bundle_modules,
                ),
                max_bundle_recommendations: unwrap_or(
                    max_bundle_recommendations,
                    config.default_max_bundle_recommendations,
                ),
            },
            None => AnalysisOptions {
                min_version_conflicts: config.default_min_version_conflicts,
                min_duplicate_dependencies: config.default_min_duplicate_dependencies,
                min_duplicate_plugins: config.default_min_duplicate_plugins,
                min_bundle_size: config.default_min_bundle_size,
                min_bundle_modules: config.default_min_bundle_modules,
                max_bundle_recommendations: config.default_max_bundle_recommendations,
            },
        }
    }
}

/// A provided threshold respects the floor; an absent one always does.
pub open spec fn threshold_ok(v: Option<usize>, min: usize) -> bool {
    match v {
        Some(x) => x >= min,
        None => true,
    }
}

/// Every threshold the command provides respects the floor, and a provided
/// recommendation cap is nonzero.
pub open spec fn spec_args_valid(cmd: Option<Commands>, min: usize) -> bool {
    match cmd {
        Some(
            Commands::All {
                min_version_conflicts,
                min_duplicate_dependencies,
                min_duplicate_plugins,
                min_bundle_size,
                min_bundle_modules,
                max_bundle_recommendations,
            },
        ) => {
            &&& threshold_ok(min_version_conflicts, min)
            &&& threshold_ok(min_duplicate_dependencies, min)
            &&& threshold_ok(min_duplicate_plugins, min)
            &&& threshold_ok(min_bundle_size, min)
            &&& threshold_ok(min_bundle_modules, min)
            &&& max_bundle_recommendations != Some(0usize)
        },
        Some(Commands::Conflicts { min_version_conflicts }) => threshold_ok(
            min_version_conflicts,
            min,
        ),
        Some(Commands::Dependencies { min_duplicate_dependencies }) => threshold_ok(
            min_duplicate_dependencies,
            min,
        ),
        Some(Commands::Plugins { min_duplicate_plugins }) => threshold_ok(
            min_duplicate_plugins,
            min,
        ),
        Some(Commands::Duplicates { min_duplicate_dependencies, min_duplicate_plugins }) => {
            &&& threshold_ok(min_duplicate_dependencies, min)
            &&& threshold_ok(min_duplicate_plugins, min)
        },
        Some(
            Commands::Bundles { min_bundle_size, min_bundle_modules, max_bundle_recommendations },
        ) => {
            &&& threshold_ok(min_bundle_size, min)
            &&& threshold_ok(min_bundle_modules, min)
            &&& max_bundle_recommendations != Some(0usize)
        },
        None => true,
    }
}

/// The message a threshold violation carries.
pub open spec fn spec_threshold_message(arg: Seq<char>, min: nat) -> Seq<char> {
    arg + " must be at least "@ + dec_of(min) + " (requires at least "@ + dec_of(min)
        + " occurrences)"@
}

/// The message a zero recommendation cap carries.
pub open spec fn spec_cap_message() -> Seq<char> {
    "--max-bundle-recommendations must be at least 1"@
}

/// The message of the first check a command fails, in the fixed order the
/// checks run: version conflicts, duplicate dependencies, duplicate plugins,
/// bundle size, bundle modules, recommendation cap. Meaningful only for an
/// invalid command.
pub open spec fn spec_validation_message(cmd: Option<Commands>, min: usize) -> Seq<char> {
    match cmd {
        Some(
            Commands::All {
                min_version_conflicts,
                min_duplicate_dependencies,
                min_duplicate_plugins,
                min_bundle_size,
                min_bundle_modules,
                max_bundle_recommendations,
            },
        ) => {
            if !threshold_ok(min_version_conflicts, min) {
                spec_threshold_message("--min-version-conflicts"@, min as nat)
            } else if !threshold_ok(min_duplicate_dependencies, min) {
                spec_threshold_message("--min-duplicate-dependencies"@, min as nat)
            } else if !threshold_ok(min_duplicate_plugins, min) {
                spec_threshold_message("--min-duplicate-plugins"@, min as nat)
            } else if !threshold_ok(min_bundle_size, min) {
                spec_threshold_message("--min-bundle-size"@, min as nat)
            } else if !threshold_ok(min_bundle_modules, min) {
                spec_threshold_message("--min-bundle-modules"@, min as nat)
            } else {
                spec_cap_message()
            }
        },
        Some(Commands::Conflicts { min_version_conflicts }) => spec_threshold_message(
            "--min-version-conflicts"@,
            min as nat,
        ),
        Some(Commands::Dependencies { min_duplicate_dependencies }) => spec_threshold_message(
            "--min-duplicate-dependencies"@,
            min as nat,
        ),
        Some(Commands::Plugins { min_duplicate_plugins }) => spec_threshold_message(
            "--min-duplicate-plugins"@,
            min as nat,
        ),
        Some(Commands::Duplicates { min_duplicate_dependencies, min_duplicate_plugins }) => {
            if !threshold_ok(min_duplicate_dependencies, min) {
                spec_threshold_message("--min-duplicate-dependencies"@, min as nat)
            } else {
                spec_threshold_message("--min-duplicate-plugins"@, min as nat)
            }
        },
        Some(
            Commands::Bundles { min_bundle_size, min_bundle_modules, max_bundle_recommendations },
        ) => {
            if !threshold_ok(min_bundle_size, min) {
                spec_threshold_message("--min-bundle-size"@, min as nat)
            } else if !threshold_ok(min_bundle_modules, min) {
                spec_threshold_message("--min-bundle-modules"@, min as nat)
            } else {
                spec_cap_message()
            }
        },
        None => Seq::empty(),
    }
}

/// Rejects a provided threshold below the floor, with a message naming the
/// option and the floor.
pub fn validate_threshold(arg_name: &str, value: Option<usize>, min_threshold: usize) -> (r: Result<
    (),
    AnalysisError,
>)
    ensures
        r is Ok <==> threshold_ok(value, min_threshold),
        r matches Err(e) ==> e@ == crate::error::AnalysisErrorV::Validation(
            spec_threshold_message(arg_name@, min_threshold as nat),
        ),
{
    match value {
        Some(v) => {
            if v < min_threshold {
                let mut msg = arg_name.to_owned();
                msg.append(" must be at least ");
                let rendered = usize_to_string(min_threshold);
                msg.append(rendered.as_str());
                msg.append(" (requires at least ");
                msg.append(rendered.as_str());
                msg.append(" occurrences)");
                proof {
                    assert(msg@ =~= spec_threshold_message(arg_name@, min_threshold as nat));
                }
                Err(AnalysisError::Validation(msg))
            } else {
                Ok(())
            }
        },
        None => Ok(()),
    }
}

fn validate_recommendation_cap(value: &Option<usize>) -> (r: Result<(), AnalysisError>)
    ensures
        r is Ok <==> *value != Some(0usize),
        r matches Err(e) ==> e@ == crate::error::AnalysisErrorV::Validation(spec_cap_message()),
{
    match value {
        Some(v) => {
            if *v == 0 {
                Err(
                    AnalysisError::Validation(
                        "--max-bundle-recommendations must be at least 1".to_owned(),
                    ),
                )
            } else {
                Ok(())
            }
        },
        None => Ok(()),
    }
}

/// Validates every threshold the command line provides against the
/// configured floor: succeeds exactly on valid commands, and fails with a
/// validation error naming the offending option otherwise.
pub fn validate_args(args: &Args, config: &Config) -> (r: Result<(), AnalysisError>)
    ensures
        r is Ok <==> spec_args_valid(args.command, config.min_threshold_value),
        r matches Err(e) ==> e@ == crate::error::AnalysisErrorV::Validation(
            spec_validation_message(args.command, config.min_threshold_value),
        ),
{
    let min_threshold = config.min_threshold_value;
    match &args.command {
        Some(
            Commands::All {
                min_version_conflicts,
                min_duplicate_dependencies,
                min_duplicate_plugins,
                min_bundle_size,
                min_bundle_modules,
                max_bundle_recommendations,
            },
        ) => {
            match validate_threshold("--min-version-conflicts", *min_version_conflicts, min_threshold) {
                Ok(_) => {},
                Err(e) => {
                    return Err(e);
                },
            }
            match validate_threshold(
                "--min-duplicate-dependencies",
                *min_duplicate_dependencies,
                min_threshold,
            ) {
                Ok(_) => {},
                Err(e) => {
                    return Err(e);
                },
            }
            match validate_threshold(
                "--min-duplicate-plugins",
                *min_duplicate_plugins,
                min_threshold,
            ) {
                Ok(_) => {},
                Err(e) => {
                    return Err(e);
                },
            }
            match validate_threshold("--min-bundle-size", *min_bundle_size, min_threshold) {
                Ok(_) => {},
                Err(e) => {
                    return Err(e);
                },
            }
            match validate_threshold("--min-bundle-modules", *min_bundle_modules, min_threshold) {
                Ok(_) => {},
                Err(e) => {
                    return Err(e);
                },
            }
            match validate_recommendation_cap(max_bundle_recommendations) {
                Ok(_) => {},
                Err(e) => {
                    return Err(e);
                },
            }
            Ok(())
        },
        Some(Commands::Conflicts { min_version_conflicts }) => {
            match validate_threshold("--min-version-conflicts", *min_version_conflicts, min_threshold) {
                Ok(_) => Ok(()),
                Err(e) => Err(e),
            }
        },
        Some(Commands::Dependencies { min_duplicate_dependencies }) => {
            match validate_threshold(
                "--min-duplicate-dependencies",
                *min_duplicate_dependencies,
                min_threshold,
            ) {
                Ok(_) => Ok(()),
                Err(e) => Err(e),
            }
        },
        Some(Commands::Plugins { min_duplicate_plugins }) => {
            match validate_threshold(
                "--min-duplicate-plugins",
                *min_duplicate_plugins,
                min_threshold,
            ) {
                Ok(_) => Ok(()),
                Err(e) => Err(e),
            }
        },
        Some(Commands::Duplicates { min_duplicate_dependencies, min_duplicate_plugins }) => {
            match validate_threshold(
                "--min-duplicate-dependencies",
                *min_duplicate_dependencies,
                min_threshold,
            ) {
                Ok(_) => {},
                Err(e) => {
                    return Err(e);
                },
            }
            match validate_threshold(
                "--min-duplicate-plugins",
                *min_duplicate_plugins,
                min_threshold,
            ) {
                Ok(_) => Ok(()),
                Err(e) => Err(e),
            }
        },
        Some(
            Commands::Bundles { min_bundle_size, min_bundle_modules, max_bundle_recommendations },
        ) => {
            match validate_threshold("--min-bundle-size", *min_bundle_size, min_threshold) {
                Ok(_) => {},
                Err(e) => {
                    return Err(e);
                },
            }
            match validate_threshold("--min-bundle-modules", *min_bundle_modules, min_threshold) {
                Ok(_) => {},
                Err(e) => {
                    return Err(e);
                },
            }
            match validate_recommendation_cap(max_bundle_recommendations) {
                Ok(_) => Ok(()),
                Err(e) => Err(e),
            }
        },
        None => Ok(()),
    }
}

} // verus!
