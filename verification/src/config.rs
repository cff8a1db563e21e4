//! Configuration constants, recognized file names, and bundle-name
//! suggestions.
//!
//! All scores and weights are integers in half-point units, so that ranking
//! arithmetic stays exact.

use vstd::prelude::*;
use crate::text::contains_pat;
use crate::text::contains_seq;
use crate::text::str_eq;
use crate::text::substring;

verus! {

// ---------------------------------------------------------------------------
// Application configuration
// ---------------------------------------------------------------------------

/// The weights of a bundle's size and module count in its priority score,
/// in half-point units.
#[derive(Debug)]
pub struct PriorityWeights {
    pub bundle_size: u64,
    pub module_count: u64,
}

/// The per-configuration scores, in half-point units.
#[derive(Debug)]
pub struct ConfigurationScores {
    pub api: u64,
    pub implementation: u64,
    pub compile_only: u64,
    pub runtime_only: u64,
    pub test_implementation: u64,
    pub test_compile_only: u64,
    pub default: u64,
}

/// Application configuration constants: reporting thresholds, bundle
/// thresholds, and scoring weights.
#[derive(Debug)]
pub struct Config {
    pub default_min_version_conflicts: usize,
    pub default_min_duplicate_dependencies: usize,
    pub default_min_duplicate_plugins: usize,
    pub default_min_bundle_size: usize,
    pub default_min_bundle_modules: usize,
    pub default_max_bundle_recommendations: usize,
    pub min_threshold_value: usize,
    pub priority_weights: PriorityWeights,
    pub configuration_scores: ConfigurationScores,
}

impl Default for Config {
    fn default() -> (r: Self)
        ensures
            r.default_min_version_conflicts == 2,
            r.default_min_duplicate_dependencies == 2,
            r.default_min_duplicate_plugins == 2,
            r.default_min_bundle_size == 2,
            r.default_min_bundle_modules == 2,
            r.default_max_bundle_recommendations == 5,
            r.min_threshold_value == 2,
            r.priority_weights.bundle_size == 20,
            r.priority_weights.module_count == 10,
            r.configuration_scores.api == 6,
            r.configuration_scores.implementation == 5,
            r.configuration_scores.compile_only == 4,
            r.configuration_scores.runtime_only == 3,
            r.configuration_scores.test_implementation == 2,
            r.configuration_scores.test_compile_only == 1,
            r.configuration_scores.default == 2,
    {
        Config {
            default_min_version_conflicts: 2,
            default_min_duplicate_dependencies: 2,
            default_min_duplicate_plugins: 2,
            default_min_bundle_size: 2,
            default_min_bundle_modules: 2,
            default_max_bundle_recommendations: 5,
            min_threshold_value: 2,
            priority_weights: PriorityWeights { bundle_size: 20, module_count: 10 },
            configuration_scores: ConfigurationScores {
                api: 6,
                implementation: 5,
                compile_only: 4,
                runtime_only: 3,
                test_implementation: 2,
                test_compile_only: 1,
                default: 2,
            },
        }
    }
}

// ---------------------------------------------------------------------------
// Recognized file names
// ---------------------------------------------------------------------------

/// The file name belongs to a build file.
pub open spec fn spec_is_gradle_build_file_name(name: Seq<char>) -> bool {
    name == "build.gradle"@ || name == "build.gradle.kts"@
}

pub fn is_gradle_build_file_name(name: &str) -> (r: bool)
    ensures
        r == spec_is_gradle_build_file_name(name@),
{
    str_eq(name, "build.gradle") || str_eq(name, "build.gradle.kts")
}

/// The file name belongs to a version-catalog document.
pub open spec fn spec_is_version_catalog_file_name(name: Seq<char>) -> bool {
    name == "libs.versions.toml"@ || name == "versions.toml"@
}

pub fn is_version_catalog_file_name(name: &str) -> (r: bool)
    ensures
        r == spec_is_version_catalog_file_name(name@),
{
    str_eq(name, "libs.versions.toml") || str_eq(name, "versions.toml")
}

// ---------------------------------------------------------------------------
// Bundle name suggestions
// ---------------------------------------------------------------------------

/// The name patterns for common dependency families, each mapping a group
/// fragment to a suggested bundle name.
#[derive(Debug)]
pub struct BundleNamePatterns {
    pub patterns: Vec<(String, String)>,
}

/// The fixed pattern table: ecosystem fragments first, then test and
/// serialization families.
pub open spec fn spec_default_patterns() -> Seq<(Seq<char>, Seq<char>)> {
    seq![
        ("androidx"@, "androidx-bundle"@),
        ("kotlin"@, "kotlin-bundle"@),
        ("jetbrains"@, "kotlin-bundle"@),
        ("test"@, "testing-bundle"@),
        ("junit"@, "testing-bundle"@),
        ("retrofit"@, "networking-bundle"@),
        ("okhttp"@, "networking-bundle"@),
        ("jackson"@, "json-bundle"@),
        ("gson"@, "json-bundle"@),
    ]
}

impl Default for BundleNamePatterns {
    fn default() -> (r: Self)
        ensures
            r.patterns.deep_view() == spec_default_patterns(),
    {
        let mut patterns: Vec<(String, String)> = Vec::new();
        patterns.push(("androidx".to_owned(), "androidx-bundle".to_owned()));
        patterns.push(("kotlin".to_owned(), "kotlin-bundle".to_owned()));
        patterns.push(("jetbrains".to_owned(), "kotlin-bundle".to_owned()));
        patterns.push(("test".to_owned(), "testing-bundle".to_owned()));
        patterns.push(("junit".to_owned(), "testing-bundle".to_owned()));
        patterns.push(("retrofit".to_owned(), "networking-bundle".to_owned()));
        patterns.push(("okhttp".to_owned(), "networking-bundle".to_owned()));
        patterns.push(("jackson".to_owned(), "json-bundle".to_owned()));
        patterns.push(("gson".to_owned(), "json-bundle".to_owned()));
        proof {
            assert(patterns.deep_view() =~= spec_default_patterns());
        }
        BundleNamePatterns { patterns }
    }
}

/// The index just past the last dot of `s`, or zero when `s` holds no dot.
pub open spec fn after_last_dot(s: Seq<char>) -> int
    decreases s.len(),
{
    if s.len() == 0 {
        0
    } else if s.last() == '.' {
        s.len() as int
    } else {
        after_last_dot(s.drop_last())
    }
}

proof fn lemma_after_last_dot_bounds(s: Seq<char>)
    ensures
        0 <= after_last_dot(s) <= s.len(),
    decreases s.len(),
{
    if s.len() > 0 && s.last() != '.' {
        lemma_after_last_dot_bounds(s.drop_last());
    }
}

/// The fragment of `s` after its last dot (all of `s` when it has none).
pub open spec fn spec_group_tail(s: Seq<char>) -> Seq<char> {
    let k = after_last_dot(s);
    if 0 <= k <= s.len() {
        s.subrange(k, s.len() as int)
    } else {
        s
    }
}

fn group_tail(s: &str) -> (r: String)
    ensures
        r@ == spec_group_tail(s@),
{
    let n = s.unicode_len();
    let mut cut: usize = 0;
    let mut i: usize = 0;
    proof {
        assert(s@.take(0) =~= Seq::<char>::empty());
    }
    while i < n
        invariant
            cut <= i <= n,
            n == s@.len(),
            cut as int == after_last_dot(s@.take(i as int)),
        decreases n - i,
    {
        proof {
            assert(s@.take(i + 1).drop_last() =~= s@.take(i as int));
            assert(s@.take(i + 1).last() == s@[i as int]);
        }
        if s.get_char(i) == '.' {
            cut = i + 1;
        }
        i = i + 1;
    }
    proof {
        assert(s@.take(n as int) =~= s@);
        lemma_after_last_dot_bounds(s@);
    }
    substring(s, cut, n)
}

/// What the first matching pattern suggests, or the group's tail with a
/// generic suffix.
pub open spec fn spec_find_bundle_name(
    patterns: Seq<(Seq<char>, Seq<char>)>,
    group: Seq<char>,
) -> Seq<char>
    decreases patterns.len(),
{
    if patterns.len() == 0 {
        spec_group_tail(group) + "-bundle"@
    } else if contains_seq(group, patterns[0].0) {
        patterns[0].1
    } else {
        spec_find_bundle_name(patterns.drop_first(), group)
    }
}

impl BundleNamePatterns {
    /// Suggests a bundle name for the most common group of a bundle's keys:
    /// the first pattern occurring in the group wins; otherwise the group's
    /// last dotted component with a generic suffix.
    pub fn find_bundle_name(&self, most_common_group: &str) -> (r: String)
        ensures
            r@ == spec_find_bundle_name(self.patterns.deep_view(), most_common_group@),
    {
        let ghost pv = self.patterns.deep_view();
        let n = self.patterns.len();
        proof {
            assert(pv.skip(0) =~= pv);
        }
        let mut i: usize = 0;
        while i < n
            invariant
                i <= n,
                n == self.patterns.len(),
                pv == self.patterns.deep_view(),
                spec_find_bundle_name(pv, most_common_group@) == spec_find_bundle_name(
                    pv.skip(i as int),
                    most_common_group@,
                ),
            decreases n - i,
        {
            proof {
                assert(pv.skip(i as int)[0] == pv[i as int]);
                assert(pv[i as int] == self.patterns@[i as int].deep_view());
                assert(pv.skip(i as int).drop_first() =~= pv.skip(i + 1));
            }
            if contains_pat(most_common_group, self.patterns[i].0.as_str()) {
                return self.patterns[i].1.clone();
            }
            i = i + 1;
        }
        proof {
            assert(pv.skip(n as int) =~= Seq::<(Seq<char>, Seq<char>)>::empty());
        }
        let mut r = group_tail(most_common_group);
        r.append("-bundle");
        r
    }
}

} // verus!
