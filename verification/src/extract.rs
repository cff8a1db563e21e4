//! Per-file extraction: a line-oriented state machine that tracks nested
//! block context in build files and emits one structured declaration per
//! recognized dependency or plugin statement.
//!
//! Block nesting is followed by a heuristic brace balance over each line, not
//! a full tokenizer; braces inside string literals or comments are counted
//! like any others. The balance is clamped at the extremes of a 64-bit
//! counter, far beyond any real nesting.

use vstd::prelude::*;
use crate::catalog::VersionCatalog;
use crate::catalog::VersionCatalogV;
use crate::catalog::spec_resolve_library;
use crate::catalog::spec_resolve_plugin;
use crate::dep_lines::dots_to_hyphens;
use crate::dep_lines::is_project_dependency;
use crate::dep_lines::opens_block;
use crate::dep_lines::parse_accessor_dep;
use crate::dep_lines::parse_libs_dep;
use crate::dep_lines::parse_map_dep;
use crate::dep_lines::parse_source_set_block;
use crate::dep_lines::parse_source_set_dependencies;
use crate::dep_lines::parse_string_dep;
use crate::dep_lines::spec_accessor_dep;
use crate::dep_lines::spec_is_project_dep;
use crate::dep_lines::spec_libs_dep;
use crate::dep_lines::spec_map_dep;
use crate::dep_lines::spec_opens_block;
use crate::dep_lines::spec_source_set_block;
use crate::dep_lines::spec_source_set_dependencies;
use crate::dep_lines::spec_string_dep;
use crate::dep_lines::to_hyphened;
use crate::model::Dependency;
use crate::model::DependencyLocation;
use crate::model::DependencyLocationV;
use crate::model::DependencySourceType;
use crate::model::DependencySourceTypeV;
use crate::model::DependencyV;
use crate::model::Plugin;
use crate::model::PluginLocation;
use crate::model::PluginLocationV;
use crate::model::PluginSourceType;
use crate::model::PluginSourceTypeV;
use crate::model::PluginV;
use crate::plugin_lines::parse_apply_plugin;
use crate::plugin_lines::parse_apply_plugin_groovy;
use crate::plugin_lines::parse_libs_plugin;
use crate::plugin_lines::parse_plugin_dsl_id_only;
use crate::plugin_lines::parse_plugin_dsl_id_version;
use crate::plugin_lines::parse_plugin_id_only;
use crate::plugin_lines::parse_plugin_id_version;
use crate::plugin_lines::parse_plugin_kotlin_shorthand_version;
use crate::plugin_lines::parse_plugin_shorthand_only;
use crate::plugin_lines::spec_apply_plugin;
use crate::plugin_lines::spec_apply_plugin_groovy;
use crate::plugin_lines::spec_libs_plugin;
use crate::plugin_lines::spec_plugin_dsl_id_only;
use crate::plugin_lines::spec_plugin_dsl_id_version;
use crate::plugin_lines::spec_plugin_id_only;
use crate::plugin_lines::spec_plugin_id_version;
use crate::plugin_lines::spec_plugin_kotlin_shorthand_version;
use crate::plugin_lines::spec_plugin_shorthand_only;
use crate::text::count_char;
use crate::text::count_char_in;
use crate::text::spec_lines;
use crate::text::split_lines;
use crate::text::str_eq;

verus! {

// ---------------------------------------------------------------------------
// Clamped brace balance
// ---------------------------------------------------------------------------

/// `x` clamped into the 64-bit signed range.
pub open spec fn spec_sat_i64(x: int) -> int {
    if x > i64::MAX {
        i64::MAX as int
    } else if x < i64::MIN {
        i64::MIN as int
    } else {
        x
    }
}

/// A line's effect on the running brace balance: add its opening braces and
/// subtract its closing ones, clamped at the extremes.
pub open spec fn spec_depth_update(d: int, opens: nat, closes: nat) -> int {
    let o = spec_sat_i64(opens as int);
    let c = spec_sat_i64(closes as int);
    spec_sat_i64(spec_sat_i64(d + o) - c)
}

fn depth_update(d: i64, opens: usize, closes: usize) -> (r: i64)
    ensures
        r as int == spec_depth_update(d as int, opens as nat, closes as nat),
{
    let o: i64 = if (opens as u128) > (i64::MAX as u128) {
        i64::MAX
    } else {
        opens as i64
    };
    let c: i64 = if (closes as u128) > (i64::MAX as u128) {
        i64::MAX
    } else {
        closes as i64
    };
    let s1: i64 = if d > i64::MAX - o {
        i64::MAX
    } else {
        d + o
    };
    let s2: i64 = if s1 < i64::MIN + c {
        i64::MIN
    } else {
        s1 - c
    };
    s2
}

/// The brace balance a line contributes, as the depth update of its counts.
pub open spec fn spec_line_depth(d: int, line: Seq<char>) -> int {
    spec_depth_update(d, count_char(line, '{'), count_char(line, '}'))
}

fn line_depth(d: i64, line: &str) -> (r: i64)
    ensures
        r as int == spec_line_depth(d as int, line@),
{
    let opens = count_char_in(line, '{');
    let closes = count_char_in(line, '}');
    depth_update(d, opens, closes)
}

// ---------------------------------------------------------------------------
// Resolution across every known catalog
// ---------------------------------------------------------------------------

/// First-wins resolution of a library alias over the catalogs in order.
pub open spec fn spec_resolve_library_in(
    cats: Seq<(Seq<char>, VersionCatalogV)>,
    key: Seq<char>,
) -> Option<(Seq<char>, Seq<char>, Seq<char>)>
    decreases cats.len(),
{
    if cats.len() == 0 {
        None
    } else {
        match spec_resolve_library(cats[0].1, key) {
            Some(t) => Some(t),
            None => spec_resolve_library_in(cats.drop_first(), key),
        }
    }
}

/// First-wins resolution of a plugin alias over the catalogs in order.
pub open spec fn spec_resolve_plugin_in(
    cats: Seq<(Seq<char>, VersionCatalogV)>,
    key: Seq<char>,
) -> Option<(Seq<char>, Option<Seq<char>>)>
    decreases cats.len(),
{
    if cats.len() == 0 {
        None
    } else {
        match spec_resolve_plugin(cats[0].1, key) {
            Some(t) => Some(t),
            None => spec_resolve_plugin_in(cats.drop_first(), key),
        }
    }
}

fn resolve_library_in(catalogs: &Vec<(String, VersionCatalog)>, key: &str) -> (r: Option<
    (String, String, String),
>)
    ensures
        r.deep_view() == spec_resolve_library_in(catalogs.deep_view(), key@),
{
    let ghost dv = catalogs.deep_view();
    let n = catalogs.len();
    proof {
        assert(dv.skip(0) =~= dv);
    }
    let mut i: usize = 0;
    while i < n
        invariant
            i <= n,
            n == catalogs.len(),
            dv == catalogs.deep_view(),
            spec_resolve_library_in(dv, key@) == spec_resolve_library_in(dv.skip(i as int), key@),
        decreases n - i,
    {
        proof {
            assert(dv.skip(i as int)[0] == dv[i as int]);
            assert(dv.skip(i as int).drop_first() =~= dv.skip(i + 1));
        }
        match catalogs[i].1.resolve_library_version(key) {
            Some(t) => {
                return Some(t);
            },
            None => {},
        }
        i = i + 1;
    }
    proof {
        assert(dv.skip(n as int) =~= Seq::<(Seq<char>, VersionCatalogV)>::empty());
    }
    None
}

fn resolve_plugin_in(catalogs: &Vec<(String, VersionCatalog)>, key: &str) -> (r: Option<
    (String, Option<String>),
>)
    ensures
        r.deep_view() == spec_resolve_plugin_in(catalogs.deep_view(), key@),
{
    let ghost dv = catalogs.deep_view();
    let n = catalogs.len();
    proof {
        assert(dv.skip(0) =~= dv);
    }
    let mut i: usize = 0;
    while i < n
        invariant
            i <= n,
            n == catalogs.len(),
            dv == catalogs.deep_view(),
            spec_resolve_plugin_in(dv, key@) == spec_resolve_plugin_in(dv.skip(i as int), key@),
        decreases n - i,
    {
        proof {
            assert(dv.skip(i as int)[0] == dv[i as int]);
            assert(dv.skip(i as int).drop_first() =~= dv.skip(i + 1));
        }
        match catalogs[i].1.resolve_plugin_version(key) {
            Some(t) => {
                return Some(t);
            },
            None => {},
        }
        i = i + 1;
    }
    proof {
        assert(dv.skip(n as int) =~= Seq::<(Seq<char>, VersionCatalogV)>::empty());
    }
    None
}

// ---------------------------------------------------------------------------
// The dependency a single line emits
// ---------------------------------------------------------------------------

/// A configuration name suffixed with the enclosing source set, except for
/// the main scope, which stays bare.
pub open spec fn spec_suffixed_config(c: Seq<char>, set_name: Seq<char>) -> Seq<char> {
    if set_name == "main"@ {
        c
    } else {
        c + "-"@ + set_name
    }
}

fn suffixed_config(c: String, set_name: &str) -> (r: String)
    ensures
        r@ == spec_suffixed_config(c@, set_name@),
{
    if str_eq(set_name, "main") {
        c
    } else {
        let mut r = c;
        r.append("-");
        r.append(set_name);
        r
    }
}

/// The declaration a line inside a dependency block emits, if any: the
/// shapes are tried in a fixed priority order, inter-module references are
/// excluded, and catalog aliases resolve against the catalogs in order —
/// dots of a dotted alias path become hyphens for the lookup — with the
/// `compose` accessor namespace synthesized as an umbrella-versioned
/// coordinate when no catalog entry matches.
pub open spec fn spec_dep_emission(
    line: Seq<char>,
    file: Seq<char>,
    lnum: int,
    cats: Seq<(Seq<char>, VersionCatalogV)>,
    set_name: Seq<char>,
) -> Option<DependencyLocationV> {
    if spec_is_project_dep(line) {
        None
    } else if spec_string_dep(line) is Some {
        let (c, g, a, v) = spec_string_dep(line)->0;
        Some(
            DependencyLocationV {
                dependency: DependencyV { group: g, artifact: a, version: Some(v) },
                file_path: file,
                line_number: lnum,
                configuration: spec_suffixed_config(c, set_name),
                source_type: DependencySourceTypeV::Direct,
            },
        )
    } else if spec_map_dep(line, "group"@, "name"@) is Some {
        let (c, g, a, v) = spec_map_dep(line, "group"@, "name"@)->0;
        Some(
            DependencyLocationV {
                dependency: DependencyV { group: g, artifact: a, version: Some(v) },
                file_path: file,
                line_number: lnum,
                configuration: spec_suffixed_config(c, set_name),
                source_type: DependencySourceTypeV::Direct,
            },
        )
    } else if spec_map_dep(line, "name"@, "group"@) is Some {
        let (c, a, g, v) = spec_map_dep(line, "name"@, "group"@)->0;
        Some(
            DependencyLocationV {
                dependency: DependencyV { group: g, artifact: a, version: Some(v) },
                file_path: file,
                line_number: lnum,
                configuration: spec_suffixed_config(c, set_name),
                source_type: DependencySourceTypeV::Direct,
            },
        )
    } else if spec_libs_dep(line) is Some && spec_resolve_library_in(
        cats,
        dots_to_hyphens((spec_libs_dep(line)->0).1),
    ) is Some {
        let (c, rf) = spec_libs_dep(line)->0;
        let (g, a, v) = spec_resolve_library_in(cats, dots_to_hyphens(rf))->0;
        Some(
            DependencyLocationV {
                dependency: DependencyV { group: g, artifact: a, version: Some(v) },
                file_path: file,
                line_number: lnum,
                configuration: spec_suffixed_config(c, set_name),
                source_type: DependencySourceTypeV::VersionCatalog(rf),
            },
        )
    } else if spec_accessor_dep(line) is Some {
        let (c, cat, rf) = spec_accessor_dep(line)->0;
        if cat == "projects"@ {
            None
        } else {
            let key = if cat == "compose"@ {
                "compose-"@ + dots_to_hyphens(rf)
            } else {
                dots_to_hyphens(rf)
            };
            match spec_resolve_library_in(cats, key) {
                Some((g, a, v)) => Some(
                    DependencyLocationV {
                        dependency: DependencyV { group: g, artifact: a, version: Some(v) },
                        file_path: file,
                        line_number: lnum,
                        configuration: spec_suffixed_config(c, set_name),
                        source_type: DependencySourceTypeV::VersionCatalog(cat + "."@ + rf),
                    },
                ),
                None => if cat == "compose"@ {
                    Some(
                        DependencyLocationV {
                            dependency: DependencyV {
                                group: "org.jetbrains.compose"@,
                                artifact: dots_to_hyphens(rf),
                                version: None,
                            },
                            file_path: file,
                            line_number: lnum,
                            configuration: spec_suffixed_config(c, set_name),
                            source_type: DependencySourceTypeV::VersionCatalog(cat + "."@ + rf),
                        },
                    )
                } else {
                    None
                },
            }
        }
    } else {
        None
    }
}

fn dep_emission(
    line: &str,
    file: &str,
    lnum: usize,
    catalogs: &Vec<(String, VersionCatalog)>,
    set_name: &str,
) -> (r: Option<DependencyLocation>)
    ensures
        r.deep_view() == spec_dep_emission(
            line@,
            file@,
            lnum as int,
            catalogs.deep_view(),
            set_name@,
        ),
{
    if is_project_dependency(line) {
        return None;
    }
    if let Some((c, g, a, v)) = parse_string_dep(line) {
        return Some(
            DependencyLocation {
                dependency: Dependency { group: g, artifact: a, version: Some(v) },
                file_path: file.to_owned(),
                line_number: lnum,
                configuration: suffixed_config(c, set_name),
                source_type: DependencySourceType::Direct,
            },
        );
    }
    if let Some((c, g, a, v)) = parse_map_dep(line, "group", "name") {
        return Some(
            DependencyLocation {
                dependency: Dependency { group: g, artifact: a, version: Some(v) },
                file_path: file.to_owned(),
                line_number: lnum,
                configuration: suffixed_config(c, set_name),
                source_type: DependencySourceType::Direct,
            },
        );
    }
    if let Some((c, a, g, v)) = parse_map_dep(line, "name", "group") {
        return Some(
            DependencyLocation {
                dependency: Dependency { group: g, artifact: a, version: Some(v) },
                file_path: file.to_owned(),
                line_number: lnum,
                configuration: suffixed_config(c, set_name),
                source_type: DependencySourceType::Direct,
            },
        );
    }
    if let Some((c, rf)) = parse_libs_dep(line) {
        // dots in the alias path become hyphens for the catalog lookup
        let lookup = to_hyphened(rf.as_str());
        if let Some((g, a, v)) = resolve_library_in(catalogs, lookup.as_str()) {
            return Some(
                DependencyLocation {
                    dependency: Dependency { group: g, artifact: a, version: Some(v) },
                    file_path: file.to_owned(),
                    line_number: lnum,
                    configuration: suffixed_config(c, set_name),
                    source_type: DependencySourceType::VersionCatalog(rf),
                },
            );
        }
    }
    if let Some((c, cat, rf)) = parse_accessor_dep(line) {
        if str_eq(cat.as_str(), "projects") {
            return None;
        }
        let hyphened = to_hyphened(rf.as_str());
        let is_compose = str_eq(cat.as_str(), "compose");
        let key = if is_compose {
            let mut k = "compose-".to_owned();
            k.append(hyphened.as_str());
            k
        } else {
            hyphened.clone()
        };
        let mut source_ref = cat.clone();
        source_ref.append(".");
        source_ref.append(rf.as_str());
        if let Some((g, a, v)) = resolve_library_in(catalogs, key.as_str()) {
            return Some(
                DependencyLocation {
                    dependency: Dependency { group: g, artifact: a, version: Some(v) },
                    file_path: file.to_owned(),
                    line_number: lnum,
                    configuration: suffixed_config(c, set_name),
                    source_type: DependencySourceType::VersionCatalog(source_ref),
                },
            );
        }
        if is_compose {
            return Some(
                DependencyLocation {
                    dependency: Dependency {
                        group: "org.jetbrains.compose".to_owned(),
                        artifact: hyphened,
                        version: None,
                    },
                    file_path: file.to_owned(),
                    line_number: lnum,
                    configuration: suffixed_config(c, set_name),
                    source_type: DependencySourceType::VersionCatalog(source_ref),
                },
            );
        }
        return None;
    }
    None
}

// ---------------------------------------------------------------------------
// The dependency-extraction state machine
// ---------------------------------------------------------------------------

/// Where the scanner stands in a build file's nested block structure. Each
/// depth is the running brace balance of the innermost tracked block.
pub enum ParserState {
    /// Outside any dependency-bearing block.
    Normal,
    /// Inside a `kotlin` configuration block.
    InKotlin(i64),
    /// Inside a `sourceSets` container.
    InSourceSets(i64),
    /// Inside one named source set's body, before its dependencies block.
    InSourceSet(String, i64),
    /// Inside a dependency block, scoped to the named source set (`main` for
    /// the top-level block).
    InDependencies(String, i64),
}

/// Mathematical image of a `ParserState`.
pub enum ParserStateV {
    Normal,
    InKotlin(int),
    InSourceSets(int),
    InSourceSet(Seq<char>, int),
    InDependencies(Seq<char>, int),
}

impl View for ParserState {
    type V = ParserStateV;

    open spec fn view(&self) -> ParserStateV {
        match self {
            ParserState::Normal => ParserStateV::Normal,
            ParserState::InKotlin(d) => ParserStateV::InKotlin(*d as int),
            ParserState::InSourceSets(d) => ParserStateV::InSourceSets(*d as int),
            ParserState::InSourceSet(n, d) => ParserStateV::InSourceSet(n@, *d as int),
            ParserState::InDependencies(n, d) => ParserStateV::InDependencies(n@, *d as int),
        }
    }
}

/// How one line advances the scanner and what it emits. Openers are only
/// recognized from the states the table of states allows; a block is left
/// when its brace balance reaches zero exactly.
pub open spec fn spec_dep_step(
    st: ParserStateV,
    line: Seq<char>,
    file: Seq<char>,
    lnum: int,
    cats: Seq<(Seq<char>, VersionCatalogV)>,
) -> (ParserStateV, Option<DependencyLocationV>) {
    match st {
        ParserStateV::Normal => {
            if spec_opens_block(line, "kotlin"@) {
                (ParserStateV::InKotlin(1), None)
            } else if spec_opens_block(line, "sourceSets"@) {
                (ParserStateV::InSourceSets(1), None)
            } else if spec_opens_block(line, "dependencies"@) {
                (ParserStateV::InDependencies("main"@, 1), None)
            } else {
                (ParserStateV::Normal, None)
            }
        },
        ParserStateV::InKotlin(d) => {
            let d2 = spec_line_depth(d, line);
            if d2 == 0 {
                (ParserStateV::Normal, None)
            } else if spec_opens_block(line, "sourceSets"@) {
                (ParserStateV::InSourceSets(1), None)
            } else {
                (ParserStateV::InKotlin(d2), None)
            }
        },
        ParserStateV::InSourceSets(d) => {
            let d2 = spec_line_depth(d, line);
            if d2 == 0 {
                (ParserStateV::Normal, None)
            } else if spec_source_set_dependencies(line) is Some {
                (ParserStateV::InDependencies(spec_source_set_dependencies(line)->0, 1), None)
            } else if spec_source_set_block(line) is Some {
                (ParserStateV::InSourceSet(spec_source_set_block(line)->0, 1), None)
            } else {
                (ParserStateV::InSourceSets(d2), None)
            }
        },
        ParserStateV::InSourceSet(name, d) => {
            if spec_opens_block(line, "dependencies"@) {
                // The source set's own balance is left untouched here, as the
                // dependencies block carries its own.
                (ParserStateV::InDependencies(name, 1), None)
            } else {
                let d2 = spec_line_depth(d, line);
                if d2 == 0 {
                    (ParserStateV::InSourceSets(1), None)
                } else {
                    (ParserStateV::InSourceSet(name, d2), None)
                }
            }
        },
        ParserStateV::InDependencies(name, d) => {
            let d2 = spec_line_depth(d, line);
            if d2 == 0 {
                if name == "main"@ {
                    (ParserStateV::Normal, None)
                } else {
                    (ParserStateV::InSourceSets(1), None)
                }
            } else {
                (
                    ParserStateV::InDependencies(name, d2),
                    spec_dep_emission(line, file, lnum, cats, name),
                )
            }
        },
    }
}

fn dep_step(
    st: ParserState,
    line: &str,
    file: &str,
    lnum: usize,
    catalogs: &Vec<(String, VersionCatalog)>,
) -> (r: (ParserState, Option<DependencyLocation>))
    ensures
        r.0@ == spec_dep_step(st@, line@, file@, lnum as int, catalogs.deep_view()).0,
        r.1.deep_view() == spec_dep_step(st@, line@, file@, lnum as int, catalogs.deep_view()).1,
{
    match st {
        ParserState::Normal => {
            if opens_block(line, "kotlin") {
                (ParserState::InKotlin(1), None)
            } else if opens_block(line, "sourceSets") {
                (ParserState::InSourceSets(1), None)
            } else if opens_block(line, "dependencies") {
                (ParserState::InDependencies("main".to_owned(), 1), None)
            } else {
                (ParserState::Normal, None)
            }
        },
        ParserState::InKotlin(d) => {
            let d2 = line_depth(d, line);
            if d2 == 0 {
                (ParserState::Normal, None)
            } else if opens_block(line, "sourceSets") {
                (ParserState::InSourceSets(1), None)
            } else {
                (ParserState::InKotlin(d2), None)
            }
        },
        ParserState::InSourceSets(d) => {
            let d2 = line_depth(d, line);
            if d2 == 0 {
                (ParserState::Normal, None)
            } else if let Some(name) = parse_source_set_dependencies(line) {
                (ParserState::InDependencies(name, 1), None)
            } else if let Some(name) = parse_source_set_block(line) {
                (ParserState::InSourceSet(name, 1), None)
            } else {
                (ParserState::InSourceSets(d2), None)
            }
        },
        ParserState::InSourceSet(name, d) => {
            if opens_block(line, "dependencies") {
                (ParserState::InDependencies(name, 1), None)
            } else {
                let d2 = line_depth(d, line);
                if d2 == 0 {
                    (ParserState::InSourceSets(1), None)
                } else {
                    (ParserState::InSourceSet(name, d2), None)
                }
            }
        },
        ParserState::InDependencies(name, d) => {
            let d2 = line_depth(d, line);
            if d2 == 0 {
                if str_eq(name.as_str(), "main") {
                    (ParserState::Normal, None)
                } else {
                    (ParserState::InSourceSets(1), None)
                }
            } else {
                let em = dep_emission(line, file, lnum, catalogs, name.as_str());
                (ParserState::InDependencies(name, d2), em)
            }
        },
    }
}

/// Every dependency the lines from index `i` on emit, in order, starting
/// from scanner state `st`; line numbers are 1-based.
pub open spec fn spec_extract_deps(
    lines: Seq<Seq<char>>,
    i: int,
    st: ParserStateV,
    file: Seq<char>,
    cats: Seq<(Seq<char>, VersionCatalogV)>,
) -> Seq<DependencyLocationV>
    decreases lines.len() - i when 0 <= i <= lines.len()
{
    if i >= lines.len() {
        Seq::empty()
    } else {
        let (st2, em) = spec_dep_step(st, lines[i], file, i + 1, cats);
        (match em {
            Some(l) => seq![l],
            None => Seq::empty(),
        }) + spec_extract_deps(lines, i + 1, st2, file, cats)
    }
}

/// Every dependency a build file's text declares, in order of appearance.
pub open spec fn spec_extract_dependencies(
    file: Seq<char>,
    content: Seq<char>,
    cats: Seq<(Seq<char>, VersionCatalogV)>,
) -> Seq<DependencyLocationV> {
    spec_extract_deps(spec_lines(content), 0, ParserStateV::Normal, file, cats)
}

/// Scans one build file's text and emits every structured dependency
/// declaration it recognizes, tagged with the file's path and its 1-based
/// line number, with configurations suffixed by their source set.
pub fn parse_dependencies_from_file(
    file_path: &str,
    content: &str,
    catalogs: &Vec<(String, VersionCatalog)>,
) -> (r: Vec<DependencyLocation>)
    ensures
        r.deep_view() == spec_extract_dependencies(file_path@, content@, catalogs.deep_view()),
{
    let lines = split_lines(content);
    let ghost lns = lines.deep_view();
    let ghost cats = catalogs.deep_view();
    let n = lines.len();
    let mut out: Vec<DependencyLocation> = Vec::new();
    let mut st = ParserState::Normal;
    let mut i: usize = 0;
    proof {
        assert(out.deep_view() =~= Seq::<DependencyLocationV>::empty());
        assert(spec_extract_dependencies(file_path@, content@, cats) =~= out.deep_view()
            + spec_extract_deps(lns, 0, st@, file_path@, cats));
    }
    while i < n
        invariant
            i <= n,
            n == lns.len(),
            lns == lines.deep_view(),
            cats == catalogs.deep_view(),
            spec_extract_dependencies(file_path@, content@, cats) == out.deep_view()
                + spec_extract_deps(lns, i as int, st@, file_path@, cats),
        decreases n - i,
    {
        let ghost st_prev = st@;
        let ghost out_prev = out.deep_view();
        let (st2, em) = dep_step(st, lines[i].as_str(), file_path, i + 1, catalogs);
        st = st2;
        proof {
            assert(lns[i as int] == lines@[i as int]@);
        }
        match em {
            Some(loc) => {
                let ghost lv = loc@;
                out.push(loc);
                proof {
                    assert(out.deep_view() =~= out_prev + seq![lv]);
                    assert(out_prev + (seq![lv] + spec_extract_deps(
                        lns,
                        i + 1,
                        st@,
                        file_path@,
                        cats,
                    )) =~= out.deep_view() + spec_extract_deps(lns, i + 1, st@, file_path@, cats));
                }
            },
            None => {
                proof {
                    assert(out_prev + (Seq::<DependencyLocationV>::empty() + spec_extract_deps(
                        lns,
                        i + 1,
                        st@,
                        file_path@,
                        cats,
                    )) =~= out.deep_view() + spec_extract_deps(lns, i + 1, st@, file_path@, cats));
                }
            },
        }
        i = i + 1;
    }
    proof {
        assert(spec_extract_deps(lns, n as int, st@, file_path@, cats) =~= Seq::<
            DependencyLocationV,
        >::empty());
        assert(spec_extract_dependencies(file_path@, content@, cats) =~= out.deep_view());
    }
    out
}

/// Exclusion of inter-module references: a line carrying a project
/// reference emits no dependency, from any scanner state.
pub proof fn lemma_project_reference_excluded(
    st: ParserStateV,
    line: Seq<char>,
    file: Seq<char>,
    lnum: int,
    cats: Seq<(Seq<char>, VersionCatalogV)>,
)
    requires
        spec_is_project_dep(line),
    ensures
        spec_dep_step(st, line, file, lnum, cats).1 is None,
{
}

// ---------------------------------------------------------------------------
// The plugin-extraction state machine
// ---------------------------------------------------------------------------

/// Where the plugin scanner stands: inside a `plugins` block or not, with
/// that block's running brace balance.
pub struct PluginScan {
    pub in_block: bool,
    pub depth: i64,
}

/// Mathematical image of a `PluginScan`.
pub struct PluginScanV {
    pub in_block: bool,
    pub depth: int,
}

impl View for PluginScan {
    type V = PluginScanV;

    open spec fn view(&self) -> PluginScanV {
        PluginScanV { in_block: self.in_block, depth: self.depth as int }
    }
}

/// The plugin an `apply` statement on this line declares, if any; such
/// statements are recognized anywhere in a file.
pub open spec fn spec_apply_emission(line: Seq<char>, file: Seq<char>, lnum: int) -> Option<
    PluginLocationV,
> {
    let id = if spec_apply_plugin(line) is Some {
        Some(spec_apply_plugin(line)->0)
    } else if spec_apply_plugin_groovy(line) is Some {
        Some(spec_apply_plugin_groovy(line)->0)
    } else {
        None
    };
    match id {
        Some(id) => Some(
            PluginLocationV {
                plugin: PluginV { id: id, version: None },
                file_path: file,
                line_number: lnum,
                source_type: PluginSourceTypeV::ApplyPlugin,
            },
        ),
        None => None,
    }
}

fn apply_emission(line: &str, file: &str, lnum: usize) -> (r: Option<PluginLocation>)
    ensures
        r.deep_view() == spec_apply_emission(line@, file@, lnum as int),
{
    let id = match parse_apply_plugin(line) {
        Some(id) => id,
        None => match parse_apply_plugin_groovy(line) {
            Some(id) => id,
            None => {
                return None;
            },
        },
    };
    Some(
        PluginLocation {
            plugin: Plugin { id, version: None },
            file_path: file.to_owned(),
            line_number: lnum,
            source_type: PluginSourceType::ApplyPlugin,
        },
    )
}

/// The plugin a line inside a `plugins` block declares, if any: versioned
/// shapes are tried before unversioned ones, then the shorthand whitelist,
/// then catalog plugin aliases resolved over the catalogs in order.
pub open spec fn spec_plugin_block_emission(
    line: Seq<char>,
    file: Seq<char>,
    lnum: int,
    cats: Seq<(Seq<char>, VersionCatalogV)>,
) -> Option<PluginLocationV> {
    if spec_plugin_id_version(line) is Some {
        let (id, v) = spec_plugin_id_version(line)->0;
        Some(
            PluginLocationV {
                plugin: PluginV { id: id, version: Some(v) },
                file_path: file,
                line_number: lnum,
                source_type: PluginSourceTypeV::PluginsBlock,
            },
        )
    } else if spec_plugin_dsl_id_version(line) is Some {
        let (id, v) = spec_plugin_dsl_id_version(line)->0;
        Some(
            PluginLocationV {
                plugin: PluginV { id: id, version: Some(v) },
                file_path: file,
                line_number: lnum,
                source_type: PluginSourceTypeV::PluginsBlock,
            },
        )
    } else if spec_plugin_kotlin_shorthand_version(line) is Some {
        let (id, v) = spec_plugin_kotlin_shorthand_version(line)->0;
        Some(
            PluginLocationV {
                plugin: PluginV { id: id, version: Some(v) },
                file_path: file,
                line_number: lnum,
                source_type: PluginSourceTypeV::PluginsBlock,
            },
        )
    } else if spec_plugin_id_only(line) is Some {
        Some(
            PluginLocationV {
                plugin: PluginV { id: spec_plugin_id_only(line)->0, version: None },
                file_path: file,
                line_number: lnum,
                source_type: PluginSourceTypeV::PluginsBlock,
            },
        )
    } else if spec_plugin_dsl_id_only(line) is Some {
        Some(
            PluginLocationV {
                plugin: PluginV { id: spec_plugin_dsl_id_only(line)->0, version: None },
                file_path: file,
                line_number: lnum,
                source_type: PluginSourceTypeV::PluginsBlock,
            },
        )
    } else if spec_plugin_shorthand_only(line) is Some {
        Some(
            PluginLocationV {
                plugin: PluginV { id: spec_plugin_shorthand_only(line)->0, version: None },
                file_path: file,
                line_number: lnum,
                source_type: PluginSourceTypeV::PluginsBlock,
            },
        )
    } else if spec_libs_plugin(line) is Some && spec_resolve_plugin_in(
        cats,
        spec_libs_plugin(line)->0,
    ) is Some {
        let rf = spec_libs_plugin(line)->0;
        let (id, v) = spec_resolve_plugin_in(cats, rf)->0;
        Some(
            PluginLocationV {
                plugin: PluginV { id: id, version: v },
                file_path: file,
                line_number: lnum,
                source_type: PluginSourceTypeV::VersionCatalog(rf),
            },
        )
    } else {
        None
    }
}

fn plugin_block_emission(
    line: &str,
    file: &str,
    lnum: usize,
    catalogs: &Vec<(String, VersionCatalog)>,
) -> (r: Option<PluginLocation>)
    ensures
        r.deep_view() == spec_plugin_block_emission(
            line@,
            file@,
            lnum as int,
            catalogs.deep_view(),
        ),
{
    if let Some((id, v)) = parse_plugin_id_version(line) {
        return Some(
            PluginLocation {
                plugin: Plugin { id, version: Some(v) },
                file_path: file.to_owned(),
                line_number: lnum,
                source_type: PluginSourceType::PluginsBlock,
            },
        );
    }
    if let Some((id, v)) = parse_plugin_dsl_id_version(line) {
        return Some(
            PluginLocation {
                plugin: Plugin { id, version: Some(v) },
                file_path: file.to_owned(),
                line_number: lnum,
                source_type: PluginSourceType::PluginsBlock,
            },
        );
    }
    if let Some((id, v)) = parse_plugin_kotlin_shorthand_version(line) {
        return Some(
            PluginLocation {
                plugin: Plugin { id, version: Some(v) },
                file_path: file.to_owned(),
                line_number: lnum,
                source_type: PluginSourceType::PluginsBlock,
            },
        );
    }
    if let Some(id) = parse_plugin_id_only(line) {
        return Some(
            PluginLocation {
                plugin: Plugin { id, version: None },
                file_path: file.to_owned(),
                line_number: lnum,
                source_type: PluginSourceType::PluginsBlock,
            },
        );
    }
    if let Some(id) = parse_plugin_dsl_id_only(line) {
        return Some(
            PluginLocation {
                plugin: Plugin { id, version: None },
                file_path: file.to_owned(),
                line_number: lnum,
                source_type: PluginSourceType::PluginsBlock,
            },
        );
    }
    if let Some(id) = parse_plugin_shorthand_only(line) {
        return Some(
            PluginLocation {
                plugin: Plugin { id, version: None },
                file_path: file.to_owned(),
                line_number: lnum,
                source_type: PluginSourceType::PluginsBlock,
            },
        );
    }
    if let Some(rf) = parse_libs_plugin(line) {
        if let Some((id, v)) = resolve_plugin_in(catalogs, rf.as_str()) {
            return Some(
                PluginLocation {
                    plugin: Plugin { id, version: v },
                    file_path: file.to_owned(),
                    line_number: lnum,
                    source_type: PluginSourceType::VersionCatalog(rf),
                },
            );
        }
    }
    None
}

/// How one line advances the plugin scanner and what it emits: a `plugins`
/// block opener is recognized anywhere and resets the balance; `apply`
/// statements are recognized on every other line; block shapes only while
/// the balance is positive.
pub open spec fn spec_plugin_step(
    st: PluginScanV,
    line: Seq<char>,
    file: Seq<char>,
    lnum: int,
    cats: Seq<(Seq<char>, VersionCatalogV)>,
) -> (PluginScanV, Seq<PluginLocationV>) {
    if spec_opens_block(line, "plugins"@) {
        (PluginScanV { in_block: true, depth: 1 }, Seq::empty())
    } else {
        let applies = match spec_apply_emission(line, file, lnum) {
            Some(l) => seq![l],
            None => Seq::empty(),
        };
        if st.in_block {
            let d2 = spec_line_depth(st.depth, line);
            if d2 == 0 {
                (PluginScanV { in_block: false, depth: d2 }, applies)
            } else {
                let block = match spec_plugin_block_emission(line, file, lnum, cats) {
                    Some(l) => seq![l],
                    None => Seq::empty(),
                };
                (PluginScanV { in_block: true, depth: d2 }, applies + block)
            }
        } else {
            (st, applies)
        }
    }
}

fn plugin_step(
    st: PluginScan,
    line: &str,
    file: &str,
    lnum: usize,
    catalogs: &Vec<(String, VersionCatalog)>,
) -> (r: (PluginScan, Vec<PluginLocation>))
    ensures
        r.0@ == spec_plugin_step(st@, line@, file@, lnum as int, catalogs.deep_view()).0,
        r.1.deep_view() == spec_plugin_step(st@, line@, file@, lnum as int, catalogs.deep_view()).1,
{
    let ghost spec_r = spec_plugin_step(st@, line@, file@, lnum as int, catalogs.deep_view());
    if opens_block(line, "plugins") {
        let out: Vec<PluginLocation> = Vec::new();
        proof {
            assert(out.deep_view() =~= Seq::<PluginLocationV>::empty());
        }
        return (PluginScan { in_block: true, depth: 1 }, out);
    }
    let mut out: Vec<PluginLocation> = Vec::new();
    proof {
        assert(out.deep_view() =~= Seq::<PluginLocationV>::empty());
    }
    let ghost applies = match spec_apply_emission(line@, file@, lnum as int) {
        Some(l) => seq![l],
        None => Seq::<PluginLocationV>::empty(),
    };
    match apply_emission(line, file, lnum) {
        Some(l) => {
            let ghost lv = l@;
            out.push(l);
            proof {
                assert(out.deep_view() =~= applies);
            }
        },
        None => {
            proof {
                assert(out.deep_view() =~= applies);
            }
        },
    }
    if st.in_block {
        let d2 = line_depth(st.depth, line);
        if d2 == 0 {
            (PluginScan { in_block: false, depth: d2 }, out)
        } else {
            let ghost before = out.deep_view();
            match plugin_block_emission(line, file, lnum, catalogs) {
                Some(l) => {
                    let ghost lv = l@;
                    out.push(l);
                    proof {
                        assert(out.deep_view() =~= before + seq![lv]);
                        assert(out.deep_view() =~= spec_r.1);
                    }
                },
                None => {
                    proof {
                        assert(out.deep_view() =~= before + Seq::<PluginLocationV>::empty());
                        assert(out.deep_view() =~= spec_r.1);
                    }
                },
            }
            (PluginScan { in_block: true, depth: d2 }, out)
        }
    } else {
        (st, out)
    }
}

/// Every plugin the lines from index `i` on emit, in order, starting from
/// scanner state `st`; line numbers are 1-based.
pub open spec fn spec_extract_plugs(
    lines: Seq<Seq<char>>,
    i: int,
    st: PluginScanV,
    file: Seq<char>,
    cats: Seq<(Seq<char>, VersionCatalogV)>,
) -> Seq<PluginLocationV>
    decreases lines.len() - i when 0 <= i <= lines.len()
{
    if i >= lines.len() {
        Seq::empty()
    } else {
        let (st2, ems) = spec_plugin_step(st, lines[i], file, i + 1, cats);
        ems + spec_extract_plugs(lines, i + 1, st2, file, cats)
    }
}

/// Every plugin a build file's text declares, in order of appearance.
pub open spec fn spec_extract_plugins(
    file: Seq<char>,
    content: Seq<char>,
    cats: Seq<(Seq<char>, VersionCatalogV)>,
) -> Seq<PluginLocationV> {
    spec_extract_plugs(spec_lines(content), 0, PluginScanV { in_block: false, depth: 0 }, file, cats)
}

/// Scans one build file's text and emits every structured plugin declaration
/// it recognizes, tagged with the file's path and its 1-based line number.
pub fn parse_plugins_from_file(
    file_path: &str,
    content: &str,
    catalogs: &Vec<(String, VersionCatalog)>,
) -> (r: Vec<PluginLocation>)
    ensures
        r.deep_view() == spec_extract_plugins(file_path@, content@, catalogs.deep_view()),
{
    let lines = split_lines(content);
    let ghost lns = lines.deep_view();
    let ghost cats = catalogs.deep_view();
    let n = lines.len();
    let mut out: Vec<PluginLocation> = Vec::new();
    let mut st = PluginScan { in_block: false, depth: 0 };
    let mut i: usize = 0;
    proof {
        assert(out.deep_view() =~= Seq::<PluginLocationV>::empty());
        assert(spec_extract_plugins(file_path@, content@, cats) =~= out.deep_view()
            + spec_extract_plugs(lns, 0, st@, file_path@, cats));
    }
    while i < n
        invariant
            i <= n,
            n == lns.len(),
            lns == lines.deep_view(),
            cats == catalogs.deep_view(),
            spec_extract_plugins(file_path@, content@, cats) == out.deep_view()
                + spec_extract_plugs(lns, i as int, st@, file_path@, cats),
        decreases n - i,
    {
        let ghost out_prev = out.deep_view();
        let (st2, mut ems) = plugin_step(st, lines[i].as_str(), file_path, i + 1, catalogs);
        st = st2;
        let ghost ems_v = ems.deep_view();
        proof {
            assert(lns[i as int] == lines@[i as int]@);
        }
        out.append(&mut ems);
        proof {
            assert(out.deep_view() =~= out_prev + ems_v);
            assert(out_prev + (ems_v + spec_extract_plugs(lns, i + 1, st@, file_path@, cats))
                =~= out.deep_view() + spec_extract_plugs(lns, i + 1, st@, file_path@, cats));
        }
        i = i + 1;
    }
    proof {
        assert(spec_extract_plugs(lns, n as int, st@, file_path@, cats) =~= Seq::<
            PluginLocationV,
        >::empty());
        assert(spec_extract_plugins(file_path@, content@, cats) =~= out.deep_view());
    }
    out
}

// ---------------------------------------------------------------------------
// Loading whole projects
// ---------------------------------------------------------------------------

/// Every dependency the given build files declare, concatenated in file
/// order.
pub open spec fn spec_all_dependencies(
    files: Seq<(Seq<char>, Seq<char>)>,
    cats: Seq<(Seq<char>, VersionCatalogV)>,
) -> Seq<DependencyLocationV>
    decreases files.len(),
{
    if files.len() == 0 {
        Seq::empty()
    } else {
        spec_extract_dependencies(files[0].0, files[0].1, cats) + spec_all_dependencies(
            files.drop_first(),
            cats,
        )
    }
}

/// Every plugin the given build files declare, concatenated in file order.
pub open spec fn spec_all_plugins(
    files: Seq<(Seq<char>, Seq<char>)>,
    cats: Seq<(Seq<char>, VersionCatalogV)>,
) -> Seq<PluginLocationV>
    decreases files.len(),
{
    if files.len() == 0 {
        Seq::empty()
    } else {
        spec_extract_plugins(files[0].0, files[0].1, cats) + spec_all_plugins(
            files.drop_first(),
            cats,
        )
    }
}

/// Extracts the dependencies of every build file, given as `(path, text)`
/// pairs, against the given catalogs.
pub fn load_all_dependencies(
    files: &Vec<(String, String)>,
    catalogs: &Vec<(String, VersionCatalog)>,
) -> (r: Vec<DependencyLocation>)
    ensures
        r.deep_view() == spec_all_dependencies(files.deep_view(), catalogs.deep_view()),
{
    let ghost fls = files.deep_view();
    let ghost cats = catalogs.deep_view();
    let n = files.len();
    let mut out: Vec<DependencyLocation> = Vec::new();
    let mut i: usize = 0;
    proof {
        assert(out.deep_view() =~= Seq::<DependencyLocationV>::empty());
        assert(fls.skip(0) =~= fls);
    }
    while i < n
        invariant
            i <= n,
            n == fls.len(),
            fls == files.deep_view(),
            cats == catalogs.deep_view(),
            spec_all_dependencies(fls, cats) == out.deep_view() + spec_all_dependencies(
                fls.skip(i as int),
                cats,
            ),
        decreases n - i,
    {
        let ghost out_prev = out.deep_view();
        let mut deps = parse_dependencies_from_file(
            files[i].0.as_str(),
            files[i].1.as_str(),
            catalogs,
        );
        let ghost deps_v = deps.deep_view();
        out.append(&mut deps);
        proof {
            assert(fls.skip(i as int)[0] == fls[i as int]);
            assert(fls.skip(i as int).drop_first() =~= fls.skip(i + 1));
            assert(out.deep_view() =~= out_prev + deps_v);
            assert(out_prev + (deps_v + spec_all_dependencies(fls.skip(i + 1), cats))
                =~= out.deep_view() + spec_all_dependencies(fls.skip(i + 1), cats));
        }
        i = i + 1;
    }
    proof {
        assert(fls.skip(n as int) =~= Seq::<(Seq<char>, Seq<char>)>::empty());
        assert(spec_all_dependencies(fls, cats) =~= out.deep_view());
    }
    out
}

/// Extracts the plugins of every build file, given as `(path, text)` pairs,
/// against the given catalogs.
pub fn load_all_plugins(
    files: &Vec<(String, String)>,
    catalogs: &Vec<(String, VersionCatalog)>,
) -> (r: Vec<PluginLocation>)
    ensures
        r.deep_view() == spec_all_plugins(files.deep_view(), catalogs.deep_view()),
{
    let ghost fls = files.deep_view();
    let ghost cats = catalogs.deep_view();
    let n = files.len();
    let mut out: Vec<PluginLocation> = Vec::new();
    let mut i: usize = 0;
    proof {
        assert(out.deep_view() =~= Seq::<PluginLocationV>::empty());
        assert(fls.skip(0) =~= fls);
    }
    while i < n
        invariant
            i <= n,
            n == fls.len(),
            fls == files.deep_view(),
            cats == catalogs.deep_view(),
            spec_all_plugins(fls, cats) == out.deep_view() + spec_all_plugins(
                fls.skip(i as int),
                cats,
            ),
        decreases n - i,
    {
        let ghost out_prev = out.deep_view();
        let mut plugs = parse_plugins_from_file(files[i].0.as_str(), files[i].1.as_str(), catalogs);
        let ghost plugs_v = plugs.deep_view();
        out.append(&mut plugs);
        proof {
            assert(fls.skip(i as int)[0] == fls[i as int]);
            assert(fls.skip(i as int).drop_first() =~= fls.skip(i + 1));
            assert(out.deep_view() =~= out_prev + plugs_v);
            assert(out_prev + (plugs_v + spec_all_plugins(fls.skip(i + 1), cats)) =~= out.deep_view()
                + spec_all_plugins(fls.skip(i + 1), cats));
        }
        i = i + 1;
    }
    proof {
        assert(fls.skip(n as int) =~= Seq::<(Seq<char>, Seq<char>)>::empty());
        assert(spec_all_plugins(fls, cats) =~= out.deep_view());
    }
    out
}

} // verus!
