//! The recognized dependency declaration shapes, one line at a time.
//!
//! Extraction is pattern-based and best-effort: a line either matches one of
//! the fixed shapes below exactly, or it is no declaration. Every shape is
//! specified against a spec-level parse over `Seq<char>`.

use vstd::prelude::*;
use crate::text::contains_char;
use crate::text::contains_ch;
use crate::text::ends_with;
use crate::text::has_at;
use crate::text::is_quote_char;
use crate::text::is_space_char;
use crate::text::match_at;
use crate::text::quote_char;
use crate::text::scan_alnum;
use crate::text::scan_alnum_end;
use crate::text::scan_coord;
use crate::text::scan_coord_end;
use crate::text::scan_ref;
use crate::text::scan_ref_end;
use crate::text::scan_space;
use crate::text::scan_unquoted;
use crate::text::scan_unquoted_end;
use crate::text::scan_word;
use crate::text::scan_word_end;
use crate::text::skip_spaces;
use crate::text::space_char;
use crate::text::str_ends_with;
use crate::text::str_eq;
use crate::text::substring;

verus! {

broadcast use crate::text::lemma_scan_while_bounds;

// ---------------------------------------------------------------------------
// Shared pieces
// ---------------------------------------------------------------------------

/// The configuration word opening a declaration: whitespace, then a nonempty
/// run of word characters. Yields the word and the index after it.
pub open spec fn spec_config_at(s: Seq<char>) -> Option<(Seq<char>, int)> {
    let i = scan_space(s, 0);
    let j = scan_word(s, i);
    if j > i {
        Some((s.subrange(i, j), j))
    } else {
        None
    }
}

pub fn config_at(s: &str) -> (r: Option<(String, usize)>)
    ensures
        match r {
            Some(p) => spec_config_at(s@) == Some((p.0@, p.1 as int)) && p.1 <= s@.len(),
            None => spec_config_at(s@) is None,
        },
{
    let i = skip_spaces(s, 0);
    let j = scan_word_end(s, i);
    if j > i {
        Some((substring(s, i, j), j))
    } else {
        None
    }
}

/// A quoted value: a quote, one or more characters that are not quotes, and
/// a closing quote of either kind. Yields the value and the index after the
/// closing quote.
pub open spec fn spec_quoted_value(s: Seq<char>, i: int) -> Option<(Seq<char>, int)> {
    if 0 <= i < s.len() && is_quote_char(s[i]) {
        let v0 = i + 1;
        let v1 = scan_unquoted(s, v0);
        if v1 > v0 && v1 < s.len() {
            Some((s.subrange(v0, v1), v1 + 1))
        } else {
            None
        }
    } else {
        None
    }
}

pub fn quoted_value(s: &str, i: usize) -> (r: Option<(String, usize)>)
    requires
        i <= s@.len(),
    ensures
        match r {
            Some(p) => spec_quoted_value(s@, i as int) == Some((p.0@, p.1 as int)) && p.1
                <= s@.len(),
            None => spec_quoted_value(s@, i as int) is None,
        },
{
    let n = s.unicode_len();
    if !(i < n && quote_char(s.get_char(i))) {
        return None;
    }
    let v1 = scan_unquoted_end(s, i + 1);
    if v1 > i + 1 && v1 < n {
        Some((substring(s, i + 1, v1), v1 + 1))
    } else {
        None
    }
}

/// A named argument `key : "value"` starting exactly at `i`.
pub open spec fn spec_named_arg(s: Seq<char>, i: int, key: Seq<char>) -> Option<(Seq<char>, int)> {
    if has_at(s, i, key) {
        let j = scan_space(s, i + key.len());
        if j < s.len() && s[j] == ':' {
            let j2 = scan_space(s, j + 1);
            spec_quoted_value(s, j2)
        } else {
            None
        }
    } else {
        None
    }
}

pub fn named_arg(s: &str, i: usize, key: &str) -> (r: Option<(String, usize)>)
    requires
        i <= s@.len(),
    ensures
        match r {
            Some(p) => spec_named_arg(s@, i as int, key@) == Some((p.0@, p.1 as int)) && p.1
                <= s@.len(),
            None => spec_named_arg(s@, i as int, key@) is None,
        },
{
    let n = s.unicode_len();
    if !match_at(s, i, key) {
        return None;
    }
    let klen = key.unicode_len();
    let j = skip_spaces(s, i + klen);
    if !(j < n && s.get_char(j) == ':') {
        return None;
    }
    let j2 = skip_spaces(s, j + 1);
    quoted_value(s, j2)
}

// ---------------------------------------------------------------------------
// Declaration shapes
// ---------------------------------------------------------------------------

/// An inline literal declaration: `configuration "group:artifact:version"`,
/// with either quote kind and an optional opening parenthesis. The group and
/// artifact hold neither quotes nor colons; the version holds no quotes.
pub open spec fn spec_string_dep(s: Seq<char>) -> Option<
    (Seq<char>, Seq<char>, Seq<char>, Seq<char>),
> {
    match spec_config_at(s) {
        None => None,
        Some((c, j)) => {
            let j1 = scan_space(s, j);
            let j2 = if j1 < s.len() && s[j1] == '(' {
                j1 + 1
            } else {
                j1
            };
            let j3 = scan_space(s, j2);
            if j3 < s.len() && is_quote_char(s[j3]) {
                let g0 = j3 + 1;
                let g1 = scan_coord(s, g0);
                if g1 > g0 && g1 < s.len() && s[g1] == ':' {
                    let a0 = g1 + 1;
                    let a1 = scan_coord(s, a0);
                    if a1 > a0 && a1 < s.len() && s[a1] == ':' {
                        let v0 = a1 + 1;
                        let v1 = scan_unquoted(s, v0);
                        if v1 > v0 && v1 < s.len() && is_quote_char(s[v1]) {
                            Some(
                                (
                                    c,
                                    s.subrange(g0, g1),
                                    s.subrange(a0, a1),
                                    s.subrange(v0, v1),
                                ),
                            )
                        } else {
                            None
                        }
                    } else {
                        None
                    }
                } else {
                    None
                }
            } else {
                None
            }
        },
    }
}

pub fn parse_string_dep(s: &str) -> (r: Option<(String, String, String, String)>)
    ensures
        match r {
            Some(p) => spec_string_dep(s@) == Some((p.0@, p.1@, p.2@, p.3@)),
            None => spec_string_dep(s@) is None,
        },
{
    let n = s.unicode_len();
    let (c, j) = match config_at(s) {
        Some(p) => p,
        None => {
            return None;
        },
    };
    let j1 = skip_spaces(s, j);
    let j2 = if j1 < n && s.get_char(j1) == '(' {
        j1 + 1
    } else {
        j1
    };
    let j3 = skip_spaces(s, j2);
    if !(j3 < n && quote_char(s.get_char(j3))) {
        return None;
    }
    let g0 = j3 + 1;
    let g1 = scan_coord_end(s, g0);
    if !(g1 > g0 && g1 < n && s.get_char(g1) == ':') {
        return None;
    }
    let a0 = g1 + 1;
    let a1 = scan_coord_end(s, a0);
    if !(a1 > a0 && a1 < n && s.get_char(a1) == ':') {
        return None;
    }
    let v0 = a1 + 1;
    let v1 = scan_unquoted_end(s, v0);
    if !(v1 > v0 && v1 < n && quote_char(s.get_char(v1))) {
        return None;
    }
    Some((c, substring(s, g0, g1), substring(s, a0, a1), substring(s, v0, v1)))
}

/// A map-style declaration
/// `configuration(first: "...", second: "...", version: "...")`, with the
/// two coordinate keys given by the caller in either order.
pub open spec fn spec_map_dep(s: Seq<char>, first: Seq<char>, second: Seq<char>) -> Option<
    (Seq<char>, Seq<char>, Seq<char>, Seq<char>),
> {
    match spec_config_at(s) {
        None => None,
        Some((c, j)) => {
            let j1 = scan_space(s, j);
            if j1 < s.len() && s[j1] == '(' {
                let i0 = scan_space(s, j1 + 1);
                match spec_named_arg(s, i0, first) {
                    None => None,
                    Some((v1, e1)) => {
                        let k1 = scan_space(s, e1);
                        if k1 < s.len() && s[k1] == ',' {
                            let i1 = scan_space(s, k1 + 1);
                            match spec_named_arg(s, i1, second) {
                                None => None,
                                Some((v2, e2)) => {
                                    let k2 = scan_space(s, e2);
                                    if k2 < s.len() && s[k2] == ',' {
                                        let i2 = scan_space(s, k2 + 1);
                                        match spec_named_arg(s, i2, "version"@) {
                                            None => None,
                                            Some((v3, e3)) => {
                                                let k3 = scan_space(s, e3);
                                                if k3 < s.len() && s[k3] == ')' {
                                                    Some((c, v1, v2, v3))
                                                } else {
                                                    None
                                                }
                                            },
                                        }
                                    } else {
                                        None
                                    }
                                },
                            }
                        } else {
                            None
                        }
                    },
                }
            } else {
                None
            }
        },
    }
}

pub fn parse_map_dep(s: &str, first: &str, second: &str) -> (r: Option<
    (String, String, String, String),
>)
    ensures
        match r {
            Some(p) => spec_map_dep(s@, first@, second@) == Some((p.0@, p.1@, p.2@, p.3@)),
            None => spec_map_dep(s@, first@, second@) is None,
        },
{
    let n = s.unicode_len();
    let (c, j) = match config_at(s) {
        Some(p) => p,
        None => {
            return None;
        },
    };
    let j1 = skip_spaces(s, j);
    if !(j1 < n && s.get_char(j1) == '(') {
        return None;
    }
    let i0 = skip_spaces(s, j1 + 1);
    let (v1, e1) = match named_arg(s, i0, first) {
        Some(p) => p,
        None => {
            return None;
        },
    };
    let k1 = skip_spaces(s, e1);
    if !(k1 < n && s.get_char(k1) == ',') {
        return None;
    }
    let i1 = skip_spaces(s, k1 + 1);
    let (v2, e2) = match named_arg(s, i1, second) {
        Some(p) => p,
        None => {
            return None;
        },
    };
    let k2 = skip_spaces(s, e2);
    if !(k2 < n && s.get_char(k2) == ',') {
        return None;
    }
    let i2 = skip_spaces(s, k2 + 1);
    let (v3, e3) = match named_arg(s, i2, "version") {
        Some(p) => p,
        None => {
            return None;
        },
    };
    let k3 = skip_spaces(s, e3);
    if k3 < n && s.get_char(k3) == ')' {
        Some((c, v1, v2, v3))
    } else {
        None
    }
}

/// A catalog alias reference in call-free form: `configuration libs.<path>`,
/// with at least one space before `libs.`.
pub open spec fn spec_libs_dep(s: Seq<char>) -> Option<(Seq<char>, Seq<char>)> {
    match spec_config_at(s) {
        None => None,
        Some((c, j)) => {
            let j1 = scan_space(s, j);
            if j1 > j && has_at(s, j1, "libs."@) {
                let r0 = j1 + "libs."@.len();
                let r1 = scan_ref(s, r0);
                if r1 > r0 {
                    Some((c, s.subrange(r0, r1)))
                } else {
                    None
                }
            } else {
                None
            }
        },
    }
}

pub fn parse_libs_dep(s: &str) -> (r: Option<(String, String)>)
    ensures
        match r {
            Some(p) => spec_libs_dep(s@) == Some((p.0@, p.1@)),
            None => spec_libs_dep(s@) is None,
        },
{
    let n = s.unicode_len();
    let (c, j) = match config_at(s) {
        Some(p) => p,
        None => {
            return None;
        },
    };
    let j1 = skip_spaces(s, j);
    proof {
        reveal_strlit("libs.");
    }
    if !(j1 > j && match_at(s, j1, "libs.")) {
        return None;
    }
    let r0 = j1 + 5;
    let r1 = scan_ref_end(s, r0);
    if r1 > r0 {
        Some((c, substring(s, r0, r1)))
    } else {
        None
    }
}

/// A catalog accessor call: `configuration(catalog.reference)`, naming the
/// catalog root and a dotted reference.
pub open spec fn spec_accessor_dep(s: Seq<char>) -> Option<(Seq<char>, Seq<char>, Seq<char>)> {
    match spec_config_at(s) {
        None => None,
        Some((c, j)) => {
            let j1 = scan_space(s, j);
            if j1 < s.len() && s[j1] == '(' {
                let i0 = scan_space(s, j1 + 1);
                let w1 = scan_word(s, i0);
                if w1 > i0 && w1 < s.len() && s[w1] == '.' {
                    let r0 = w1 + 1;
                    let r1 = scan_ref(s, r0);
                    if r1 > r0 {
                        let t = scan_space(s, r1);
                        if t < s.len() && s[t] == ')' {
                            Some((c, s.subrange(i0, w1), s.subrange(r0, r1)))
                        } else {
                            None
                        }
                    } else {
                        None
                    }
                } else {
                    None
                }
            } else {
                None
            }
        },
    }
}

pub fn parse_accessor_dep(s: &str) -> (r: Option<(String, String, String)>)
    ensures
        match r {
            Some(p) => spec_accessor_dep(s@) == Some((p.0@, p.1@, p.2@)),
            None => spec_accessor_dep(s@) is None,
        },
{
    let n = s.unicode_len();
    let (c, j) = match config_at(s) {
        Some(p) => p,
        None => {
            return None;
        },
    };
    let j1 = skip_spaces(s, j);
    if !(j1 < n && s.get_char(j1) == '(') {
        return None;
    }
    let i0 = skip_spaces(s, j1 + 1);
    let w1 = scan_word_end(s, i0);
    if !(w1 > i0 && w1 < n && s.get_char(w1) == '.') {
        return None;
    }
    let r0 = w1 + 1;
    let r1 = scan_ref_end(s, r0);
    if !(r1 > r0) {
        return None;
    }
    let t = skip_spaces(s, r1);
    if t < n && s.get_char(t) == ')' {
        Some((c, substring(s, i0, w1), substring(s, r0, r1)))
    } else {
        None
    }
}

// ---------------------------------------------------------------------------
// Inter-module references, which must never be extracted
// ---------------------------------------------------------------------------

/// The line holds a `project(` call (with optional space before the
/// parenthesis).
pub open spec fn spec_has_project_call(s: Seq<char>) -> bool {
    exists|i: int|
        has_at(s, i, "project"@) && {
            let j = scan_space(s, i + "project"@.len());
            j < s.len() && s[j] == '('
        }
}

fn has_project_call(s: &str) -> (r: bool)
    ensures
        r == spec_has_project_call(s@),
{
    proof {
        reveal_strlit("project");
    }
    let n = s.unicode_len();
    let mut i: usize = 0;
    while i < n
        invariant
            i <= n,
            n == s@.len(),
            "project"@.len() == 7,
            forall|k: int|
                0 <= k < i ==> !(has_at(s@, k, "project"@) && {
                    let j = scan_space(s@, k + "project"@.len());
                    j < s@.len() && s@[j] == '('
                }),
        decreases n - i,
    {
        if match_at(s, i, "project") {
            let j = skip_spaces(s, i + 7);
            if j < n && s.get_char(j) == '(' {
                assert(spec_has_project_call(s@));
                return true;
            }
        }
        i = i + 1;
    }
    assert forall|k: int|
        has_at(s@, k, "project"@) implies !{
        let j = scan_space(s@, k + "project"@.len());
        j < s@.len() && s@[j] == '('
    } by {
        assert(0 <= k < n);
    }
    false
}

/// The line holds a `projects.` accessor.
pub open spec fn spec_has_projects_accessor(s: Seq<char>) -> bool {
    crate::text::contains_seq(s, "projects."@)
}

/// The line declares an inter-module reference rather than an external
/// library; such a line is excluded from extraction.
pub open spec fn spec_is_project_dep(s: Seq<char>) -> bool {
    spec_has_project_call(s) || spec_has_projects_accessor(s)
}

pub fn is_project_dependency(s: &str) -> (r: bool)
    ensures
        r == spec_is_project_dep(s@),
{
    has_project_call(s) || crate::text::contains_pat(s, "projects.")
}

// ---------------------------------------------------------------------------
// Block openers
// ---------------------------------------------------------------------------

/// The line, after leading whitespace, starts with `kw` and holds an opening
/// brace somewhere.
pub open spec fn spec_opens_block(s: Seq<char>, kw: Seq<char>) -> bool {
    has_at(s, scan_space(s, 0), kw) && contains_char(s, '{')
}

pub fn opens_block(s: &str, kw: &str) -> (r: bool)
    ensures
        r == spec_opens_block(s@, kw@),
{
    let i = skip_spaces(s, 0);
    match_at(s, i, kw) && contains_ch(s, '{')
}

/// A scoped dependency-block opener: `<name>.dependencies {` alone on its
/// line, the name alphanumeric. Yields the source-set name.
pub open spec fn spec_source_set_dependencies(s: Seq<char>) -> Option<Seq<char>> {
    let i = scan_space(s, 0);
    let j = scan_alnum(s, i);
    if j > i && has_at(s, j, ".dependencies"@) {
        let k = scan_space(s, j + ".dependencies"@.len());
        if k < s.len() && s[k] == '{' && scan_space(s, k + 1) == s.len() {
            Some(s.subrange(i, j))
        } else {
            None
        }
    } else {
        None
    }
}

pub fn parse_source_set_dependencies(s: &str) -> (r: Option<String>)
    ensures
        match r {
            Some(name) => spec_source_set_dependencies(s@) == Some(name@),
            None => spec_source_set_dependencies(s@) is None,
        },
{
    let n = s.unicode_len();
    let i = skip_spaces(s, 0);
    let j = scan_alnum_end(s, i);
    proof {
        reveal_strlit(".dependencies");
    }
    if !(j > i && match_at(s, j, ".dependencies")) {
        return None;
    }
    let k = skip_spaces(s, j + 13);
    if k < n && s.get_char(k) == '{' && skip_spaces(s, k + 1) == n {
        Some(substring(s, i, j))
    } else {
        None
    }
}

/// A recognized source-set name: one ending in `Main` or `Test`, or one of a
/// small fixed set of platform names.
pub open spec fn spec_known_source_set(name: Seq<char>) -> bool {
    ||| ends_with(name, "Main"@)
    ||| ends_with(name, "Test"@)
    ||| name == "common"@
    ||| name == "android"@
    ||| name == "ios"@
    ||| name == "jvm"@
    ||| name == "js"@
}

fn known_source_set(name: &str) -> (r: bool)
    ensures
        r == spec_known_source_set(name@),
{
    str_ends_with(name, "Main") || str_ends_with(name, "Test") || str_eq(name, "common") || str_eq(
        name,
        "android",
    ) || str_eq(name, "ios") || str_eq(name, "jvm") || str_eq(name, "js")
}

/// A bare source-set block opener: `<name> {` alone on its line, where the
/// name follows a recognized source-set naming convention (to avoid false
/// positives on arbitrary identifiers). Yields the name.
pub open spec fn spec_source_set_block(s: Seq<char>) -> Option<Seq<char>> {
    let i = scan_space(s, 0);
    let j = scan_alnum(s, i);
    if j > i {
        let k = scan_space(s, j);
        if k < s.len() && s[k] == '{' && scan_space(s, k + 1) == s.len() {
            let name = s.subrange(i, j);
            if spec_known_source_set(name) {
                Some(name)
            } else {
                None
            }
        } else {
            None
        }
    } else {
        None
    }
}

pub fn parse_source_set_block(s: &str) -> (r: Option<String>)
    ensures
        match r {
            Some(name) => spec_source_set_block(s@) == Some(name@),
            None => spec_source_set_block(s@) is None,
        },
{
    let n = s.unicode_len();
    let i = skip_spaces(s, 0);
    let j = scan_alnum_end(s, i);
    if !(j > i) {
        return None;
    }
    let k = skip_spaces(s, j);
    if !(k < n && s.get_char(k) == '{' && skip_spaces(s, k + 1) == n) {
        return None;
    }
    let name = substring(s, i, j);
    if known_source_set(name.as_str()) {
        Some(name)
    } else {
        None
    }
}

// ---------------------------------------------------------------------------
// Alias spelling conversion
// ---------------------------------------------------------------------------

/// A dotted accessor path spelled as a catalog key: dots become hyphens.
pub open spec fn dots_to_hyphens(s: Seq<char>) -> Seq<char> {
    s.map_values(
        |c: char|
            if c == '.' {
                '-'
            } else {
                c
            },
    )
}

pub fn to_hyphened(s: &str) -> (r: String)
    ensures
        r@ == dots_to_hyphens(s@),
{
    let n = s.unicode_len();
    let mut out = String::new();
    let mut i: usize = 0;
    proof {
        assert(out@ =~= dots_to_hyphens(s@.take(0)));
    }
    while i < n
        invariant
            i <= n,
            n == s@.len(),
            out@ == dots_to_hyphens(s@.take(i as int)),
        decreases n - i,
    {
        if s.get_char(i) == '.' {
            out.append("-");
            proof {
                reveal_strlit("-");
            }
        } else {
            let piece = s.substring_char(i, i + 1);
            out.append(piece);
        }
        proof {
            assert(out@ =~= dots_to_hyphens(s@.take(i + 1)));
        }
        i = i + 1;
    }
    proof {
        assert(s@.take(n as int) =~= s@);
    }
    out
}

} // verus!
