//! The recognized plugin declaration shapes, one line at a time.

use vstd::prelude::*;
use crate::text::has_at;
use crate::text::match_at;
use crate::text::scan_ref;
use crate::text::scan_ref_end;
use crate::text::scan_shorthand;
use crate::text::scan_shorthand_end;
use crate::text::scan_space;
use crate::text::skip_spaces;
use crate::text::str_eq;
use crate::text::substring;
use crate::dep_lines::spec_quoted_value;
use crate::dep_lines::quoted_value;

verus! {

broadcast use crate::text::lemma_scan_while_bounds;

// ---------------------------------------------------------------------------
// Shared pieces
// ---------------------------------------------------------------------------

/// `kw` at index `i`, then a parenthesized quoted value: `kw("...")` with
/// optional whitespace. Yields the value and the index after `)`.
pub open spec fn spec_call_quoted(s: Seq<char>, i: int, kw: Seq<char>) -> Option<(Seq<char>, int)> {
    if has_at(s, i, kw) {
        let j = scan_space(s, i + kw.len());
        if j < s.len() && s[j] == '(' {
            let k = scan_space(s, j + 1);
            match spec_quoted_value(s, k) {
                None => None,
                Some((v, e)) => {
                    let m = scan_space(s, e);
                    if m < s.len() && s[m] == ')' {
                        Some((v, m + 1))
                    } else {
                        None
                    }
                },
            }
        } else {
            None
        }
    } else {
        None
    }
}

fn call_quoted(s: &str, i: usize, kw: &str) -> (r: Option<(String, usize)>)
    requires
        i <= s@.len(),
    ensures
        match r {
            Some(p) => spec_call_quoted(s@, i as int, kw@) == Some((p.0@, p.1 as int)) && p.1
                <= s@.len(),
            None => spec_call_quoted(s@, i as int, kw@) is None,
        },
{
    let n = s.unicode_len();
    if !match_at(s, i, kw) {
        return None;
    }
    let j = skip_spaces(s, i + kw.unicode_len());
    if !(j < n && s.get_char(j) == '(') {
        return None;
    }
    let k = skip_spaces(s, j + 1);
    let (v, e) = match quoted_value(s, k) {
        Some(p) => p,
        None => {
            return None;
        },
    };
    let m = skip_spaces(s, e);
    if m < n && s.get_char(m) == ')' {
        Some((v, m + 1))
    } else {
        None
    }
}

/// ` version "..."` after index `e`, demanding at least one space on each
/// side of the keyword. Yields the version.
pub open spec fn spec_version_suffix(s: Seq<char>, e: int) -> Option<Seq<char>> {
    if 0 <= e <= s.len() {
        let m = scan_space(s, e);
        if m > e && has_at(s, m, "version"@) {
            let w = m + "version"@.len();
            let x = scan_space(s, w);
            if x > w {
                match spec_quoted_value(s, x) {
                    Some((v, _)) => Some(v),
                    None => None,
                }
            } else {
                None
            }
        } else {
            None
        }
    } else {
        None
    }
}

fn version_suffix(s: &str, e: usize) -> (r: Option<String>)
    requires
        e <= s@.len(),
    ensures
        match r {
            Some(v) => spec_version_suffix(s@, e as int) == Some(v@),
            None => spec_version_suffix(s@, e as int) is None,
        },
{
    let n = s.unicode_len();
    let m = skip_spaces(s, e);
    proof {
        reveal_strlit("version");
    }
    if !(m > e && match_at(s, m, "version")) {
        return None;
    }
    assert(m + 7 <= n);
    let x = skip_spaces(s, m + 7);
    if !(x > m + 7) {
        return None;
    }
    match quoted_value(s, x) {
        Some((v, _)) => Some(v),
        None => None,
    }
}

/// Nothing but whitespace from index `e` to the end of the line.
pub open spec fn spec_only_spaces_after(s: Seq<char>, e: int) -> bool {
    0 <= e <= s.len() && scan_space(s, e) == s.len()
}

/// `id "..."` in declarative style: the keyword, at least one space, and a
/// quoted identifier. Yields the identifier and the index after its closing
/// quote.
pub open spec fn spec_groovy_id(s: Seq<char>) -> Option<(Seq<char>, int)> {
    let i = scan_space(s, 0);
    if has_at(s, i, "id"@) {
        let j = i + "id"@.len();
        let k = scan_space(s, j);
        if k > j {
            spec_quoted_value(s, k)
        } else {
            None
        }
    } else {
        None
    }
}

fn groovy_id(s: &str) -> (r: Option<(String, usize)>)
    ensures
        match r {
            Some(p) => spec_groovy_id(s@) == Some((p.0@, p.1 as int)) && p.1 <= s@.len(),
            None => spec_groovy_id(s@) is None,
        },
{
    let n = s.unicode_len();
    let i = skip_spaces(s, 0);
    proof {
        reveal_strlit("id");
    }
    if !match_at(s, i, "id") {
        return None;
    }
    assert(i + 2 <= n);
    let k = skip_spaces(s, i + 2);
    if k > i + 2 {
        quoted_value(s, k)
    } else {
        None
    }
}

// ---------------------------------------------------------------------------
// Plugin declaration shapes
// ---------------------------------------------------------------------------

/// `id "..." version "..."` (declarative style).
pub open spec fn spec_plugin_id_version(s: Seq<char>) -> Option<(Seq<char>, Seq<char>)> {
    match spec_groovy_id(s) {
        None => None,
        Some((id, e)) => match spec_version_suffix(s, e) {
            Some(v) => Some((id, v)),
            None => None,
        },
    }
}

pub fn parse_plugin_id_version(s: &str) -> (r: Option<(String, String)>)
    ensures
        match r {
            Some(p) => spec_plugin_id_version(s@) == Some((p.0@, p.1@)),
            None => spec_plugin_id_version(s@) is None,
        },
{
    let (id, e) = match groovy_id(s) {
        Some(p) => p,
        None => {
            return None;
        },
    };
    match version_suffix(s, e) {
        Some(v) => Some((id, v)),
        None => None,
    }
}

/// `id "..."` alone on its line (declarative style, unversioned).
pub open spec fn spec_plugin_id_only(s: Seq<char>) -> Option<Seq<char>> {
    match spec_groovy_id(s) {
        None => None,
        Some((id, e)) => if spec_only_spaces_after(s, e) {
            Some(id)
        } else {
            None
        },
    }
}

pub fn parse_plugin_id_only(s: &str) -> (r: Option<String>)
    ensures
        match r {
            Some(id) => spec_plugin_id_only(s@) == Some(id@),
            None => spec_plugin_id_only(s@) is None,
        },
{
    let n = s.unicode_len();
    let (id, e) = match groovy_id(s) {
        Some(p) => p,
        None => {
            return None;
        },
    };
    if skip_spaces(s, e) == n {
        Some(id)
    } else {
        None
    }
}

/// `id("...") version "..."` (call style).
pub open spec fn spec_plugin_dsl_id_version(s: Seq<char>) -> Option<(Seq<char>, Seq<char>)> {
    let i = scan_space(s, 0);
    match spec_call_quoted(s, i, "id"@) {
        None => None,
        Some((id, e)) => match spec_version_suffix(s, e) {
            Some(v) => Some((id, v)),
            None => None,
        },
    }
}

pub fn parse_plugin_dsl_id_version(s: &str) -> (r: Option<(String, String)>)
    ensures
        match r {
            Some(p) => spec_plugin_dsl_id_version(s@) == Some((p.0@, p.1@)),
            None => spec_plugin_dsl_id_version(s@) is None,
        },
{
    let i = skip_spaces(s, 0);
    let (id, e) = match call_quoted(s, i, "id") {
        Some(p) => p,
        None => {
            return None;
        },
    };
    match version_suffix(s, e) {
        Some(v) => Some((id, v)),
        None => None,
    }
}

/// `id("...")` alone on its line (call style, unversioned).
pub open spec fn spec_plugin_dsl_id_only(s: Seq<char>) -> Option<Seq<char>> {
    let i = scan_space(s, 0);
    match spec_call_quoted(s, i, "id"@) {
        None => None,
        Some((id, e)) => if spec_only_spaces_after(s, e) {
            Some(id)
        } else {
            None
        },
    }
}

pub fn parse_plugin_dsl_id_only(s: &str) -> (r: Option<String>)
    ensures
        match r {
            Some(id) => spec_plugin_dsl_id_only(s@) == Some(id@),
            None => spec_plugin_dsl_id_only(s@) is None,
        },
{
    let n = s.unicode_len();
    let i = skip_spaces(s, 0);
    let (id, e) = match call_quoted(s, i, "id") {
        Some(p) => p,
        None => {
            return None;
        },
    };
    if skip_spaces(s, e) == n {
        Some(id)
    } else {
        None
    }
}

/// `kotlin("...") version "..."`: the platform shorthand, whose plugin id is
/// the quoted type under the `org.jetbrains.kotlin.` prefix.
pub open spec fn spec_plugin_kotlin_shorthand_version(s: Seq<char>) -> Option<
    (Seq<char>, Seq<char>),
> {
    let i = scan_space(s, 0);
    match spec_call_quoted(s, i, "kotlin"@) {
        None => None,
        Some((ty, e)) => match spec_version_suffix(s, e) {
            Some(v) => Some(("org.jetbrains.kotlin."@ + ty, v)),
            None => None,
        },
    }
}

pub fn parse_plugin_kotlin_shorthand_version(s: &str) -> (r: Option<(String, String)>)
    ensures
        match r {
            Some(p) => spec_plugin_kotlin_shorthand_version(s@) == Some((p.0@, p.1@)),
            None => spec_plugin_kotlin_shorthand_version(s@) is None,
        },
{
    let i = skip_spaces(s, 0);
    let (ty, e) = match call_quoted(s, i, "kotlin") {
        Some(p) => p,
        None => {
            return None;
        },
    };
    match version_suffix(s, e) {
        Some(v) => {
            let mut id = "org.jetbrains.kotlin.".to_owned();
            id.append(ty.as_str());
            Some((id, v))
        },
        None => None,
    }
}

/// A bare shorthand plugin name alone on its line, restricted to a small
/// fixed whitelist so that arbitrary identifiers are not mistaken for
/// plugins.
pub open spec fn spec_plugin_shorthand_only(s: Seq<char>) -> Option<Seq<char>> {
    let i = scan_space(s, 0);
    let j = scan_shorthand(s, i);
    if j > i && spec_only_spaces_after(s, j) {
        let name = s.subrange(i, j);
        if name == "application"@ || name == "java-library"@ || name == "java"@ {
            Some(name)
        } else {
            None
        }
    } else {
        None
    }
}

pub fn parse_plugin_shorthand_only(s: &str) -> (r: Option<String>)
    ensures
        match r {
            Some(id) => spec_plugin_shorthand_only(s@) == Some(id@),
            None => spec_plugin_shorthand_only(s@) is None,
        },
{
    let n = s.unicode_len();
    let i = skip_spaces(s, 0);
    let j = scan_shorthand_end(s, i);
    if !(j > i && skip_spaces(s, j) == n) {
        return None;
    }
    let name = substring(s, i, j);
    if str_eq(name.as_str(), "application") || str_eq(name.as_str(), "java-library") || str_eq(
        name.as_str(),
        "java",
    ) {
        Some(name)
    } else {
        None
    }
}

/// `apply(plugin = "...")` (call style); legal anywhere in the file.
pub open spec fn spec_apply_plugin(s: Seq<char>) -> Option<Seq<char>> {
    let i = scan_space(s, 0);
    if has_at(s, i, "apply"@) {
        let j = scan_space(s, i + "apply"@.len());
        if j < s.len() && s[j] == '(' {
            let k = scan_space(s, j + 1);
            if has_at(s, k, "plugin"@) {
                let m = scan_space(s, k + "plugin"@.len());
                if m < s.len() && s[m] == '=' {
                    let x = scan_space(s, m + 1);
                    match spec_quoted_value(s, x) {
                        None => None,
                        Some((id, e)) => {
                            let t = scan_space(s, e);
                            if t < s.len() && s[t] == ')' {
                                Some(id)
                            } else {
                                None
                            }
                        },
                    }
                } else {
                    None
                }
            } else {
                None
            }
        } else {
            None
        }
    } else {
        None
    }
}

pub fn parse_apply_plugin(s: &str) -> (r: Option<String>)
    ensures
        match r {
            Some(id) => spec_apply_plugin(s@) == Some(id@),
            None => spec_apply_plugin(s@) is None,
        },
{
    let n = s.unicode_len();
    let i = skip_spaces(s, 0);
    proof {
        reveal_strlit("apply");
        reveal_strlit("plugin");
    }
    if !match_at(s, i, "apply") {
        return None;
    }
    let j = skip_spaces(s, i + 5);
    if !(j < n && s.get_char(j) == '(') {
        return None;
    }
    let k = skip_spaces(s, j + 1);
    if !match_at(s, k, "plugin") {
        return None;
    }
    let m = skip_spaces(s, k + 6);
    if !(m < n && s.get_char(m) == '=') {
        return None;
    }
    let x = skip_spaces(s, m + 1);
    let (id, e) = match quoted_value(s, x) {
        Some(p) => p,
        None => {
            return None;
        },
    };
    let t = skip_spaces(s, e);
    if t < n && s.get_char(t) == ')' {
        Some(id)
    } else {
        None
    }
}

/// `apply plugin: "..."` (statement style); legal anywhere in the file.
pub open spec fn spec_apply_plugin_groovy(s: Seq<char>) -> Option<Seq<char>> {
    let i = scan_space(s, 0);
    if has_at(s, i, "apply"@) {
        let j = scan_space(s, i + "apply"@.len());
        if j > i + "apply"@.len() && has_at(s, j, "plugin"@) {
            let m = scan_space(s, j + "plugin"@.len());
            if m < s.len() && s[m] == ':' {
                let x = scan_space(s, m + 1);
                match spec_quoted_value(s, x) {
                    Some((id, _)) => Some(id),
                    None => None,
                }
            } else {
                None
            }
        } else {
            None
        }
    } else {
        None
    }
}

pub fn parse_apply_plugin_groovy(s: &str) -> (r: Option<String>)
    ensures
        match r {
            Some(id) => spec_apply_plugin_groovy(s@) == Some(id@),
            None => spec_apply_plugin_groovy(s@) is None,
        },
{
    let n = s.unicode_len();
    let i = skip_spaces(s, 0);
    proof {
        reveal_strlit("apply");
        reveal_strlit("plugin");
    }
    if !match_at(s, i, "apply") {
        return None;
    }
    let j = skip_spaces(s, i + 5);
    if !(j > i + 5 && match_at(s, j, "plugin")) {
        return None;
    }
    let m = skip_spaces(s, j + 6);
    if !(m < n && s.get_char(m) == ':') {
        return None;
    }
    let x = skip_spaces(s, m + 1);
    match quoted_value(s, x) {
        Some((id, _)) => Some(id),
        None => None,
    }
}

/// `alias(libs.plugins.<path>)`: a catalog plugin alias reference.
pub open spec fn spec_libs_plugin(s: Seq<char>) -> Option<Seq<char>> {
    let i = scan_space(s, 0);
    if has_at(s, i, "alias"@) {
        let j = scan_space(s, i + "alias"@.len());
        if j < s.len() && s[j] == '(' {
            let k = scan_space(s, j + 1);
            if has_at(s, k, "libs.plugins."@) {
                let r0 = k + "libs.plugins."@.len();
                let r1 = scan_ref(s, r0);
                if r1 > r0 {
                    let t = scan_space(s, r1);
                    if t < s.len() && s[t] == ')' {
                        Some(s.subrange(r0, r1))
                    } else {
                        None
                    }
                } else {
                    None
                }
            } else {
                None
            }
        } else {
            None
        }
    } else {
        None
    }
}

pub fn parse_libs_plugin(s: &str) -> (r: Option<String>)
    ensures
        match r {
            Some(p) => spec_libs_plugin(s@) == Some(p@),
            None => spec_libs_plugin(s@) is None,
        },
{
    let n = s.unicode_len();
    let i = skip_spaces(s, 0);
    proof {
        reveal_strlit("alias");
        reveal_strlit("libs.plugins.");
    }
    if !match_at(s, i, "alias") {
        return None;
    }
    let j = skip_spaces(s, i + 5);
    if !(j < n && s.get_char(j) == '(') {
        return None;
    }
    let k = skip_spaces(s, j + 1);
    if !match_at(s, k, "libs.plugins.") {
        return None;
    }
    let r0 = k + 13;
    let r1 = scan_ref_end(s, r0);
    if !(r1 > r0) {
        return None;
    }
    let t = skip_spaces(s, r1);
    if t < n && s.get_char(t) == ')' {
        Some(substring(s, r0, r1))
    } else {
        None
    }
}

} // verus!
