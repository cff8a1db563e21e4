//! Version catalogs: parsed key/value documents that define reusable version
//! strings, library aliases and plugin aliases, together with alias
//! resolution.
//!
//! A catalog document is a table-structured text with three recognized
//! top-level sections, `versions`, `libraries` and `plugins`. The parser
//! here accepts the catalog subset of that format: one entry per line, with
//! quoted string values and single-level inline tables. Entries of other
//! sections are ignored; lines of recognized sections that cannot be decoded
//! fail the whole document.

use vstd::prelude::*;
use crate::error::AnalysisError;
use crate::text::is_quote_char;
use crate::text::quote_char;
use crate::text::scan_ref;
use crate::text::scan_ref_end;
use crate::text::scan_space;
use crate::text::scan_to_char;
use crate::text::skip_spaces;
use crate::text::spec_lines;
use crate::text::split_lines;
use crate::text::str_eq;
use crate::text::substring;

verus! {

broadcast use crate::text::lemma_scan_to_char_bounds, crate::text::lemma_scan_while_bounds;

// ---------------------------------------------------------------------------
// Data model
// ---------------------------------------------------------------------------

/// A version given either literally or as a reference into the `versions`
/// section.
#[derive(Debug)]
pub enum VersionRef {
    Direct(String),
    Reference(String),
}

/// Mathematical image of a `VersionRef`.
pub enum VersionRefV {
    Direct(Seq<char>),
    Reference(Seq<char>),
}

impl View for VersionRef {
    type V = VersionRefV;

    open spec fn view(&self) -> VersionRefV {
        match self {
            VersionRef::Direct(v) => VersionRefV::Direct(v@),
            VersionRef::Reference(r) => VersionRefV::Reference(r@),
        }
    }
}

impl DeepView for VersionRef {
    type V = VersionRefV;

    open spec fn deep_view(&self) -> VersionRefV {
        self.view()
    }
}

impl Clone for VersionRef {
    fn clone(&self) -> (r: Self)
        ensures
            r == self,
    {
        match self {
            VersionRef::Direct(v) => VersionRef::Direct(v.clone()),
            VersionRef::Reference(r) => VersionRef::Reference(r.clone()),
        }
    }
}

/// One entry of the `libraries` section.
#[derive(Debug)]
pub struct LibraryDefinition {
    pub group: Option<String>,
    pub name: Option<String>,
    pub version: Option<VersionRef>,
    pub version_ref: Option<String>,
}

/// Mathematical image of a `LibraryDefinition`.
pub struct LibraryDefinitionV {
    pub group: Option<Seq<char>>,
    pub name: Option<Seq<char>>,
    pub version: Option<VersionRefV>,
    pub version_ref: Option<Seq<char>>,
}

impl View for LibraryDefinition {
    type V = LibraryDefinitionV;

    open spec fn view(&self) -> LibraryDefinitionV {
        LibraryDefinitionV {
            group: self.group.deep_view(),
            name: self.name.deep_view(),
            version: self.version.deep_view(),
            version_ref: self.version_ref.deep_view(),
        }
    }
}

impl DeepView for LibraryDefinition {
    type V = LibraryDefinitionV;

    open spec fn deep_view(&self) -> LibraryDefinitionV {
        self.view()
    }
}

impl Clone for LibraryDefinition {
    fn clone(&self) -> (r: Self)
        ensures
            r == self,
    {
        LibraryDefinition {
            group: match &self.group {
                Some(g) => Some(g.clone()),
                None => None,
            },
            name: match &self.name {
                Some(n) => Some(n.clone()),
                None => None,
            },
            version: match &self.version {
                Some(v) => Some(v.clone()),
                None => None,
            },
            version_ref: match &self.version_ref {
                Some(r) => Some(r.clone()),
                None => None,
            },
        }
    }
}

/// One entry of the `plugins` section.
#[derive(Debug)]
pub struct PluginDefinition {
    pub id: String,
    pub version: Option<VersionRef>,
    pub version_ref: Option<String>,
}

/// Mathematical image of a `PluginDefinition`.
pub struct PluginDefinitionV {
    pub id: Seq<char>,
    pub version: Option<VersionRefV>,
    pub version_ref: Option<Seq<char>>,
}

impl View for PluginDefinition {
    type V = PluginDefinitionV;

    open spec fn view(&self) -> PluginDefinitionV {
        PluginDefinitionV {
            id: self.id@,
            version: self.version.deep_view(),
            version_ref: self.version_ref.deep_view(),
        }
    }
}

impl DeepView for PluginDefinition {
    type V = PluginDefinitionV;

    open spec fn deep_view(&self) -> PluginDefinitionV {
        self.view()
    }
}

impl Clone for PluginDefinition {
    fn clone(&self) -> (r: Self)
        ensures
            r == self,
    {
        PluginDefinition {
            id: self.id.clone(),
            version: match &self.version {
                Some(v) => Some(v.clone()),
                None => None,
            },
            version_ref: match &self.version_ref {
                Some(r) => Some(r.clone()),
                None => None,
            },
        }
    }
}

/// One parsed version-catalog document. Each section is present only when
/// its header occurred in the document; entries are kept in document order
/// under unique keys.
#[derive(Debug)]
pub struct VersionCatalog {
    pub versions: Option<Vec<(String, String)>>,
    pub libraries: Option<Vec<(String, LibraryDefinition)>>,
    pub plugins: Option<Vec<(String, PluginDefinition)>>,
}

/// Mathematical image of a `VersionCatalog`.
pub struct VersionCatalogV {
    pub versions: Option<Seq<(Seq<char>, Seq<char>)>>,
    pub libraries: Option<Seq<(Seq<char>, LibraryDefinitionV)>>,
    pub plugins: Option<Seq<(Seq<char>, PluginDefinitionV)>>,
}

impl View for VersionCatalog {
    type V = VersionCatalogV;

    open spec fn view(&self) -> VersionCatalogV {
        VersionCatalogV {
            versions: self.versions.deep_view(),
            libraries: self.libraries.deep_view(),
            plugins: self.plugins.deep_view(),
        }
    }
}

impl DeepView for VersionCatalog {
    type V = VersionCatalogV;

    open spec fn deep_view(&self) -> VersionCatalogV {
        self.view()
    }
}

// ---------------------------------------------------------------------------
// Association-list lookup
// ---------------------------------------------------------------------------

/// First-match lookup in an association list keyed by character sequences.
pub open spec fn assoc_lookup<V>(m: Seq<(Seq<char>, V)>, k: Seq<char>) -> Option<V>
    decreases m.len(),
{
    if m.len() == 0 {
        None
    } else if m[0].0 == k {
        Some(m[0].1)
    } else {
        assoc_lookup(m.drop_first(), k)
    }
}

/// The key is present in the association list.
pub open spec fn assoc_contains<V>(m: Seq<(Seq<char>, V)>, k: Seq<char>) -> bool {
    assoc_lookup(m, k) is Some
}

fn lookup_version_entry(m: &Vec<(String, String)>, k: &str) -> (r: Option<String>)
    ensures
        r.deep_view() == assoc_lookup(m.deep_view(), k@),
{
    let ghost dv = m.deep_view();
    let n = m.len();
    proof {
        assert(dv.skip(0) =~= dv);
    }
    let mut i: usize = 0;
    while i < n
        invariant
            i <= n,
            n == m.len(),
            dv == m.deep_view(),
            assoc_lookup(dv, k@) == assoc_lookup(dv.skip(i as int), k@),
        decreases n - i,
    {
        if crate::text::str_eq(m[i].0.as_str(), k) {
            assert(dv.skip(i as int)[0] == dv[i as int]);
            return Some(m[i].1.clone());
        }
        proof {
            assert(dv.skip(i as int)[0] == dv[i as int]);
            assert(dv.skip(i as int).drop_first() =~= dv.skip(i + 1));
        }
        i = i + 1;
    }
    proof {
        assert(dv.skip(n as int) =~= Seq::<(Seq<char>, Seq<char>)>::empty());
    }
    None
}

fn lookup_library_entry(m: &Vec<(String, LibraryDefinition)>, k: &str) -> (r: Option<
    LibraryDefinition,
>)
    ensures
        r.deep_view() == assoc_lookup(m.deep_view(), k@),
{
    let ghost dv = m.deep_view();
    let n = m.len();
    proof {
        assert(dv.skip(0) =~= dv);
    }
    let mut i: usize = 0;
    while i < n
        invariant
            i <= n,
            n == m.len(),
            dv == m.deep_view(),
            assoc_lookup(dv, k@) == assoc_lookup(dv.skip(i as int), k@),
        decreases n - i,
    {
        if crate::text::str_eq(m[i].0.as_str(), k) {
            assert(dv.skip(i as int)[0] == dv[i as int]);
            return Some(m[i].1.clone());
        }
        proof {
            assert(dv.skip(i as int)[0] == dv[i as int]);
            assert(dv.skip(i as int).drop_first() =~= dv.skip(i + 1));
        }
        i = i + 1;
    }
    proof {
        assert(dv.skip(n as int) =~= Seq::<(Seq<char>, LibraryDefinitionV)>::empty());
    }
    None
}

fn lookup_plugin_entry(m: &Vec<(String, PluginDefinition)>, k: &str) -> (r: Option<
    PluginDefinition,
>)
    ensures
        r.deep_view() == assoc_lookup(m.deep_view(), k@),
{
    let ghost dv = m.deep_view();
    let n = m.len();
    proof {
        assert(dv.skip(0) =~= dv);
    }
    let mut i: usize = 0;
    while i < n
        invariant
            i <= n,
            n == m.len(),
            dv == m.deep_view(),
            assoc_lookup(dv, k@) == assoc_lookup(dv.skip(i as int), k@),
        decreases n - i,
    {
        if crate::text::str_eq(m[i].0.as_str(), k) {
            assert(dv.skip(i as int)[0] == dv[i as int]);
            return Some(m[i].1.clone());
        }
        proof {
            assert(dv.skip(i as int)[0] == dv[i as int]);
            assert(dv.skip(i as int).drop_first() =~= dv.skip(i + 1));
        }
        i = i + 1;
    }
    proof {
        assert(dv.skip(n as int) =~= Seq::<(Seq<char>, PluginDefinitionV)>::empty());
    }
    None
}

// ---------------------------------------------------------------------------
// Alias resolution
// ---------------------------------------------------------------------------

/// Looks up a version alias in the `versions` section; nothing resolves when
/// the section is absent.
pub open spec fn spec_lookup_version(c: VersionCatalogV, r: Seq<char>) -> Option<Seq<char>> {
    match c.versions {
        None => None,
        Some(vs) => assoc_lookup(vs, r),
    }
}

/// The version a library definition denotes: an explicit `version.ref` key
/// wins, then the `version` value, which is either literal or itself a
/// reference; a reference that cannot be looked up resolves to nothing.
pub open spec fn spec_library_version(c: VersionCatalogV, def: LibraryDefinitionV) -> Option<
    Seq<char>,
> {
    match def.version_ref {
        Some(r) => spec_lookup_version(c, r),
        None => match def.version {
            Some(VersionRefV::Direct(v)) => Some(v),
            Some(VersionRefV::Reference(r)) => spec_lookup_version(c, r),
            None => None,
        },
    }
}

/// Resolution of a library alias to `(group, artifact, version)`. A missing
/// alias, a definition without group or name, or an unresolvable version all
/// resolve to nothing, never to a failure.
pub open spec fn spec_resolve_library(c: VersionCatalogV, name: Seq<char>) -> Option<
    (Seq<char>, Seq<char>, Seq<char>),
> {
    match c.libraries {
        None => None,
        Some(libs) => match assoc_lookup(libs, name) {
            None => None,
            Some(def) => match (def.group, def.name) {
                (Some(g), Some(a)) => match spec_library_version(c, def) {
                    Some(v) => Some((g, a, v)),
                    None => None,
                },
                _ => None,
            },
        },
    }
}

/// Resolution of a plugin alias to `(id, version)`. Plugins may be
/// unversioned, so a definition without any version resolves with an absent
/// version; but a version reference can only be consulted when the
/// `versions` section exists at all.
pub open spec fn spec_resolve_plugin(c: VersionCatalogV, name: Seq<char>) -> Option<
    (Seq<char>, Option<Seq<char>>),
> {
    match c.plugins {
        None => None,
        Some(ps) => match assoc_lookup(ps, name) {
            None => None,
            Some(def) => match def.version_ref {
                Some(r) => match c.versions {
                    None => None,
                    Some(vs) => Some((def.id, assoc_lookup(vs, r))),
                },
                None => match def.version {
                    Some(VersionRefV::Direct(v)) => Some((def.id, Some(v))),
                    Some(VersionRefV::Reference(r)) => match c.versions {
                        None => None,
                        Some(vs) => Some((def.id, assoc_lookup(vs, r))),
                    },
                    None => Some((def.id, None)),
                },
            },
        },
    }
}

impl VersionCatalog {
    /// Resolves a library alias to a concrete `(group, artifact, version)`
    /// coordinate, or to nothing when the alias is unknown, malformed, or
    /// references a missing version.
    pub fn resolve_library_version(&self, library_name: &str) -> (r: Option<
        (String, String, String),
    >)
        ensures
            r.deep_view() == spec_resolve_library(self@, library_name@),
    {
        let libs = match &self.libraries {
            Some(libs) => libs,
            None => {
                return None;
            },
        };
        let def = match lookup_library_entry(libs, library_name) {
            Some(def) => def,
            None => {
                return None;
            },
        };
        let group = match &def.group {
            Some(g) => g.clone(),
            None => {
                return None;
            },
        };
        let name = match &def.name {
            Some(n) => n.clone(),
            None => {
                return None;
            },
        };
        let version = match self.lookup_definition_version(&def.version_ref, &def.version) {
            Some(v) => v,
            None => {
                return None;
            },
        };
        Some((group, name, version))
    }

    /// The version a library definition denotes, as `spec_library_version`.
    fn lookup_definition_version(
        &self,
        version_ref: &Option<String>,
        version: &Option<VersionRef>,
    ) -> (r: Option<String>)
        ensures
            r.deep_view() == spec_library_version(
                self@,
                LibraryDefinitionV {
                    group: None,
                    name: None,
                    version: version.deep_view(),
                    version_ref: version_ref.deep_view(),
                },
            ),
    {
        match version_ref {
            Some(r) => self.lookup_version_alias(r.as_str()),
            None => match version {
                Some(VersionRef::Direct(v)) => Some(v.clone()),
                Some(VersionRef::Reference(r)) => self.lookup_version_alias(r.as_str()),
                None => None,
            },
        }
    }

    /// Looks a version alias up in the `versions` section.
    fn lookup_version_alias(&self, r: &str) -> (res: Option<String>)
        ensures
            res.deep_view() == spec_lookup_version(self@, r@),
    {
        match &self.versions {
            Some(vs) => lookup_version_entry(vs, r),
            None => None,
        }
    }

    /// Resolves a plugin alias to its id and optional version, or to nothing
    /// when the alias is unknown or a version reference cannot be consulted.
    pub fn resolve_plugin_version(&self, plugin_name: &str) -> (r: Option<(String, Option<String>)>)
        ensures
            r.deep_view() == spec_resolve_plugin(self@, plugin_name@),
    {
        let ps = match &self.plugins {
            Some(ps) => ps,
            None => {
                return None;
            },
        };
        let def = match lookup_plugin_entry(ps, plugin_name) {
            Some(def) => def,
            None => {
                return None;
            },
        };
        let id = def.id.clone();
        match &def.version_ref {
            Some(r) => match &self.versions {
                Some(vs) => Some((id, lookup_version_entry(vs, r.as_str()))),
                None => None,
            },
            None => match &def.version {
                Some(VersionRef::Direct(v)) => Some((id, Some(v.clone()))),
                Some(VersionRef::Reference(r)) => match &self.versions {
                    Some(vs) => Some((id, lookup_version_entry(vs, r.as_str()))),
                    None => None,
                },
                None => Some((id, None)),
            },
        }
    }
}

// ---------------------------------------------------------------------------
// Catalog document grammar
// ---------------------------------------------------------------------------

/// The value of a table pair: a quoted string, or a one-level inline table
/// of quoted strings (as in `version = { ref = "kotlin" }`).
pub enum TableValue {
    Str(String),
    Tab(Vec<(String, String)>),
}

/// Mathematical image of a `TableValue`.
pub enum TableValueV {
    Str(Seq<char>),
    Tab(Seq<(Seq<char>, Seq<char>)>),
}

impl View for TableValue {
    type V = TableValueV;

    open spec fn view(&self) -> TableValueV {
        match self {
            TableValue::Str(v) => TableValueV::Str(v@),
            TableValue::Tab(t) => TableValueV::Tab(t.deep_view()),
        }
    }
}

impl DeepView for TableValue {
    type V = TableValueV;

    open spec fn deep_view(&self) -> TableValueV {
        self.view()
    }
}

impl Clone for TableValue {
    fn clone(&self) -> (r: Self)
        ensures
            r@ == self@,
    {
        match self {
            TableValue::Str(v) => TableValue::Str(v.clone()),
            TableValue::Tab(t) => {
                let mut c: Vec<(String, String)> = Vec::new();
                let mut i: usize = 0;
                while i < t.len()
                    invariant
                        i <= t.len(),
                        c.deep_view() == t.deep_view().take(i as int),
                    decreases t.len() - i,
                {
                    let x0 = t[i].0.clone();
                    let x1 = t[i].1.clone();
                    let ghost prev_s = c@;
                    let ghost prev_dv = c.deep_view();
                    c.push((x0, x1));
                    proof {
                        assert(prev_dv.len() == prev_s.len());
                        assert(prev_s.len() == i);
                        assert forall|m: int| 0 <= m < c@.len() implies c.deep_view()[m]
                            == t.deep_view().take(i + 1)[m] by {
                            assert(c.deep_view()[m] == c@[m].deep_view());
                            if m < i {
                                assert(c@[m] == prev_s[m]);
                                assert(prev_dv[m] == prev_s[m].deep_view());
                                assert(prev_dv[m] == t.deep_view()[m]);
                            } else {
                                assert(c@[m].deep_view() == t@[i as int].deep_view());
                            }
                        }
                        assert(c.deep_view() =~= t.deep_view().take(i + 1));
                    }
                    i = i + 1;
                }
                proof {
                    assert(t.deep_view().take(t.len() as int) =~= t.deep_view());
                }
                TableValue::Tab(c)
            },
        }
    }
}

/// The value of an entry line: a quoted string or an inline table.
pub enum EntryValue {
    Str(String),
    Table(Vec<(String, TableValue)>),
}

/// Mathematical image of an `EntryValue`.
pub enum EntryValueV {
    Str(Seq<char>),
    Table(Seq<(Seq<char>, TableValueV)>),
}

impl View for EntryValue {
    type V = EntryValueV;

    open spec fn view(&self) -> EntryValueV {
        match self {
            EntryValue::Str(v) => EntryValueV::Str(v@),
            EntryValue::Table(t) => EntryValueV::Table(t.deep_view()),
        }
    }
}

/// A quoted string at index `i`: a quote, its contents up to the next equal
/// quote, and that closing quote. Yields the contents and the index after
/// the closing quote.
pub open spec fn spec_quoted(s: Seq<char>, i: int) -> Option<(Seq<char>, int)> {
    if 0 <= i < s.len() && is_quote_char(s[i]) {
        let j = scan_to_char(s, s[i], i + 1);
        if j < s.len() {
            Some((s.subrange(i + 1, j), j + 1))
        } else {
            None
        }
    } else {
        None
    }
}

fn try_quoted(s: &str, i: usize) -> (r: Option<(String, usize)>)
    requires
        i <= s@.len(),
    ensures
        match r {
            Some(p) => spec_quoted(s@, i as int) == Some((p.0@, p.1 as int)) && i < p.1 <= s@.len(),
            None => spec_quoted(s@, i as int) is None,
        },
{
    let n = s.unicode_len();
    if i >= n {
        return None;
    }
    let q = s.get_char(i);
    if !quote_char(q) {
        return None;
    }
    let j = crate::text::find_char(s, q, i + 1);
    if j >= n {
        return None;
    }
    let content = substring(s, i + 1, j);
    Some((content, j + 1))
}

/// A nonempty alias or key at index `i`, made of letters, digits, dots,
/// hyphens and underscores. Yields the key and the index after it.
pub open spec fn spec_key_at(s: Seq<char>, i: int) -> Option<(Seq<char>, int)> {
    if 0 <= i <= s.len() {
        let j = scan_ref(s, i);
        if j > i {
            Some((s.subrange(i, j), j))
        } else {
            None
        }
    } else {
        None
    }
}

fn try_key_at(s: &str, i: usize) -> (r: Option<(String, usize)>)
    requires
        i <= s@.len(),
    ensures
        match r {
            Some(p) => spec_key_at(s@, i as int) == Some((p.0@, p.1 as int)) && i < p.1 <= s@.len(),
            None => spec_key_at(s@, i as int) is None,
        },
{
    let j = scan_ref_end(s, i);
    if j > i {
        Some((substring(s, i, j), j))
    } else {
        None
    }
}

/// The pairs of an inline table from index `j` on: `key = "value"` entries
/// separated by commas, closed by `}`. Yields the pairs and the index after
/// the closing brace.
pub open spec fn spec_inner_pairs(s: Seq<char>, j: int) -> Option<
    (Seq<(Seq<char>, Seq<char>)>, int),
>
    decreases s.len() - j when 0 <= j <= s.len()
{
    match spec_key_at(s, j) {
        None => None,
        Some((k, j1)) => {
            let j2 = scan_space(s, j1);
            if !(j2 < s.len() && s[j2] == '=') {
                None
            } else {
                let j3 = scan_space(s, j2 + 1);
                match spec_quoted(s, j3) {
                    None => None,
                    Some((v, j4)) => {
                        let j5 = scan_space(s, j4);
                        if j5 < s.len() && s[j5] == ',' {
                            let j6 = scan_space(s, j5 + 1);
                            match spec_inner_pairs(s, j6) {
                                Some((ps, e)) => Some((seq![(k, v)] + ps, e)),
                                None => None,
                            }
                        } else if j5 < s.len() && s[j5] == '}' {
                            Some((seq![(k, v)], j5 + 1))
                        } else {
                            None
                        }
                    },
                }
            }
        },
    }
}

/// The result index of `spec_inner_pairs` lies strictly beyond `j`.
pub broadcast proof fn lemma_inner_pairs_bounds(s: Seq<char>, j: int)
    requires
        0 <= j <= s.len(),
    ensures
        (#[trigger] spec_inner_pairs(s, j)) matches Some(p) ==> j < p.1 <= s.len(),
    decreases s.len() - j,
{
    if spec_inner_pairs(s, j) is Some {
        let (k, j1) = spec_key_at(s, j)->0;
        let j2 = scan_space(s, j1);
        let j3 = scan_space(s, j2 + 1);
        let (v, j4) = spec_quoted(s, j3)->0;
        let j5 = scan_space(s, j4);
        if j5 < s.len() && s[j5] == ',' {
            let j6 = scan_space(s, j5 + 1);
            lemma_inner_pairs_bounds(s, j6);
        }
    }
}

fn try_inner_pairs(s: &str, j0: usize) -> (r: Option<(Vec<(String, String)>, usize)>)
    requires
        j0 <= s@.len(),
    ensures
        match r {
            Some(p) => spec_inner_pairs(s@, j0 as int) == Some((p.0.deep_view(), p.1 as int))
                && p.1 <= s@.len(),
            None => spec_inner_pairs(s@, j0 as int) is None,
        },
{
    let n = s.unicode_len();
    let mut acc: Vec<(String, String)> = Vec::new();
    let mut j = j0;
    proof {
        assert(acc.deep_view() =~= Seq::<(Seq<char>, Seq<char>)>::empty());
    }
    loop
        invariant
            j <= n,
            n == s@.len(),
            spec_inner_pairs(s@, j0 as int) == match spec_inner_pairs(s@, j as int) {
                Some((ps, e)) => Some((acc.deep_view() + ps, e)),
                None => None::<(Seq<(Seq<char>, Seq<char>)>, int)>,
            },
        decreases n - j,
    {
        let (k, j1) = match try_key_at(s, j) {
            Some(p) => p,
            None => {
                return None;
            },
        };
        let j2 = skip_spaces(s, j1);
        if !(j2 < n && s.get_char(j2) == '=') {
            return None;
        }
        let j3 = skip_spaces(s, j2 + 1);
        let (v, j4) = match try_quoted(s, j3) {
            Some(p) => p,
            None => {
                return None;
            },
        };
        let j5 = skip_spaces(s, j4);
        if j5 < n && s.get_char(j5) == ',' {
            let j6 = skip_spaces(s, j5 + 1);
            acc.push((k, v));
            proof {
                let ghost prev = acc.deep_view().drop_last();
                assert(forall|ps: Seq<(Seq<char>, Seq<char>)>|
                    acc.deep_view() + ps =~= prev + (seq![(k@, v@)] + ps));
            }
            j = j6;
        } else if j5 < n && s.get_char(j5) == '}' {
            acc.push((k, v));
            proof {
                assert(acc.deep_view() =~= acc.deep_view().drop_last() + seq![(k@, v@)]);
            }
            return Some((acc, j5 + 1));
        } else {
            return None;
        }
    }
}

/// A pair value inside a library or plugin table: a quoted string or a
/// one-level inline table.
pub open spec fn spec_pair_value(s: Seq<char>, i: int) -> Option<(TableValueV, int)> {
    match spec_quoted(s, i) {
        Some((v, j)) => Some((TableValueV::Str(v), j)),
        None => if 0 <= i < s.len() && s[i] == '{' {
            let j = scan_space(s, i + 1);
            if j < s.len() && s[j] == '}' {
                Some((TableValueV::Tab(Seq::empty()), j + 1))
            } else {
                match spec_inner_pairs(s, j) {
                    Some((ps, e)) => Some((TableValueV::Tab(ps), e)),
                    None => None,
                }
            }
        } else {
            None
        },
    }
}

fn try_pair_value(s: &str, i: usize) -> (r: Option<(TableValue, usize)>)
    requires
        i <= s@.len(),
    ensures
        match r {
            Some(p) => spec_pair_value(s@, i as int) == Some((p.0@, p.1 as int)) && i < p.1
                <= s@.len(),
            None => spec_pair_value(s@, i as int) is None,
        },
{
    let n = s.unicode_len();
    match try_quoted(s, i) {
        Some((v, j)) => Some((TableValue::Str(v), j)),
        None => {
            if i < n && s.get_char(i) == '{' {
                let j = skip_spaces(s, i + 1);
                if j < n && s.get_char(j) == '}' {
                    let empty_tab: Vec<(String, String)> = Vec::new();
                    proof {
                        assert(empty_tab.deep_view() =~= Seq::<(Seq<char>, Seq<char>)>::empty());
                    }
                    Some((TableValue::Tab(empty_tab), j + 1))
                } else {
                    match try_inner_pairs(s, j) {
                        Some((ps, e)) => {
                            proof {
                                lemma_inner_pairs_bounds(s@, j as int);
                            }
                            Some((TableValue::Tab(ps), e))
                        },
                        None => None,
                    }
                }
            } else {
                None
            }
        },
    }
}

/// The pairs of a library or plugin inline table from index `j` on.
pub open spec fn spec_outer_pairs(s: Seq<char>, j: int) -> Option<
    (Seq<(Seq<char>, TableValueV)>, int),
>
    decreases s.len() - j when 0 <= j <= s.len()
{
    match spec_key_at(s, j) {
        None => None,
        Some((k, j1)) => {
            let j2 = scan_space(s, j1);
            if !(j2 < s.len() && s[j2] == '=') {
                None
            } else {
                let j3 = scan_space(s, j2 + 1);
                match spec_pair_value(s, j3) {
                    None => None,
                    Some((v, j4raw)) => {
                        // `spec_pair_value` always lands within this range
                        // (`lemma_pair_value_bounds`); bounding it here keeps
                        // the recursion visibly terminating.
                        let j4 = if j3 < j4raw <= s.len() {
                            j4raw
                        } else {
                            s.len() as int
                        };
                        let j5 = scan_space(s, j4);
                        if j5 < s.len() && s[j5] == ',' {
                            let j6 = scan_space(s, j5 + 1);
                            match spec_outer_pairs(s, j6) {
                                Some((ps, e)) => Some((seq![(k, v)] + ps, e)),
                                None => None,
                            }
                        } else if j5 < s.len() && s[j5] == '}' {
                            Some((seq![(k, v)], j5 + 1))
                        } else {
                            None
                        }
                    },
                }
            }
        },
    }
}

/// The result index of `spec_pair_value` lies strictly beyond `i`.
pub broadcast proof fn lemma_pair_value_bounds(s: Seq<char>, i: int)
    ensures
        (#[trigger] spec_pair_value(s, i)) matches Some(p) ==> i < p.1 <= s.len(),
{
    if spec_pair_value(s, i) is Some {
        if spec_quoted(s, i) is Some {
        } else {
            let j = scan_space(s, i + 1);
            if j < s.len() && s[j] == '}' {
            } else {
                lemma_inner_pairs_bounds(s, j);
            }
        }
    }
}

fn try_outer_pairs(s: &str, j0: usize) -> (r: Option<(Vec<(String, TableValue)>, usize)>)
    requires
        j0 <= s@.len(),
    ensures
        match r {
            Some(p) => spec_outer_pairs(s@, j0 as int) == Some((p.0.deep_view(), p.1 as int))
                && p.1 <= s@.len(),
            None => spec_outer_pairs(s@, j0 as int) is None,
        },
{
    broadcast use lemma_pair_value_bounds;

    let n = s.unicode_len();
    let mut acc: Vec<(String, TableValue)> = Vec::new();
    let mut j = j0;
    proof {
        assert(acc.deep_view() =~= Seq::<(Seq<char>, TableValueV)>::empty());
    }
    loop
        invariant
            j <= n,
            n == s@.len(),
            spec_outer_pairs(s@, j0 as int) == match spec_outer_pairs(s@, j as int) {
                Some((ps, e)) => Some((acc.deep_view() + ps, e)),
                None => None::<(Seq<(Seq<char>, TableValueV)>, int)>,
            },
        decreases n - j,
    {
        let (k, j1) = match try_key_at(s, j) {
            Some(p) => p,
            None => {
                return None;
            },
        };
        let j2 = skip_spaces(s, j1);
        if !(j2 < n && s.get_char(j2) == '=') {
            return None;
        }
        let j3 = skip_spaces(s, j2 + 1);
        let (v, j4) = match try_pair_value(s, j3) {
            Some(p) => p,
            None => {
                return None;
            },
        };
        let j5 = skip_spaces(s, j4);
        if j5 < n && s.get_char(j5) == ',' {
            let j6 = skip_spaces(s, j5 + 1);
            let ghost vv = v@;
            acc.push((k, v));
            proof {
                let ghost prev = acc.deep_view().drop_last();
                assert(forall|ps: Seq<(Seq<char>, TableValueV)>|
                    acc.deep_view() + ps =~= prev + (seq![(k@, vv)] + ps));
            }
            j = j6;
        } else if j5 < n && s.get_char(j5) == '}' {
            let ghost vv = v@;
            acc.push((k, v));
            proof {
                assert(acc.deep_view() =~= acc.deep_view().drop_last() + seq![(k@, vv)]);
            }
            return Some((acc, j5 + 1));
        } else {
            return None;
        }
    }
}

/// Nothing on the line but whitespace, or a comment.
pub open spec fn spec_blank_or_comment(s: Seq<char>) -> bool {
    let i = scan_space(s, 0);
    i == s.len() || s[i] == '#'
}

fn blank_or_comment(s: &str) -> (r: bool)
    ensures
        r == spec_blank_or_comment(s@),
{
    let n = s.unicode_len();
    let i = skip_spaces(s, 0);
    i == n || s.get_char(i) == '#'
}

/// A section header `[name]`, with nothing after it but whitespace or a
/// comment.
pub open spec fn spec_section_header(s: Seq<char>) -> Option<Seq<char>> {
    let i = scan_space(s, 0);
    if i < s.len() && s[i] == '[' {
        let j = scan_to_char(s, ']', i + 1);
        if j < s.len() {
            let t = scan_space(s, j + 1);
            if t == s.len() || s[t] == '#' {
                Some(s.subrange(i + 1, j))
            } else {
                None
            }
        } else {
            None
        }
    } else {
        None
    }
}

fn try_section_header(s: &str) -> (r: Option<String>)
    ensures
        match r {
            Some(name) => spec_section_header(s@) == Some(name@),
            None => spec_section_header(s@) is None,
        },
{
    let n = s.unicode_len();
    let i = skip_spaces(s, 0);
    if !(i < n && s.get_char(i) == '[') {
        return None;
    }
    let j = crate::text::find_char(s, ']', i + 1);
    if j >= n {
        return None;
    }
    let t = skip_spaces(s, j + 1);
    if t == n || s.get_char(t) == '#' {
        Some(substring(s, i + 1, j))
    } else {
        None
    }
}

/// An entry line `key = value`, where the value is a quoted string or an
/// inline table, followed only by whitespace or a comment.
pub open spec fn spec_entry_line(s: Seq<char>) -> Option<(Seq<char>, EntryValueV)> {
    let i = scan_space(s, 0);
    match spec_key_at(s, i) {
        None => None,
        Some((k, j)) => {
            let j2 = scan_space(s, j);
            if !(j2 < s.len() && s[j2] == '=') {
                None
            } else {
                let j3 = scan_space(s, j2 + 1);
                match spec_quoted(s, j3) {
                    Some((v, e)) => {
                        let t = scan_space(s, e);
                        if t == s.len() || s[t] == '#' {
                            Some((k, EntryValueV::Str(v)))
                        } else {
                            None
                        }
                    },
                    None => if j3 < s.len() && s[j3] == '{' {
                        let j4 = scan_space(s, j3 + 1);
                        if j4 < s.len() && s[j4] == '}' {
                            let t = scan_space(s, j4 + 1);
                            if t == s.len() || s[t] == '#' {
                                Some((k, EntryValueV::Table(Seq::empty())))
                            } else {
                                None
                            }
                        } else {
                            match spec_outer_pairs(s, j4) {
                                Some((ps, e)) => {
                                    let t = scan_space(s, e);
                                    if t == s.len() || s[t] == '#' {
                                        Some((k, EntryValueV::Table(ps)))
                                    } else {
                                        None
                                    }
                                },
                                None => None,
                            }
                        }
                    } else {
                        None
                    },
                }
            }
        },
    }
}

fn try_entry_line(s: &str) -> (r: Option<(String, EntryValue)>)
    ensures
        match r {
            Some(p) => spec_entry_line(s@) == Some((p.0@, p.1@)),
            None => spec_entry_line(s@) is None,
        },
{
    let n = s.unicode_len();
    let i = skip_spaces(s, 0);
    let (k, j) = match try_key_at(s, i) {
        Some(p) => p,
        None => {
            return None;
        },
    };
    let j2 = skip_spaces(s, j);
    if !(j2 < n && s.get_char(j2) == '=') {
        return None;
    }
    let j3 = skip_spaces(s, j2 + 1);
    match try_quoted(s, j3) {
        Some((v, e)) => {
            let t = skip_spaces(s, e);
            if t == n || s.get_char(t) == '#' {
                Some((k, EntryValue::Str(v)))
            } else {
                None
            }
        },
        None => {
            if j3 < n && s.get_char(j3) == '{' {
                let j4 = skip_spaces(s, j3 + 1);
                if j4 < n && s.get_char(j4) == '}' {
                    let t = skip_spaces(s, j4 + 1);
                    if t == n || s.get_char(t) == '#' {
                        let empty_tab: Vec<(String, TableValue)> = Vec::new();
                        proof {
                            assert(empty_tab.deep_view() =~= Seq::<
                                (Seq<char>, TableValueV),
                            >::empty());
                        }
                        Some((k, EntryValue::Table(empty_tab)))
                    } else {
                        None
                    }
                } else {
                    match try_outer_pairs(s, j4) {
                        Some((ps, e)) => {
                            let t = skip_spaces(s, e);
                            if t == n || s.get_char(t) == '#' {
                                Some((k, EntryValue::Table(ps)))
                            } else {
                                None
                            }
                        },
                        None => None,
                    }
                }
            } else {
                None
            }
        },
    }
}

// ---------------------------------------------------------------------------
// Assembling definitions from table pairs
// ---------------------------------------------------------------------------

/// A field that must be a string when present. The outer `None` is a decode
/// failure (the key is bound to a table); `Some(None)` means absent.
pub open spec fn spec_str_field(ps: Seq<(Seq<char>, TableValueV)>, k: Seq<char>) -> Option<
    Option<Seq<char>>,
> {
    match assoc_lookup(ps, k) {
        None => Some(None),
        Some(TableValueV::Str(v)) => Some(Some(v)),
        Some(TableValueV::Tab(_)) => None,
    }
}

/// The `version` field: a string is a literal version, a table must carry a
/// `ref` key naming a version alias; anything else is a decode failure.
pub open spec fn spec_version_field(ps: Seq<(Seq<char>, TableValueV)>) -> Option<
    Option<VersionRefV>,
> {
    match assoc_lookup(ps, "version"@) {
        None => Some(None),
        Some(TableValueV::Str(v)) => Some(Some(VersionRefV::Direct(v))),
        Some(TableValueV::Tab(t)) => match assoc_lookup(t, "ref"@) {
            Some(r) => Some(Some(VersionRefV::Reference(r))),
            None => None,
        },
    }
}

/// A library definition from its table pairs: optional `group` and `name`,
/// a `version` either literal or referenced, and an optional dotted
/// `version.ref` key.
pub open spec fn spec_assemble_library(ps: Seq<(Seq<char>, TableValueV)>) -> Option<
    LibraryDefinitionV,
> {
    match (spec_str_field(ps, "group"@), spec_str_field(ps, "name"@), spec_version_field(ps),
    spec_str_field(ps, "version.ref"@)) {
        (Some(g), Some(n), Some(v), Some(vr)) => Some(
            LibraryDefinitionV { group: g, name: n, version: v, version_ref: vr },
        ),
        _ => None,
    }
}

/// A plugin definition from its table pairs: a required string `id` and the
/// same version forms as a library.
pub open spec fn spec_assemble_plugin(ps: Seq<(Seq<char>, TableValueV)>) -> Option<
    PluginDefinitionV,
> {
    match (spec_str_field(ps, "id"@), spec_version_field(ps), spec_str_field(ps, "version.ref"@)) {
        (Some(Some(id)), Some(v), Some(vr)) => Some(
            PluginDefinitionV { id: id, version: v, version_ref: vr },
        ),
        _ => None,
    }
}

fn lookup_table_entry(m: &Vec<(String, TableValue)>, k: &str) -> (r: Option<TableValue>)
    ensures
        match r {
            Some(v) => assoc_lookup(m.deep_view(), k@) == Some(v@),
            None => assoc_lookup(m.deep_view(), k@) is None,
        },
{
    let ghost dv = m.deep_view();
    let n = m.len();
    proof {
        assert(dv.skip(0) =~= dv);
    }
    let mut i: usize = 0;
    while i < n
        invariant
            i <= n,
            n == m.len(),
            dv == m.deep_view(),
            assoc_lookup(dv, k@) == assoc_lookup(dv.skip(i as int), k@),
        decreases n - i,
    {
        if str_eq(m[i].0.as_str(), k) {
            assert(dv.skip(i as int)[0] == dv[i as int]);
            return Some(m[i].1.clone());
        }
        proof {
            assert(dv.skip(i as int)[0] == dv[i as int]);
            assert(dv.skip(i as int).drop_first() =~= dv.skip(i + 1));
        }
        i = i + 1;
    }
    proof {
        assert(dv.skip(n as int) =~= Seq::<(Seq<char>, TableValueV)>::empty());
    }
    None
}

fn str_field(ps: &Vec<(String, TableValue)>, k: &str) -> (r: Option<Option<String>>)
    ensures
        r.deep_view() == spec_str_field(ps.deep_view(), k@),
{
    match lookup_table_entry(ps, k) {
        None => Some(None),
        Some(TableValue::Str(v)) => Some(Some(v)),
        Some(TableValue::Tab(_)) => None,
    }
}

fn version_field(ps: &Vec<(String, TableValue)>) -> (r: Option<Option<VersionRef>>)
    ensures
        r.deep_view() == spec_version_field(ps.deep_view()),
{
    match lookup_table_entry(ps, "version") {
        None => Some(None),
        Some(TableValue::Str(v)) => Some(Some(VersionRef::Direct(v))),
        Some(TableValue::Tab(t)) => match lookup_version_entry(&t, "ref") {
            Some(r) => Some(Some(VersionRef::Reference(r))),
            None => None,
        },
    }
}

fn assemble_library(ps: &Vec<(String, TableValue)>) -> (r: Option<LibraryDefinition>)
    ensures
        match r {
            Some(d) => spec_assemble_library(ps.deep_view()) == Some(d@),
            None => spec_assemble_library(ps.deep_view()) is None,
        },
{
    let group = match str_field(ps, "group") {
        Some(g) => g,
        None => {
            return None;
        },
    };
    let name = match str_field(ps, "name") {
        Some(n) => n,
        None => {
            return None;
        },
    };
    let version = match version_field(ps) {
        Some(v) => v,
        None => {
            return None;
        },
    };
    let version_ref = match str_field(ps, "version.ref") {
        Some(vr) => vr,
        None => {
            return None;
        },
    };
    Some(LibraryDefinition { group, name, version, version_ref })
}

fn assemble_plugin(ps: &Vec<(String, TableValue)>) -> (r: Option<PluginDefinition>)
    ensures
        match r {
            Some(d) => spec_assemble_plugin(ps.deep_view()) == Some(d@),
            None => spec_assemble_plugin(ps.deep_view()) is None,
        },
{
    let id = match str_field(ps, "id") {
        Some(Some(id)) => id,
        _ => {
            return None;
        },
    };
    let version = match version_field(ps) {
        Some(v) => v,
        None => {
            return None;
        },
    };
    let version_ref = match str_field(ps, "version.ref") {
        Some(vr) => vr,
        None => {
            return None;
        },
    };
    Some(PluginDefinition { id, version, version_ref })
}

// ---------------------------------------------------------------------------
// Whole-document parsing
// ---------------------------------------------------------------------------

/// Which section the parser currently stands in.
#[derive(Clone, Copy, PartialEq, Eq, Structural, Debug)]
pub enum CatalogSection {
    Top,
    Versions,
    Libraries,
    Plugins,
    Unknown,
}

/// The parser's accumulation state.
pub struct CatalogBuild {
    pub section: CatalogSection,
    pub versions: Option<Vec<(String, String)>>,
    pub libraries: Option<Vec<(String, LibraryDefinition)>>,
    pub plugins: Option<Vec<(String, PluginDefinition)>>,
}

/// Mathematical image of a `CatalogBuild`.
pub struct CatalogBuildV {
    pub section: CatalogSection,
    pub versions: Option<Seq<(Seq<char>, Seq<char>)>>,
    pub libraries: Option<Seq<(Seq<char>, LibraryDefinitionV)>>,
    pub plugins: Option<Seq<(Seq<char>, PluginDefinitionV)>>,
}

impl View for CatalogBuild {
    type V = CatalogBuildV;

    open spec fn view(&self) -> CatalogBuildV {
        CatalogBuildV {
            section: self.section,
            versions: self.versions.deep_view(),
            libraries: self.libraries.deep_view(),
            plugins: self.plugins.deep_view(),
        }
    }
}

/// The parse state before any line.
pub open spec fn spec_catalog_init() -> CatalogBuildV {
    CatalogBuildV { section: CatalogSection::Top, versions: None, libraries: None, plugins: None }
}

/// How one line advances the parse state. `None` is a decode failure of the
/// whole document: a repeated recognized section, a duplicate key, or a line
/// of a recognized section that fits no entry shape. Lines outside the
/// recognized sections are skipped.
pub open spec fn spec_catalog_line_step(st: CatalogBuildV, line: Seq<char>) -> Option<
    CatalogBuildV,
> {
    if spec_blank_or_comment(line) {
        Some(st)
    } else {
        match spec_section_header(line) {
            Some(name) => {
                if name == "versions"@ {
                    if st.versions is Some {
                        None
                    } else {
                        Some(
                            CatalogBuildV {
                                section: CatalogSection::Versions,
                                versions: Some(Seq::empty()),
                                ..st
                            },
                        )
                    }
                } else if name == "libraries"@ {
                    if st.libraries is Some {
                        None
                    } else {
                        Some(
                            CatalogBuildV {
                                section: CatalogSection::Libraries,
                                libraries: Some(Seq::empty()),
                                ..st
                            },
                        )
                    }
                } else if name == "plugins"@ {
                    if st.plugins is Some {
                        None
                    } else {
                        Some(
                            CatalogBuildV {
                                section: CatalogSection::Plugins,
                                plugins: Some(Seq::empty()),
                                ..st
                            },
                        )
                    }
                } else {
                    Some(CatalogBuildV { section: CatalogSection::Unknown, ..st })
                }
            },
            None => match spec_entry_line(line) {
                Some((k, v)) => match st.section {
                    CatalogSection::Top => Some(st),
                    CatalogSection::Unknown => Some(st),
                    CatalogSection::Versions => match (st.versions, v) {
                        (Some(vs), EntryValueV::Str(s)) => if assoc_contains(vs, k) {
                            None
                        } else {
                            Some(CatalogBuildV { versions: Some(vs.push((k, s))), ..st })
                        },
                        _ => None,
                    },
                    CatalogSection::Libraries => match (st.libraries, v) {
                        (Some(ls), EntryValueV::Table(ps)) => match spec_assemble_library(ps) {
                            Some(d) => if assoc_contains(ls, k) {
                                None
                            } else {
                                Some(CatalogBuildV { libraries: Some(ls.push((k, d))), ..st })
                            },
                            None => None,
                        },
                        _ => None,
                    },
                    CatalogSection::Plugins => match (st.plugins, v) {
                        (Some(gs), EntryValueV::Table(ps)) => match spec_assemble_plugin(ps) {
                            Some(d) => if assoc_contains(gs, k) {
                                None
                            } else {
                                Some(CatalogBuildV { plugins: Some(gs.push((k, d))), ..st })
                            },
                            None => None,
                        },
                        _ => None,
                    },
                },
                None => match st.section {
                    CatalogSection::Top => Some(st),
                    CatalogSection::Unknown => Some(st),
                    _ => None,
                },
            },
        }
    }
}

/// Folds the line step over all lines from index `i` on.
pub open spec fn spec_catalog_fold(lines: Seq<Seq<char>>, i: int, st: CatalogBuildV) -> Option<
    CatalogBuildV,
>
    decreases lines.len() - i when 0 <= i <= lines.len()
{
    if i >= lines.len() {
        Some(st)
    } else {
        match spec_catalog_line_step(st, lines[i]) {
            None => None,
            Some(s2) => spec_catalog_fold(lines, i + 1, s2),
        }
    }
}

/// The catalog a document denotes, or nothing when it cannot be decoded.
pub open spec fn spec_parse_catalog(content: Seq<char>) -> Option<VersionCatalogV> {
    match spec_catalog_fold(spec_lines(content), 0, spec_catalog_init()) {
        Some(st) => Some(
            VersionCatalogV {
                versions: st.versions,
                libraries: st.libraries,
                plugins: st.plugins,
            },
        ),
        None => None,
    }
}

fn contains_version_key(vs: &Vec<(String, String)>, k: &str) -> (r: bool)
    ensures
        r == assoc_contains(vs.deep_view(), k@),
{
    lookup_version_entry(vs, k).is_some()
}

fn contains_library_key(ls: &Vec<(String, LibraryDefinition)>, k: &str) -> (r: bool)
    ensures
        r == assoc_contains(ls.deep_view(), k@),
{
    lookup_library_entry(ls, k).is_some()
}

fn contains_plugin_key(gs: &Vec<(String, PluginDefinition)>, k: &str) -> (r: bool)
    ensures
        r == assoc_contains(gs.deep_view(), k@),
{
    lookup_plugin_entry(gs, k).is_some()
}

fn catalog_line_step(st: CatalogBuild, line: &str) -> (r: Option<CatalogBuild>)
    ensures
        match r {
            Some(s2) => spec_catalog_line_step(st@, line@) == Some(s2@),
            None => spec_catalog_line_step(st@, line@) is None,
        },
{
    if blank_or_comment(line) {
        return Some(st);
    }
    match try_section_header(line) {
        Some(name) => {
            if str_eq(name.as_str(), "versions") {
                if st.versions.is_some() {
                    None
                } else {
                    let empty: Vec<(String, String)> = Vec::new();
                    proof {
                        assert(empty.deep_view() =~= Seq::<(Seq<char>, Seq<char>)>::empty());
                    }
                    Some(
                        CatalogBuild {
                            section: CatalogSection::Versions,
                            versions: Some(empty),
                            libraries: st.libraries,
                            plugins: st.plugins,
                        },
                    )
                }
            } else if str_eq(name.as_str(), "libraries") {
                if st.libraries.is_some() {
                    None
                } else {
                    let empty: Vec<(String, LibraryDefinition)> = Vec::new();
                    proof {
                        assert(empty.deep_view() =~= Seq::<
                            (Seq<char>, LibraryDefinitionV),
                        >::empty());
                    }
                    Some(
                        CatalogBuild {
                            section: CatalogSection::Libraries,
                            versions: st.versions,
                            libraries: Some(empty),
                            plugins: st.plugins,
                        },
                    )
                }
            } else if str_eq(name.as_str(), "plugins") {
                if st.plugins.is_some() {
                    None
                } else {
                    let empty: Vec<(String, PluginDefinition)> = Vec::new();
                    proof {
                        assert(empty.deep_view() =~= Seq::<(Seq<char>, PluginDefinitionV)>::empty());
                    }
                    Some(
                        CatalogBuild {
                            section: CatalogSection::Plugins,
                            versions: st.versions,
                            libraries: st.libraries,
                            plugins: Some(empty),
                        },
                    )
                }
            } else {
                Some(
                    CatalogBuild {
                        section: CatalogSection::Unknown,
                        versions: st.versions,
                        libraries: st.libraries,
                        plugins: st.plugins,
                    },
                )
            }
        },
        None => {
            match try_entry_line(line) {
                Some((k, v)) => {
                    match st.section {
                        CatalogSection::Top => Some(st),
                        CatalogSection::Unknown => Some(st),
                        CatalogSection::Versions => {
                            match (st.versions, v) {
                                (Some(mut vs), EntryValue::Str(s)) => {
                                    if contains_version_key(&vs, k.as_str()) {
                                        None
                                    } else {
                                        let ghost prev = vs.deep_view();
                                        let ghost kv = k@;
                                        let ghost sv = s@;
                                        vs.push((k, s));
                                        proof {
                                            assert(vs.deep_view() =~= prev.push((kv, sv)));
                                        }
                                        Some(
                                            CatalogBuild {
                                                section: st.section,
                                                versions: Some(vs),
                                                libraries: st.libraries,
                                                plugins: st.plugins,
                                            },
                                        )
                                    }
                                },
                                _ => None,
                            }
                        },
                        CatalogSection::Libraries => {
                            match (st.libraries, v) {
                                (Some(mut ls), EntryValue::Table(ps)) => {
                                    match assemble_library(&ps) {
                                        Some(d) => {
                                            if contains_library_key(&ls, k.as_str()) {
                                                None
                                            } else {
                                                let ghost prev = ls.deep_view();
                                                let ghost kv = k@;
                                                let ghost dv = d@;
                                                ls.push((k, d));
                                                proof {
                                                    assert(ls.deep_view() =~= prev.push((kv, dv)));
                                                }
                                                Some(
                                                    CatalogBuild {
                                                        section: st.section,
                                                        versions: st.versions,
                                                        libraries: Some(ls),
                                                        plugins: st.plugins,
                                                    },
                                                )
                                            }
                                        },
                                        None => None,
                                    }
                                },
                                _ => None,
                            }
                        },
                        CatalogSection::Plugins => {
                            match (st.plugins, v) {
                                (Some(mut gs), EntryValue::Table(ps)) => {
                                    match assemble_plugin(&ps) {
                                        Some(d) => {
                                            if contains_plugin_key(&gs, k.as_str()) {
                                                None
                                            } else {
                                                let ghost prev = gs.deep_view();
                                                let ghost kv = k@;
                                                let ghost dv = d@;
                                                gs.push((k, d));
                                                proof {
                                                    assert(gs.deep_view() =~= prev.push((kv, dv)));
                                                }
                                                Some(
                                                    CatalogBuild {
                                                        section: st.section,
                                                        versions: st.versions,
                                                        libraries: st.libraries,
                                                        plugins: Some(gs),
                                                    },
                                                )
                                            }
                                        },
                                        None => None,
                                    }
                                },
                                _ => None,
                            }
                        },
                    }
                },
                None => {
                    match st.section {
                        CatalogSection::Top => Some(st),
                        CatalogSection::Unknown => Some(st),
                        _ => None,
                    }
                },
            }
        },
    }
}

/// Parses one version-catalog document. A document that cannot be decoded —
/// a repeated recognized section, a duplicate key, or an entry of a
/// recognized section in no accepted shape — fails the run with a decode
/// error; unknown sections are ignored.
pub fn parse_version_catalog(content: &str) -> (r: Result<VersionCatalog, AnalysisError>)
    ensures
        match r {
            Ok(c) => spec_parse_catalog(content@) == Some(c@),
            Err(e) => spec_parse_catalog(content@) is None && e@ is TomlParsing,
        },
{
    let lines = split_lines(content);
    let ghost lns = lines.deep_view();
    let n = lines.len();
    let mut st = CatalogBuild {
        section: CatalogSection::Top,
        versions: None,
        libraries: None,
        plugins: None,
    };
    let mut i: usize = 0;
    proof {
        assert(st@ =~= spec_catalog_init());
    }
    while i < n
        invariant
            i <= n,
            n == lns.len(),
            lns == lines.deep_view(),
            lns == spec_lines(content@),
            spec_catalog_fold(lns, 0, spec_catalog_init()) == spec_catalog_fold(
                lns,
                i as int,
                st@,
            ),
        decreases n - i,
    {
        let ghost st_prev = st@;
        st = match catalog_line_step(st, lines[i].as_str()) {
            Some(s2) => s2,
            None => {
                return Err(
                    AnalysisError::TomlParsing(
                        "a line of a recognized catalog section could not be decoded".to_owned(),
                    ),
                );
            },
        };
        proof {
            assert(lns[i as int] == lines@[i as int]@);
        }
        i = i + 1;
    }
    Ok(VersionCatalog { versions: st.versions, libraries: st.libraries, plugins: st.plugins })
}

/// Parses every located catalog document, pairing each with its path. Any
/// document that cannot be decoded fails the whole run.
pub fn load_version_catalogs(files: &Vec<(String, String)>) -> (r: Result<
    Vec<(String, VersionCatalog)>,
    AnalysisError,
>)
    ensures
        match r {
            Ok(cs) => {
                &&& cs.len() == files.len()
                &&& forall|i: int|
                    0 <= i < files.len() ==> {
                        &&& (#[trigger] cs.deep_view()[i]).0 == files.deep_view()[i].0
                        &&& spec_parse_catalog(files.deep_view()[i].1) == Some(cs.deep_view()[i].1)
                    }
            },
            Err(e) => e@ is TomlParsing && exists|i: int|
                0 <= i < files.len() && spec_parse_catalog(
                    (#[trigger] files.deep_view()[i]).1,
                ) is None,
        },
{
    let mut out: Vec<(String, VersionCatalog)> = Vec::new();
    let n = files.len();
    let mut i: usize = 0;
    while i < n
        invariant
            i <= n,
            n == files.len(),
            out.len() == i,
            forall|j: int|
                0 <= j < i ==> {
                    &&& (#[trigger] out.deep_view()[j]).0 == files.deep_view()[j].0
                    &&& spec_parse_catalog(files.deep_view()[j].1) == Some(out.deep_view()[j].1)
                },
        decreases n - i,
    {
        let catalog = match parse_version_catalog(files[i].1.as_str()) {
            Ok(c) => c,
            Err(e) => {
                proof {
                    assert(files.deep_view()[i as int].1 == files@[i as int].1@);
                }
                return Err(e);
            },
        };
        let path = files[i].0.clone();
        let ghost prev = out@;
        let ghost prev_dv = out.deep_view();
        out.push((path, catalog));
        proof {
            assert(files.deep_view()[i as int].1 == files@[i as int].1@);
            assert(files.deep_view()[i as int].0 == files@[i as int].0@);
            assert(out.deep_view().len() == out@.len());
            assert forall|j: int| 0 <= j < i + 1 implies {
                &&& (#[trigger] out.deep_view()[j]).0 == files.deep_view()[j].0
                &&& spec_parse_catalog(files.deep_view()[j].1) == Some(out.deep_view()[j].1)
            } by {
                assert(out.deep_view()[j] == out@[j].deep_view());
                if j < i {
                    assert(out@[j] == prev[j]);
                    assert(prev_dv[j] == prev[j].deep_view());
                }
            }
        }
        i = i + 1;
    }
    Ok(out)
}

/// Round trip between the two ways of giving a library its version: an alias
/// whose version is a reference into the `versions` section resolves to
/// exactly the same `(group, artifact, version)` as an otherwise identical
/// alias carrying the referenced version as a literal.
pub proof fn lemma_version_reference_round_trip(
    c1: VersionCatalogV,
    c2: VersionCatalogV,
    name: Seq<char>,
    d1: LibraryDefinitionV,
    d2: LibraryDefinitionV,
    r: Seq<char>,
    v: Seq<char>,
)
    requires
        c1.libraries is Some,
        c2.libraries is Some,
        assoc_lookup(c1.libraries->0, name) == Some(d1),
        assoc_lookup(c2.libraries->0, name) == Some(d2),
        d1.group == d2.group,
        d1.name == d2.name,
        d1.version_ref == Some(r) || (d1.version_ref is None && d1.version == Some(
            VersionRefV::Reference(r),
        )),
        spec_lookup_version(c1, r) == Some(v),
        d2.version_ref is None,
        d2.version == Some(VersionRefV::Direct(v)),
    ensures
        spec_resolve_library(c1, name) == spec_resolve_library(c2, name),
{
}

} // verus!
