//! Duplicate detection: groups every extracted declaration by its identity
//! key and classifies multi-file groups as same-version duplicates or
//! version conflicts.

use vstd::prelude::*;
use crate::bundles::BundleAnalysis;
use crate::bundles::bundle_wf;
use crate::bundles::find_dependency_bundles;
use crate::bundles::same_module_set;
use crate::bundles::strictly_within;
use crate::catalog::VersionCatalog;
use crate::catalog::VersionCatalogV;
use crate::catalog::load_version_catalogs;
use crate::catalog::spec_parse_catalog;
use crate::error::AnalysisError;
use crate::extract::load_all_dependencies;
use crate::extract::load_all_plugins;
use crate::extract::spec_all_dependencies;
use crate::extract::spec_all_plugins;
use crate::model::DependencyLocation;
use crate::model::DependencyLocationV;
use crate::model::PluginLocation;
use crate::model::PluginLocationV;
use crate::model::create_dependency_key;
use crate::model::key_of;
use crate::text::str_eq;

verus! {

// ---------------------------------------------------------------------------
// Grouping by identity key
// ---------------------------------------------------------------------------

/// All declarations of `s` whose identity key is `k`, in input order.
pub open spec fn locs_with_key(s: Seq<DependencyLocationV>, k: Seq<char>) -> Seq<
    DependencyLocationV,
>
    decreases s.len(),
{
    if s.len() == 0 {
        Seq::empty()
    } else {
        let rest = locs_with_key(s.drop_last(), k);
        if key_of(s.last()) == k {
            rest.push(s.last())
        } else {
            rest
        }
    }
}

/// All plugin declarations of `s` whose id is `id`, in input order.
pub open spec fn plugs_with_id(s: Seq<PluginLocationV>, id: Seq<char>) -> Seq<PluginLocationV>
    decreases s.len(),
{
    if s.len() == 0 {
        Seq::empty()
    } else {
        let rest = plugs_with_id(s.drop_last(), id);
        if s.last().plugin.id == id {
            rest.push(s.last())
        } else {
            rest
        }
    }
}

/// The entries carry pairwise distinct keys: at most one bucket per key.
pub open spec fn distinct_keys<V>(m: Seq<(Seq<char>, V)>) -> bool {
    forall|a: int, b: int| 0 <= a < b < m.len() ==> (#[trigger] m[a]).0 != (#[trigger] m[b]).0
}

/// Some group of `gs` carries the key `k`.
pub open spec fn key_has_group(
    gs: Seq<(Seq<char>, Seq<DependencyLocationV>)>,
    k: Seq<char>,
) -> bool {
    exists|p: int| 0 <= p < gs.len() && (#[trigger] gs[p]).0 == k
}

/// A key that occurs nowhere in `s` selects the empty group.
proof fn lemma_locs_with_key_absent(s: Seq<DependencyLocationV>, k: Seq<char>)
    requires
        forall|i: int| 0 <= i < s.len() ==> key_of(#[trigger] s[i]) != k,
    ensures
        locs_with_key(s, k) =~= Seq::<DependencyLocationV>::empty(),
    decreases s.len(),
{
    if s.len() > 0 {
        lemma_locs_with_key_absent(s.drop_last(), k);
    }
}

/// An id that occurs nowhere in `s` selects the empty group.
proof fn lemma_plugs_with_id_absent(s: Seq<PluginLocationV>, id: Seq<char>)
    requires
        forall|i: int| 0 <= i < s.len() ==> (#[trigger] s[i]).plugin.id != id,
    ensures
        plugs_with_id(s, id) =~= Seq::<PluginLocationV>::empty(),
    decreases s.len(),
{
    if s.len() > 0 {
        lemma_plugs_with_id_absent(s.drop_last(), id);
    }
}

// ---------------------------------------------------------------------------
// Group classification
// ---------------------------------------------------------------------------

/// Two declarations of the group come from different files.
pub open spec fn spans_multiple_files(g: Seq<DependencyLocationV>) -> bool {
    exists|i: int, j: int|
        0 <= i < g.len() && 0 <= j < g.len() && (#[trigger] g[i]).file_path != (
        #[trigger] g[j]).file_path
}

/// Two declarations of the group carry distinct explicit versions.
pub open spec fn has_conflicting_versions(g: Seq<DependencyLocationV>) -> bool {
    exists|i: int, j: int|
        0 <= i < g.len() && 0 <= j < g.len() && (#[trigger] g[i]).dependency.version is Some && (
        #[trigger] g[j]).dependency.version is Some && g[i].dependency.version
            != g[j].dependency.version
}

/// A group reported as a version conflict: more than one declaration,
/// crossing files, with distinct explicit versions.
pub open spec fn is_version_conflict_group(g: Seq<DependencyLocationV>) -> bool {
    g.len() > 1 && spans_multiple_files(g) && has_conflicting_versions(g)
}

/// A group reported as a regular duplicate: more than one declaration,
/// crossing files, all explicit versions equal (or none given).
pub open spec fn is_regular_duplicate_group(g: Seq<DependencyLocationV>) -> bool {
    g.len() > 1 && spans_multiple_files(g) && !has_conflicting_versions(g)
}

/// Two plugin declarations of the group come from different files.
pub open spec fn plugin_spans_multiple_files(g: Seq<PluginLocationV>) -> bool {
    exists|i: int, j: int|
        0 <= i < g.len() && 0 <= j < g.len() && (#[trigger] g[i]).file_path != (
        #[trigger] g[j]).file_path
}

/// A plugin group reported as duplicated: more than one declaration,
/// crossing files.
pub open spec fn is_duplicate_plugin_group(g: Seq<PluginLocationV>) -> bool {
    g.len() > 1 && plugin_spans_multiple_files(g)
}

fn group_spans_multiple_files(g: &Vec<DependencyLocation>) -> (r: bool)
    ensures
        r == spans_multiple_files(g.deep_view()),
{
    let ghost gv = g.deep_view();
    let n = g.len();
    if n == 0 {
        return false;
    }
    let mut i: usize = 1;
    while i < n
        invariant
            1 <= i <= n || n == 0,
            n == g.len(),
            gv == g.deep_view(),
            n > 0,
            forall|j: int| 0 <= j < i ==> (#[trigger] gv[j]).file_path == gv[0].file_path,
        decreases n - i,
    {
        if !str_eq(g[i].file_path.as_str(), g[0].file_path.as_str()) {
            assert(gv[i as int].file_path != gv[0].file_path);
            return true;
        }
        proof {
            assert(gv[i as int] == g@[i as int].deep_view());
        }
        i = i + 1;
    }
    proof {
        assert forall|p: int, q: int|
            0 <= p < gv.len() && 0 <= q < gv.len() implies (#[trigger] gv[p]).file_path == (
        #[trigger] gv[q]).file_path by {
            assert(gv[p].file_path == gv[0].file_path);
            assert(gv[q].file_path == gv[0].file_path);
        }
    }
    false
}

fn group_has_conflicting_versions(g: &Vec<DependencyLocation>) -> (r: bool)
    ensures
        r == has_conflicting_versions(g.deep_view()),
{
    let ghost gv = g.deep_view();
    let n = g.len();
    // find the first declaration with an explicit version
    let mut f: usize = 0;
    while f < n && g[f].dependency.version.is_none()
        invariant
            f <= n,
            n == g.len(),
            gv == g.deep_view(),
            forall|j: int| 0 <= j < f ==> (#[trigger] gv[j]).dependency.version is None,
        decreases n - f,
    {
        proof {
            assert(gv[f as int] == g@[f as int].deep_view());
        }
        f = f + 1;
    }
    if f == n {
        proof {
            assert forall|i: int, j: int|
                !(0 <= i < gv.len() && 0 <= j < gv.len() && (#[trigger] gv[i]).dependency.version
                    is Some && (#[trigger] gv[j]).dependency.version is Some
                    && gv[i].dependency.version != gv[j].dependency.version) by {
                if 0 <= i < gv.len() {
                    assert(gv[i].dependency.version is None);
                }
            }
        }
        return false;
    }
    let v0 = match &g[f].dependency.version {
        Some(v) => v,
        None => {
            return false;
        },
    };
    let mut i: usize = f;
    while i < n
        invariant
            f <= i <= n,
            f < n,
            n == g.len(),
            gv == g.deep_view(),
            gv[f as int].dependency.version == Some(v0@),
            forall|j: int| 0 <= j < f ==> (#[trigger] gv[j]).dependency.version is None,
            forall|j: int|
                0 <= j < i ==> ((#[trigger] gv[j]).dependency.version is Some
                    ==> gv[j].dependency.version == Some(v0@)),
        decreases n - i,
    {
        proof {
            assert(gv[i as int] == g@[i as int].deep_view());
        }
        match &g[i].dependency.version {
            Some(v) => {
                if !str_eq(v.as_str(), v0.as_str()) {
                    let ghost fi = f as int;
                    let ghost ii = i as int;
                    assert(gv[ii].dependency.version is Some && gv[fi].dependency.version is Some
                        && gv[ii].dependency.version != gv[fi].dependency.version);
                    return true;
                }
            },
            None => {},
        }
        i = i + 1;
    }
    proof {
        assert forall|p: int, q: int|
            !(0 <= p < gv.len() && 0 <= q < gv.len() && (#[trigger] gv[p]).dependency.version
                is Some && (#[trigger] gv[q]).dependency.version is Some && gv[p].dependency.version
                != gv[q].dependency.version) by {
            if 0 <= p < gv.len() && 0 <= q < gv.len() {
                if gv[p].dependency.version is Some && gv[q].dependency.version is Some {
                    assert(gv[p].dependency.version == Some(v0@));
                    assert(gv[q].dependency.version == Some(v0@));
                }
            }
        }
    }
    false
}

fn plugin_group_spans_multiple_files(g: &Vec<PluginLocation>) -> (r: bool)
    ensures
        r == plugin_spans_multiple_files(g.deep_view()),
{
    let ghost gv = g.deep_view();
    let n = g.len();
    if n == 0 {
        return false;
    }
    let mut i: usize = 1;
    while i < n
        invariant
            1 <= i <= n || n == 0,
            n == g.len(),
            gv == g.deep_view(),
            n > 0,
            forall|j: int| 0 <= j < i ==> (#[trigger] gv[j]).file_path == gv[0].file_path,
        decreases n - i,
    {
        if !str_eq(g[i].file_path.as_str(), g[0].file_path.as_str()) {
            assert(gv[i as int].file_path != gv[0].file_path);
            return true;
        }
        proof {
            assert(gv[i as int] == g@[i as int].deep_view());
        }
        i = i + 1;
    }
    proof {
        assert forall|p: int, q: int|
            0 <= p < gv.len() && 0 <= q < gv.len() implies (#[trigger] gv[p]).file_path == (
        #[trigger] gv[q]).file_path by {
            assert(gv[p].file_path == gv[0].file_path);
            assert(gv[q].file_path == gv[0].file_path);
        }
    }
    false
}

// ---------------------------------------------------------------------------
// Grouping
// ---------------------------------------------------------------------------

fn clone_locs(v: &Vec<DependencyLocation>) -> (r: Vec<DependencyLocation>)
    ensures
        r.deep_view() == v.deep_view(),
{
    let mut r: Vec<DependencyLocation> = Vec::new();
    let mut i: usize = 0;
    proof {
        assert(r.deep_view() =~= v.deep_view().take(0));
    }
    while i < v.len()
        invariant
            i <= v.len(),
            r.deep_view() == v.deep_view().take(i as int),
        decreases v.len() - i,
    {
        let ghost prev = r@;
        let ghost prev_dv = r.deep_view();
        proof {
            assert(prev_dv.len() == prev.len());
        }
        r.push(v[i].clone());
        proof {
            assert(r@ == prev.push(v@[i as int]));
            assert forall|m: int| 0 <= m < r@.len() implies r.deep_view()[m] == v.deep_view().take(
                i + 1,
            )[m] by {
                assert(r.deep_view()[m] == r@[m].deep_view());
                if m < i {
                    assert(r@[m] == prev[m]);
                    assert(prev_dv[m] == prev[m].deep_view());
                }
            }
            assert(r.deep_view() =~= v.deep_view().take(i + 1));
        }
        i = i + 1;
    }
    proof {
        assert(v.deep_view().take(v.len() as int) =~= v.deep_view());
    }
    r
}

/// Groups the declarations by identity key: keys are unique and appear in
/// first-occurrence order; each group holds exactly the declarations with
/// its key, in input order; every declaration's key has a group.
fn group_by_key(all: &Vec<DependencyLocation>) -> (groups: Vec<(String, Vec<DependencyLocation>)>)
    ensures
        ({
            let dv = all.deep_view();
            let gs = groups.deep_view();
            &&& forall|p: int, q: int|
                0 <= p < q < gs.len() ==> (#[trigger] gs[p]).0 != (#[trigger] gs[q]).0
            &&& forall|p: int|
                0 <= p < gs.len() ==> (#[trigger] gs[p]).1 == locs_with_key(dv, gs[p].0)
            &&& forall|i: int|
                0 <= i < dv.len() ==> key_has_group(gs, key_of(#[trigger] dv[i]))
        }),
{
    let ghost dv = all.deep_view();
    let n = all.len();
    let mut groups: Vec<(String, Vec<DependencyLocation>)> = Vec::new();
    let mut i: usize = 0;
    while i < n
        invariant
            i <= n,
            n == all.len(),
            dv == all.deep_view(),
            forall|p: int, q: int|
                0 <= p < q < groups.deep_view().len() ==> (#[trigger] groups.deep_view()[p]).0 != (
                #[trigger] groups.deep_view()[q]).0,
            forall|p: int|
                0 <= p < groups.deep_view().len() ==> (#[trigger] groups.deep_view()[p]).1
                    == locs_with_key(dv.take(i as int), groups.deep_view()[p].0),
            forall|j: int|
                0 <= j < i ==> key_has_group(groups.deep_view(), key_of(#[trigger] dv[j])),
        decreases n - i,
    {
        let ghost gs_old = groups.deep_view();
        let key = create_dependency_key(
            all[i].dependency.group.as_str(),
            all[i].dependency.artifact.as_str(),
        );
        proof {
            assert(dv[i as int] == all@[i as int].deep_view());
            assert(key@ == key_of(dv[i as int]));
            assert(dv.take(i + 1).drop_last() =~= dv.take(i as int));
            assert(dv.take(i + 1).last() == dv[i as int]);
        }
        // look for an existing group under this key
        let m = groups.len();
        let mut found: usize = m;
        let mut p: usize = 0;
        while p < m
            invariant
                p <= m,
                found <= m,
                m == groups.len(),
                gs_old == groups.deep_view(),
                found == m ==> forall|q: int|
                    0 <= q < p ==> (#[trigger] groups.deep_view()[q]).0 != key@,
                found < m ==> groups.deep_view()[found as int].0 == key@,
            decreases m - p,
        {
            proof {
                assert(groups.deep_view()[p as int] == groups@[p as int].deep_view());
            }
            if found == m && str_eq(groups[p].0.as_str(), key.as_str()) {
                found = p;
            }
            p = p + 1;
        }
        if found < m {
            let ghost fp = found as int;
            let ghost gseq_old = groups@;
            let (pkey, mut plist) = groups.remove(found);
            let ghost plist_old_seq = plist@;
            let ghost plist_old_dv = plist.deep_view();
            proof {
                assert(gs_old[fp] == gseq_old[fp].deep_view());
                assert(gs_old[fp].0 == key@);
                assert(pkey@ == gs_old[fp].0);
                assert(plist_old_dv == gs_old[fp].1);
                assert(plist_old_dv.len() == plist_old_seq.len());
            }
            plist.push(all[i].clone());
            proof {
                assert forall|w: int| 0 <= w < plist@.len() implies plist.deep_view()[w]
                    == gs_old[fp].1.push(dv[i as int])[w] by {
                    assert(plist.deep_view()[w] == plist@[w].deep_view());
                    if w < plist_old_seq.len() {
                        assert(plist@[w] == plist_old_seq[w]);
                        assert(plist_old_dv[w] == plist_old_seq[w].deep_view());
                    }
                }
                assert(plist.deep_view() =~= gs_old[fp].1.push(dv[i as int]));
            }
            let ghost plist_dv = plist.deep_view();
            groups.insert(found, (pkey, plist));
            proof {
                let ghost new_entry = (key@, gs_old[fp].1.push(dv[i as int]));
                assert forall|q: int| 0 <= q < groups.deep_view().len() implies
                    groups.deep_view()[q] == gs_old.update(fp, new_entry)[q] by {
                    assert(groups.deep_view()[q] == groups@[q].deep_view());
                    if q != fp {
                        assert(groups@[q] == gseq_old[q]);
                        assert(gs_old[q] == gseq_old[q].deep_view());
                    }
                }
                assert(groups.deep_view() =~= gs_old.update(fp, new_entry));
                assert forall|pq: int, q: int|
                    0 <= pq < q < groups.deep_view().len() implies (
                #[trigger] groups.deep_view()[pq]).0 != (#[trigger] groups.deep_view()[q]).0 by {
                    assert(groups.deep_view()[pq].0 == gs_old[pq].0);
                    assert(groups.deep_view()[q].0 == gs_old[q].0);
                    assert(gs_old[pq].0 != gs_old[q].0);
                }
                assert forall|q: int| 0 <= q < groups.deep_view().len() implies (
                #[trigger] groups.deep_view()[q]).1 == locs_with_key(
                    dv.take(i + 1),
                    groups.deep_view()[q].0,
                ) by {
                    if q == fp {
                        assert(key_of(dv.take(i + 1).last()) == groups.deep_view()[q].0);
                    } else {
                        if q < fp {
                            assert(gs_old[q].0 != gs_old[fp].0);
                        } else {
                            assert(gs_old[fp].0 != gs_old[q].0);
                        }
                        assert(groups.deep_view()[q].0 != key@);
                        assert(key_of(dv.take(i + 1).last()) != groups.deep_view()[q].0);
                    }
                }
                assert forall|j: int| 0 <= j < i + 1 implies key_has_group(
                    groups.deep_view(),
                    key_of(#[trigger] dv[j]),
                ) by {
                    if j == i {
                        assert(groups.deep_view()[fp].0 == key_of(dv[j]));
                    } else {
                        assert(key_has_group(gs_old, key_of(dv[j])));
                        let p0 = choose|p0: int|
                            0 <= p0 < gs_old.len() && (#[trigger] gs_old[p0]).0 == key_of(dv[j]);
                        assert(groups.deep_view()[p0].0 == key_of(dv[j]));
                    }
                }
            }
        } else {
            let mut fresh: Vec<DependencyLocation> = Vec::new();
            fresh.push(all[i].clone());
            proof {
                assert(fresh.deep_view() =~= seq![dv[i as int]]);
                lemma_locs_with_key_absent_up_to(dv, i as int, key@, gs_old);
            }
            groups.push((key, fresh));
            proof {
                assert forall|q: int| 0 <= q < groups.deep_view().len() implies
                    groups.deep_view()[q] == gs_old.push(
                    (key@, seq![dv[i as int]]),
                )[q] by {
                    assert(groups.deep_view()[q] == groups@[q].deep_view());
                    if q < gs_old.len() {
                        assert(groups@[q] == groups@[q]);
                        assert(gs_old[q] == groups.deep_view()[q]);
                    }
                }
                assert(groups.deep_view() =~= gs_old.push((key@, seq![dv[i as int]])));
                assert forall|q: int| 0 <= q < groups.deep_view().len() implies (
                #[trigger] groups.deep_view()[q]).1 == locs_with_key(
                    dv.take(i + 1),
                    groups.deep_view()[q].0,
                ) by {
                    if q == gs_old.len() {
                        assert(locs_with_key(dv.take(i as int), key@) =~= Seq::<
                            DependencyLocationV,
                        >::empty());
                        assert(locs_with_key(dv.take(i + 1), key@) =~= seq![dv[i as int]]);
                    } else {
                        assert(groups.deep_view()[q].0 != key@);
                    }
                }
                assert forall|j: int| 0 <= j < i + 1 implies key_has_group(
                    groups.deep_view(),
                    key_of(#[trigger] dv[j]),
                ) by {
                    if j == i {
                        assert(groups.deep_view()[gs_old.len() as int].0 == key_of(dv[j]));
                    } else {
                        assert(key_has_group(gs_old, key_of(dv[j])));
                        let p0 = choose|p0: int|
                            0 <= p0 < gs_old.len() && (#[trigger] gs_old[p0]).0 == key_of(dv[j]);
                        assert(groups.deep_view()[p0].0 == key_of(dv[j]));
                    }
                }
            }
        }
        i = i + 1;
    }
    proof {
        assert(dv.take(n as int) =~= dv);
        assert(dv.len() == n);
    }
    groups
}

// ---------------------------------------------------------------------------
// Duplicate analysis
// ---------------------------------------------------------------------------

/// The two buckets of the dependency duplicate analysis, keyed by identity
/// key, each entry holding the full list of that key's declarations.
#[derive(Debug)]
pub struct DuplicateAnalysis {
    pub regular_duplicates: Vec<(String, Vec<DependencyLocation>)>,
    pub version_conflicts: Vec<(String, Vec<DependencyLocation>)>,
}

/// Every reported entry is honest: its list is exactly the declarations of
/// its key, and the list qualifies for the bucket it stands in.
pub open spec fn duplicate_analysis_sound(
    all: Seq<DependencyLocationV>,
    rd: Seq<(Seq<char>, Seq<DependencyLocationV>)>,
    vc: Seq<(Seq<char>, Seq<DependencyLocationV>)>,
) -> bool {
    &&& forall|p: int|
        0 <= p < rd.len() ==> (#[trigger] rd[p]).1 == locs_with_key(all, rd[p].0)
            && is_regular_duplicate_group(rd[p].1)
    &&& forall|p: int|
        0 <= p < vc.len() ==> (#[trigger] vc[p]).1 == locs_with_key(all, vc[p].0)
            && is_version_conflict_group(vc[p].1)
}

/// Every qualifying key is reported: whenever the declarations of some
/// occurring key form a duplicate or conflict group, that key stands in the
/// respective bucket.
pub open spec fn duplicate_analysis_complete(
    all: Seq<DependencyLocationV>,
    rd: Seq<(Seq<char>, Seq<DependencyLocationV>)>,
    vc: Seq<(Seq<char>, Seq<DependencyLocationV>)>,
) -> bool {
    forall|i: int|
        0 <= i < all.len() ==> {
            &&& (is_regular_duplicate_group(locs_with_key(all, key_of(#[trigger] all[i])))
                ==> key_has_group(rd, key_of(all[i])))
            &&& (is_version_conflict_group(locs_with_key(all, key_of(all[i])))
                ==> key_has_group(vc, key_of(all[i])))
        }
}

/// Groups all extracted declarations by identity key and classifies every
/// group that spans more than one file: distinct explicit versions make a
/// version conflict, otherwise a regular duplicate. Keys declared within a
/// single file are never reported.
pub fn analyze_duplicates(all: &Vec<DependencyLocation>) -> (r: DuplicateAnalysis)
    ensures
        duplicate_analysis_sound(
            all.deep_view(),
            r.regular_duplicates.deep_view(),
            r.version_conflicts.deep_view(),
        ),
        duplicate_analysis_complete(
            all.deep_view(),
            r.regular_duplicates.deep_view(),
            r.version_conflicts.deep_view(),
        ),
        distinct_keys(r.regular_duplicates.deep_view()),
        distinct_keys(r.version_conflicts.deep_view()),
{
    let ghost dv = all.deep_view();
    let groups = group_by_key(all);
    let ghost gs = groups.deep_view();
    let m = groups.len();
    let mut rd: Vec<(String, Vec<DependencyLocation>)> = Vec::new();
    let mut vc: Vec<(String, Vec<DependencyLocation>)> = Vec::new();
    let mut p: usize = 0;
    while p < m
        invariant
            p <= m,
            m == groups.len(),
            gs == groups.deep_view(),
            dv == all.deep_view(),
            forall|q: int|
                0 <= q < gs.len() ==> (#[trigger] gs[q]).1 == locs_with_key(dv, gs[q].0),
            duplicate_analysis_sound(dv, rd.deep_view(), vc.deep_view()),
            forall|q: int|
                0 <= q < p ==> {
                    &&& (is_regular_duplicate_group(locs_with_key(dv, (#[trigger] gs[q]).0))
                        ==> key_has_group(rd.deep_view(), gs[q].0))
                    &&& (is_version_conflict_group(locs_with_key(dv, gs[q].0)) ==> key_has_group(
                        vc.deep_view(),
                        gs[q].0,
                    ))
                },
            forall|a: int, b: int|
                0 <= a < b < gs.len() ==> (#[trigger] gs[a]).0 != (#[trigger] gs[b]).0,
            distinct_keys(rd.deep_view()),
            distinct_keys(vc.deep_view()),
            forall|a: int|
                0 <= a < rd.deep_view().len() ==> exists|q: int|
                    0 <= q < p && (#[trigger] rd.deep_view()[a]).0 == gs[q].0,
            forall|a: int|
                0 <= a < vc.deep_view().len() ==> exists|q: int|
                    0 <= q < p && (#[trigger] vc.deep_view()[a]).0 == gs[q].0,
        decreases m - p,
    {
        proof {
            assert(gs[p as int] == groups@[p as int].deep_view());
        }
        let qualifies = groups[p].1.len() > 1 && group_spans_multiple_files(&groups[p].1);
        if qualifies {
            let key = groups[p].0.clone();
            let locs = clone_locs(&groups[p].1);
            let ghost kv = key@;
            let ghost lv = locs.deep_view();
            proof {
                assert(kv == gs[p as int].0);
                assert(lv == locs_with_key(dv, kv));
            }
            if group_has_conflicting_versions(&groups[p].1) {
                let ghost prev = vc@;
                let ghost prev_dv = vc.deep_view();
                proof {
                    assert(prev_dv.len() == prev.len());
                }
                vc.push((key, locs));
                proof {
                    assert forall|w: int| 0 <= w < vc@.len() implies vc.deep_view()[w]
                        == prev_dv.push((kv, lv))[w] by {
                        assert(vc.deep_view()[w] == vc@[w].deep_view());
                        if w < prev.len() {
                            assert(vc@[w] == prev[w]);
                            assert(prev_dv[w] == prev[w].deep_view());
                        }
                    }
                    assert(vc.deep_view() =~= prev_dv.push((kv, lv)));
                    assert(key_has_group(vc.deep_view(), kv)) by {
                        assert(vc.deep_view()[prev.len() as int].0 == kv);
                    }
                    assert forall|k2: Seq<char>| #[trigger]
                        key_has_group(prev_dv, k2) implies key_has_group(vc.deep_view(), k2) by {
                        let w = choose|w: int|
                            0 <= w < prev_dv.len() && (#[trigger] prev_dv[w]).0 == k2;
                        assert(vc.deep_view()[w].0 == k2);
                    }
                    assert forall|a: int|
                        0 <= a < vc.deep_view().len() implies exists|q: int|
                        0 <= q < p + 1 && (#[trigger] vc.deep_view()[a]).0 == gs[q].0 by {
                        if a < prev.len() {
                            let q0 = choose|q0: int|
                                0 <= q0 < p && (#[trigger] prev_dv[a]).0 == gs[q0].0;
                            assert(vc.deep_view()[a].0 == gs[q0].0);
                        } else {
                            assert(vc.deep_view()[a].0 == gs[p as int].0);
                        }
                    }
                    assert forall|a: int, b: int|
                        0 <= a < b < vc.deep_view().len() implies (#[trigger] vc.deep_view()[
                        a]).0 != (#[trigger] vc.deep_view()[b]).0 by {
                        if b == prev.len() {
                            let q0 = choose|q0: int|
                                0 <= q0 < p && (#[trigger] prev_dv[a]).0 == gs[q0].0;
                            assert(gs[q0].0 != gs[p as int].0);
                        }
                    }
                }
            } else {
                let ghost prev = rd@;
                let ghost prev_dv = rd.deep_view();
                proof {
                    assert(prev_dv.len() == prev.len());
                }
                rd.push((key, locs));
                proof {
                    assert forall|w: int| 0 <= w < rd@.len() implies rd.deep_view()[w]
                        == prev_dv.push((kv, lv))[w] by {
                        assert(rd.deep_view()[w] == rd@[w].deep_view());
                        if w < prev.len() {
                            assert(rd@[w] == prev[w]);
                            assert(prev_dv[w] == prev[w].deep_view());
                        }
                    }
                    assert(rd.deep_view() =~= prev_dv.push((kv, lv)));
                    assert(key_has_group(rd.deep_view(), kv)) by {
                        assert(rd.deep_view()[prev.len() as int].0 == kv);
                    }
                    assert forall|k2: Seq<char>| #[trigger]
                        key_has_group(prev_dv, k2) implies key_has_group(rd.deep_view(), k2) by {
                        let w = choose|w: int|
                            0 <= w < prev_dv.len() && (#[trigger] prev_dv[w]).0 == k2;
                        assert(rd.deep_view()[w].0 == k2);
                    }
                    assert forall|a: int|
                        0 <= a < rd.deep_view().len() implies exists|q: int|
                        0 <= q < p + 1 && (#[trigger] rd.deep_view()[a]).0 == gs[q].0 by {
                        if a < prev.len() {
                            let q0 = choose|q0: int|
                                0 <= q0 < p && (#[trigger] prev_dv[a]).0 == gs[q0].0;
                            assert(rd.deep_view()[a].0 == gs[q0].0);
                        } else {
                            assert(rd.deep_view()[a].0 == gs[p as int].0);
                        }
                    }
                    assert forall|a: int, b: int|
                        0 <= a < b < rd.deep_view().len() implies (#[trigger] rd.deep_view()[
                        a]).0 != (#[trigger] rd.deep_view()[b]).0 by {
                        if b == prev.len() {
                            let q0 = choose|q0: int|
                                0 <= q0 < p && (#[trigger] prev_dv[a]).0 == gs[q0].0;
                            assert(gs[q0].0 != gs[p as int].0);
                        }
                    }
                }
            }
        } else {
            proof {
                let k = gs[p as int].0;
                let g = locs_with_key(dv, k);
                assert(!(g.len() > 1 && spans_multiple_files(g)));
            }
        }
        p = p + 1;
    }
    proof {
        assert forall|i: int| 0 <= i < dv.len() implies {
            &&& (is_regular_duplicate_group(locs_with_key(dv, key_of(#[trigger] dv[i])))
                ==> key_has_group(rd.deep_view(), key_of(dv[i])))
            &&& (is_version_conflict_group(locs_with_key(dv, key_of(dv[i]))) ==> key_has_group(
                vc.deep_view(),
                key_of(dv[i]),
            ))
        } by {
            assert(key_has_group(gs, key_of(dv[i])));
            let q = choose|q: int| 0 <= q < gs.len() && (#[trigger] gs[q]).0 == key_of(dv[i]);
        }
    }
    DuplicateAnalysis { regular_duplicates: rd, version_conflicts: vc }
}

// ---------------------------------------------------------------------------
// Reported-bucket laws
// ---------------------------------------------------------------------------

/// Same-file exemption: when every declaration of a key comes from one file,
/// that key stands in neither bucket of a sound analysis.
pub proof fn lemma_same_file_exemption(
    all: Seq<DependencyLocationV>,
    rd: Seq<(Seq<char>, Seq<DependencyLocationV>)>,
    vc: Seq<(Seq<char>, Seq<DependencyLocationV>)>,
    k: Seq<char>,
)
    requires
        duplicate_analysis_sound(all, rd, vc),
        forall|i: int, j: int|
            0 <= i < locs_with_key(all, k).len() && 0 <= j < locs_with_key(all, k).len() ==> (
            #[trigger] locs_with_key(all, k)[i]).file_path == (
            #[trigger] locs_with_key(all, k)[j]).file_path,
    ensures
        !key_has_group(rd, k),
        !key_has_group(vc, k),
{
    assert(!spans_multiple_files(locs_with_key(all, k)));
    if key_has_group(rd, k) {
        let p = choose|p: int| 0 <= p < rd.len() && (#[trigger] rd[p]).0 == k;
        assert(is_regular_duplicate_group(rd[p].1));
        assert(false);
    }
    if key_has_group(vc, k) {
        let p = choose|p: int| 0 <= p < vc.len() && (#[trigger] vc[p]).0 == k;
        assert(is_version_conflict_group(vc[p].1));
        assert(false);
    }
}

/// Each declaration with key `k` stands somewhere in that key's group.
proof fn lemma_locs_with_key_membership(s: Seq<DependencyLocationV>, k: Seq<char>, i: int)
    requires
        0 <= i < s.len(),
        key_of(s[i]) == k,
    ensures
        exists|j: int|
            0 <= j < locs_with_key(s, k).len() && #[trigger] locs_with_key(s, k)[j] == s[i],
    decreases s.len(),
{
    if i == s.len() - 1 {
        let g = locs_with_key(s, k);
        assert(g[g.len() - 1] == s[i]);
    } else {
        assert(s.drop_last()[i] == s[i]);
        lemma_locs_with_key_membership(s.drop_last(), k, i);
        let g0 = locs_with_key(s.drop_last(), k);
        let j = choose|j: int| 0 <= j < g0.len() && #[trigger] g0[j] == s.drop_last()[i];
        assert(locs_with_key(s, k)[j] == s[i]);
    }
}

/// Every element of a key's group is a declaration of the input under that
/// key.
proof fn lemma_locs_with_key_elements(s: Seq<DependencyLocationV>, k: Seq<char>, j: int)
    requires
        0 <= j < locs_with_key(s, k).len(),
    ensures
        exists|i: int|
            0 <= i < s.len() && #[trigger] s[i] == locs_with_key(s, k)[j] && key_of(s[i]) == k,
    decreases s.len(),
{
    let g = locs_with_key(s, k);
    if s.len() > 0 {
        let g0 = locs_with_key(s.drop_last(), k);
        if j < g0.len() {
            lemma_locs_with_key_elements(s.drop_last(), k, j);
            let i = choose|i: int|
                0 <= i < s.drop_last().len() && #[trigger] s.drop_last()[i] == g0[j] && key_of(
                    s.drop_last()[i],
                ) == k;
            assert(s[i] == g[j]);
        } else {
            assert(key_of(s.last()) == k);
            assert(s[s.len() - 1] == g[j]);
        }
    }
}

/// Same-version duplicates: two declarations of one key from different files
/// carrying one explicit version put the key in the regular-duplicates
/// bucket — and never in the conflicts bucket — provided no declaration of
/// the key carries a different explicit version.
pub proof fn lemma_same_version_duplicates(
    all: Seq<DependencyLocationV>,
    rd: Seq<(Seq<char>, Seq<DependencyLocationV>)>,
    vc: Seq<(Seq<char>, Seq<DependencyLocationV>)>,
    d1: int,
    d2: int,
)
    requires
        duplicate_analysis_sound(all, rd, vc),
        duplicate_analysis_complete(all, rd, vc),
        0 <= d1 < all.len(),
        0 <= d2 < all.len(),
        key_of(all[d1]) == key_of(all[d2]),
        all[d1].file_path != all[d2].file_path,
        forall|i: int, j: int|
            0 <= i < locs_with_key(all, key_of(all[d1])).len() && 0 <= j < locs_with_key(
                all,
                key_of(all[d1]),
            ).len() ==> (((#[trigger] locs_with_key(all, key_of(all[d1]))[i]).dependency.version
            is Some && (#[trigger] locs_with_key(all, key_of(all[d1]))[j]).dependency.version
            is Some) ==> locs_with_key(all, key_of(all[d1]))[i].dependency.version == locs_with_key(
            all,
            key_of(all[d1]),
        )[j].dependency.version),
    ensures
        key_has_group(rd, key_of(all[d1])),
        !key_has_group(vc, key_of(all[d1])),
{
    let k = key_of(all[d1]);
    let g = locs_with_key(all, k);
    lemma_locs_with_key_membership(all, k, d1);
    lemma_locs_with_key_membership(all, k, d2);
    let j1 = choose|j: int| 0 <= j < g.len() && #[trigger] g[j] == all[d1];
    let j2 = choose|j: int| 0 <= j < g.len() && #[trigger] g[j] == all[d2];
    assert(g[j1].file_path != g[j2].file_path);
    assert(spans_multiple_files(g));
    assert(j1 != j2);
    assert(g.len() > 1);
    assert(!has_conflicting_versions(g));
    assert(is_regular_duplicate_group(g));
    if key_has_group(vc, k) {
        let p = choose|p: int| 0 <= p < vc.len() && (#[trigger] vc[p]).0 == k;
        assert(is_version_conflict_group(vc[p].1));
        assert(false);
    }
}

/// Version conflicts: two declarations of one key from different files
/// carrying distinct explicit versions put the key in the conflicts bucket,
/// never in the regular-duplicates bucket.
pub proof fn lemma_version_conflicts_reported(
    all: Seq<DependencyLocationV>,
    rd: Seq<(Seq<char>, Seq<DependencyLocationV>)>,
    vc: Seq<(Seq<char>, Seq<DependencyLocationV>)>,
    d1: int,
    d2: int,
)
    requires
        duplicate_analysis_sound(all, rd, vc),
        duplicate_analysis_complete(all, rd, vc),
        0 <= d1 < all.len(),
        0 <= d2 < all.len(),
        key_of(all[d1]) == key_of(all[d2]),
        all[d1].file_path != all[d2].file_path,
        all[d1].dependency.version is Some,
        all[d2].dependency.version is Some,
        all[d1].dependency.version != all[d2].dependency.version,
    ensures
        key_has_group(vc, key_of(all[d1])),
        !key_has_group(rd, key_of(all[d1])),
{
    let k = key_of(all[d1]);
    let g = locs_with_key(all, k);
    lemma_locs_with_key_membership(all, k, d1);
    lemma_locs_with_key_membership(all, k, d2);
    let j1 = choose|j: int| 0 <= j < g.len() && #[trigger] g[j] == all[d1];
    let j2 = choose|j: int| 0 <= j < g.len() && #[trigger] g[j] == all[d2];
    assert(g[j1].file_path != g[j2].file_path);
    assert(spans_multiple_files(g));
    assert(j1 != j2);
    assert(g.len() > 1);
    assert(has_conflicting_versions(g)) by {
        assert(g[j1].dependency.version is Some && g[j2].dependency.version is Some && g[
            j1
        ].dependency.version != g[j2].dependency.version);
    }
    assert(is_version_conflict_group(g));
    if key_has_group(rd, k) {
        let p = choose|p: int| 0 <= p < rd.len() && (#[trigger] rd[p]).0 == k;
        assert(is_regular_duplicate_group(rd[p].1));
        assert(false);
    }
}

/// A key held by no group of the prefix selects the empty group there,
/// provided every prefix declaration's key has a group and the key is new.
proof fn lemma_locs_with_key_absent_up_to(
    dv: Seq<DependencyLocationV>,
    i: int,
    k: Seq<char>,
    gs: Seq<(Seq<char>, Seq<DependencyLocationV>)>,
)
    requires
        0 <= i <= dv.len(),
        forall|q: int| 0 <= q < gs.len() ==> (#[trigger] gs[q]).0 != k,
        forall|j: int| 0 <= j < i ==> key_has_group(gs, key_of(#[trigger] dv[j])),
    ensures
        locs_with_key(dv.take(i), k) =~= Seq::<DependencyLocationV>::empty(),
{
    assert forall|j: int| 0 <= j < dv.take(i).len() implies key_of(
        #[trigger] dv.take(i)[j],
    ) != k by {
        assert(dv.take(i)[j] == dv[j]);
        assert(key_has_group(gs, key_of(dv[j])));
        let p = choose|p: int| 0 <= p < gs.len() && (#[trigger] gs[p]).0 == key_of(dv[j]);
        assert(gs[p].0 != k);
    }
    lemma_locs_with_key_absent(dv.take(i), k);
}

// ---------------------------------------------------------------------------
// Plugin duplicate analysis
// ---------------------------------------------------------------------------

/// Some plugin group of `gs` carries the id `k`.
pub open spec fn id_has_group(gs: Seq<(Seq<char>, Seq<PluginLocationV>)>, k: Seq<char>) -> bool {
    exists|p: int| 0 <= p < gs.len() && (#[trigger] gs[p]).0 == k
}

/// An id held by no group of the prefix selects the empty group there,
/// provided every prefix declaration's id has a group and the id is new.
proof fn lemma_plugs_with_id_absent_up_to(
    dv: Seq<PluginLocationV>,
    i: int,
    k: Seq<char>,
    gs: Seq<(Seq<char>, Seq<PluginLocationV>)>,
)
    requires
        0 <= i <= dv.len(),
        forall|q: int| 0 <= q < gs.len() ==> (#[trigger] gs[q]).0 != k,
        forall|j: int| 0 <= j < i ==> id_has_group(gs, (#[trigger] dv[j]).plugin.id),
    ensures
        plugs_with_id(dv.take(i), k) =~= Seq::<PluginLocationV>::empty(),
{
    assert forall|j: int| 0 <= j < dv.take(i).len() implies (
    #[trigger] dv.take(i)[j]).plugin.id != k by {
        assert(dv.take(i)[j] == dv[j]);
        assert(id_has_group(gs, dv[j].plugin.id));
        let p = choose|p: int| 0 <= p < gs.len() && (#[trigger] gs[p]).0 == dv[j].plugin.id;
        assert(gs[p].0 != k);
    }
    lemma_plugs_with_id_absent(dv.take(i), k);
}

fn clone_plugs(v: &Vec<PluginLocation>) -> (r: Vec<PluginLocation>)
    ensures
        r.deep_view() == v.deep_view(),
{
    let mut r: Vec<PluginLocation> = Vec::new();
    let mut i: usize = 0;
    proof {
        assert(r.deep_view() =~= v.deep_view().take(0));
    }
    while i < v.len()
        invariant
            i <= v.len(),
            r.deep_view() == v.deep_view().take(i as int),
        decreases v.len() - i,
    {
        let ghost prev = r@;
        let ghost prev_dv = r.deep_view();
        proof {
            assert(prev_dv.len() == prev.len());
        }
        r.push(v[i].clone());
        proof {
            assert(r@ == prev.push(v@[i as int]));
            assert forall|m: int| 0 <= m < r@.len() implies r.deep_view()[m] == v.deep_view().take(
                i + 1,
            )[m] by {
                assert(r.deep_view()[m] == r@[m].deep_view());
                if m < i {
                    assert(r@[m] == prev[m]);
                    assert(prev_dv[m] == prev[m].deep_view());
                }
            }
            assert(r.deep_view() =~= v.deep_view().take(i + 1));
        }
        i = i + 1;
    }
    proof {
        assert(v.deep_view().take(v.len() as int) =~= v.deep_view());
    }
    r
}

/// Groups the plugin declarations by id: ids are unique and appear in
/// first-occurrence order; each group holds exactly the declarations with
/// its id, in input order; every declaration's id has a group.
fn group_plugins_by_id(all: &Vec<PluginLocation>) -> (groups: Vec<(String, Vec<PluginLocation>)>)
    ensures
        ({
            let dv = all.deep_view();
            let gs = groups.deep_view();
            &&& forall|p: int, q: int|
                0 <= p < q < gs.len() ==> (#[trigger] gs[p]).0 != (#[trigger] gs[q]).0
            &&& forall|p: int|
                0 <= p < gs.len() ==> (#[trigger] gs[p]).1 == plugs_with_id(dv, gs[p].0)
            &&& forall|i: int|
                0 <= i < dv.len() ==> id_has_group(gs, (#[trigger] dv[i]).plugin.id)
        }),
{
    let ghost dv = all.deep_view();
    let n = all.len();
    let mut groups: Vec<(String, Vec<PluginLocation>)> = Vec::new();
    let mut i: usize = 0;
    while i < n
        invariant
            i <= n,
            n == all.len(),
            dv == all.deep_view(),
            forall|p: int, q: int|
                0 <= p < q < groups.deep_view().len() ==> (#[trigger] groups.deep_view()[p]).0 != (
                #[trigger] groups.deep_view()[q]).0,
            forall|p: int|
                0 <= p < groups.deep_view().len() ==> (#[trigger] groups.deep_view()[p]).1
                    == plugs_with_id(dv.take(i as int), groups.deep_view()[p].0),
            forall|j: int|
                0 <= j < i ==> id_has_group(groups.deep_view(), (#[trigger] dv[j]).plugin.id),
        decreases n - i,
    {
        let ghost gs_old = groups.deep_view();
        let key = all[i].plugin.id.clone();
        proof {
            assert(dv[i as int] == all@[i as int].deep_view());
            assert(key@ == dv[i as int].plugin.id);
            assert(dv.take(i + 1).drop_last() =~= dv.take(i as int));
            assert(dv.take(i + 1).last() == dv[i as int]);
        }
        let m = groups.len();
        let mut found: usize = m;
        let mut p: usize = 0;
        while p < m
            invariant
                p <= m,
                found <= m,
                m == groups.len(),
                gs_old == groups.deep_view(),
                found == m ==> forall|q: int|
                    0 <= q < p ==> (#[trigger] groups.deep_view()[q]).0 != key@,
                found < m ==> groups.deep_view()[found as int].0 == key@,
            decreases m - p,
        {
            proof {
                assert(groups.deep_view()[p as int] == groups@[p as int].deep_view());
            }
            if found == m && str_eq(groups[p].0.as_str(), key.as_str()) {
                found = p;
            }
            p = p + 1;
        }
        if found < m {
            let ghost fp = found as int;
            let ghost gseq_old = groups@;
            let (pkey, mut plist) = groups.remove(found);
            let ghost plist_old_seq = plist@;
            let ghost plist_old_dv = plist.deep_view();
            proof {
                assert(gs_old[fp] == gseq_old[fp].deep_view());
                assert(gs_old[fp].0 == key@);
                assert(pkey@ == gs_old[fp].0);
                assert(plist_old_dv == gs_old[fp].1);
                assert(plist_old_dv.len() == plist_old_seq.len());
            }
            plist.push(all[i].clone());
            proof {
                assert forall|w: int| 0 <= w < plist@.len() implies plist.deep_view()[w]
                    == gs_old[fp].1.push(dv[i as int])[w] by {
                    assert(plist.deep_view()[w] == plist@[w].deep_view());
                    if w < plist_old_seq.len() {
                        assert(plist@[w] == plist_old_seq[w]);
                        assert(plist_old_dv[w] == plist_old_seq[w].deep_view());
                    }
                }
                assert(plist.deep_view() =~= gs_old[fp].1.push(dv[i as int]));
            }
            groups.insert(found, (pkey, plist));
            proof {
                let ghost new_entry = (key@, gs_old[fp].1.push(dv[i as int]));
                assert forall|q: int| 0 <= q < groups.deep_view().len() implies
                    groups.deep_view()[q] == gs_old.update(fp, new_entry)[q] by {
                    assert(groups.deep_view()[q] == groups@[q].deep_view());
                    if q != fp {
                        assert(groups@[q] == gseq_old[q]);
                        assert(gs_old[q] == gseq_old[q].deep_view());
                    }
                }
                assert(groups.deep_view() =~= gs_old.update(fp, new_entry));
                assert forall|pq: int, q: int|
                    0 <= pq < q < groups.deep_view().len() implies (
                #[trigger] groups.deep_view()[pq]).0 != (#[trigger] groups.deep_view()[q]).0 by {
                    assert(groups.deep_view()[pq].0 == gs_old[pq].0);
                    assert(groups.deep_view()[q].0 == gs_old[q].0);
                    assert(gs_old[pq].0 != gs_old[q].0);
                }
                assert forall|q: int| 0 <= q < groups.deep_view().len() implies (
                #[trigger] groups.deep_view()[q]).1 == plugs_with_id(
                    dv.take(i + 1),
                    groups.deep_view()[q].0,
                ) by {
                    if q == fp {
                        assert(dv.take(i + 1).last().plugin.id == groups.deep_view()[q].0);
                    } else {
                        if q < fp {
                            assert(gs_old[q].0 != gs_old[fp].0);
                        } else {
                            assert(gs_old[fp].0 != gs_old[q].0);
                        }
                        assert(groups.deep_view()[q].0 != key@);
                        assert(dv.take(i + 1).last().plugin.id != groups.deep_view()[q].0);
                    }
                }
                assert forall|j: int| 0 <= j < i + 1 implies id_has_group(
                    groups.deep_view(),
                    (#[trigger] dv[j]).plugin.id,
                ) by {
                    if j == i {
                        assert(groups.deep_view()[fp].0 == dv[j].plugin.id);
                    } else {
                        assert(id_has_group(gs_old, dv[j].plugin.id));
                        let p0 = choose|p0: int|
                            0 <= p0 < gs_old.len() && (#[trigger] gs_old[p0]).0 == dv[j].plugin.id;
                        assert(groups.deep_view()[p0].0 == dv[j].plugin.id);
                    }
                }
            }
        } else {
            let mut fresh: Vec<PluginLocation> = Vec::new();
            fresh.push(all[i].clone());
            proof {
                assert(fresh.deep_view() =~= seq![dv[i as int]]);
                lemma_plugs_with_id_absent_up_to(dv, i as int, key@, gs_old);
            }
            groups.push((key, fresh));
            proof {
                assert forall|q: int| 0 <= q < groups.deep_view().len() implies
                    groups.deep_view()[q] == gs_old.push((key@, seq![dv[i as int]]))[q] by {
                    assert(groups.deep_view()[q] == groups@[q].deep_view());
                    if q < gs_old.len() {
                        assert(gs_old[q] == groups.deep_view()[q]);
                    }
                }
                assert(groups.deep_view() =~= gs_old.push((key@, seq![dv[i as int]])));
                assert forall|q: int| 0 <= q < groups.deep_view().len() implies (
                #[trigger] groups.deep_view()[q]).1 == plugs_with_id(
                    dv.take(i + 1),
                    groups.deep_view()[q].0,
                ) by {
                    if q == gs_old.len() {
                        assert(plugs_with_id(dv.take(i as int), key@) =~= Seq::<
                            PluginLocationV,
                        >::empty());
                        assert(plugs_with_id(dv.take(i + 1), key@) =~= seq![dv[i as int]]);
                    } else {
                        assert(groups.deep_view()[q].0 != key@);
                    }
                }
                assert forall|j: int| 0 <= j < i + 1 implies id_has_group(
                    groups.deep_view(),
                    (#[trigger] dv[j]).plugin.id,
                ) by {
                    if j == i {
                        assert(groups.deep_view()[gs_old.len() as int].0 == dv[j].plugin.id);
                    } else {
                        assert(id_has_group(gs_old, dv[j].plugin.id));
                        let p0 = choose|p0: int|
                            0 <= p0 < gs_old.len() && (#[trigger] gs_old[p0]).0 == dv[j].plugin.id;
                        assert(groups.deep_view()[p0].0 == dv[j].plugin.id);
                    }
                }
            }
        }
        i = i + 1;
    }
    proof {
        assert(dv.take(n as int) =~= dv);
        assert(dv.len() == n);
    }
    groups
}

/// The plugin duplicate analysis: plugin ids declared in more than one file,
/// each entry holding the full list of that id's declarations.
#[derive(Debug)]
pub struct PluginAnalysis {
    pub duplicate_plugins: Vec<(String, Vec<PluginLocation>)>,
}

/// Every reported plugin entry is honest: its list is exactly the
/// declarations of its id, and that list crosses files.
pub open spec fn plugin_analysis_sound(
    all: Seq<PluginLocationV>,
    dp: Seq<(Seq<char>, Seq<PluginLocationV>)>,
) -> bool {
    forall|p: int|
        0 <= p < dp.len() ==> (#[trigger] dp[p]).1 == plugs_with_id(all, dp[p].0)
            && is_duplicate_plugin_group(dp[p].1)
}

/// Every qualifying plugin id is reported.
pub open spec fn plugin_analysis_complete(
    all: Seq<PluginLocationV>,
    dp: Seq<(Seq<char>, Seq<PluginLocationV>)>,
) -> bool {
    forall|i: int|
        0 <= i < all.len() ==> (is_duplicate_plugin_group(
            plugs_with_id(all, (#[trigger] all[i]).plugin.id),
        ) ==> id_has_group(dp, all[i].plugin.id))
}

/// Groups all extracted plugin declarations by id and reports every id
/// declared in more than one file. Ids repeated within a single file are
/// never reported.
pub fn analyze_plugins(all: &Vec<PluginLocation>) -> (r: PluginAnalysis)
    ensures
        plugin_analysis_sound(all.deep_view(), r.duplicate_plugins.deep_view()),
        plugin_analysis_complete(all.deep_view(), r.duplicate_plugins.deep_view()),
        distinct_keys(r.duplicate_plugins.deep_view()),
{
    let ghost dv = all.deep_view();
    let groups = group_plugins_by_id(all);
    let ghost gs = groups.deep_view();
    let m = groups.len();
    let mut dp: Vec<(String, Vec<PluginLocation>)> = Vec::new();
    let mut p: usize = 0;
    while p < m
        invariant
            p <= m,
            m == groups.len(),
            gs == groups.deep_view(),
            dv == all.deep_view(),
            forall|q: int|
                0 <= q < gs.len() ==> (#[trigger] gs[q]).1 == plugs_with_id(dv, gs[q].0),
            plugin_analysis_sound(dv, dp.deep_view()),
            forall|q: int|
                0 <= q < p ==> (is_duplicate_plugin_group(plugs_with_id(dv, (#[trigger] gs[q]).0))
                    ==> id_has_group(dp.deep_view(), gs[q].0)),
            forall|a: int, b: int|
                0 <= a < b < gs.len() ==> (#[trigger] gs[a]).0 != (#[trigger] gs[b]).0,
            distinct_keys(dp.deep_view()),
            forall|a: int|
                0 <= a < dp.deep_view().len() ==> exists|q: int|
                    0 <= q < p && (#[trigger] dp.deep_view()[a]).0 == gs[q].0,
        decreases m - p,
    {
        proof {
            assert(gs[p as int] == groups@[p as int].deep_view());
        }
        let qualifies = groups[p].1.len() > 1 && plugin_group_spans_multiple_files(&groups[p].1);
        if qualifies {
            let key = groups[p].0.clone();
            let locs = clone_plugs(&groups[p].1);
            let ghost kv = key@;
            let ghost lv = locs.deep_view();
            proof {
                assert(kv == gs[p as int].0);
                assert(lv == plugs_with_id(dv, kv));
            }
            let ghost prev = dp@;
            let ghost prev_dv = dp.deep_view();
            proof {
                assert(prev_dv.len() == prev.len());
            }
            dp.push((key, locs));
            proof {
                assert forall|w: int| 0 <= w < dp@.len() implies dp.deep_view()[w] == prev_dv.push(
                    (kv, lv),
                )[w] by {
                    assert(dp.deep_view()[w] == dp@[w].deep_view());
                    if w < prev.len() {
                        assert(dp@[w] == prev[w]);
                        assert(prev_dv[w] == prev[w].deep_view());
                    }
                }
                assert(dp.deep_view() =~= prev_dv.push((kv, lv)));
                assert(id_has_group(dp.deep_view(), kv)) by {
                    assert(dp.deep_view()[prev.len() as int].0 == kv);
                }
                assert forall|k2: Seq<char>| #[trigger]
                    id_has_group(prev_dv, k2) implies id_has_group(dp.deep_view(), k2) by {
                    let w = choose|w: int|
                        0 <= w < prev_dv.len() && (#[trigger] prev_dv[w]).0 == k2;
                    assert(dp.deep_view()[w].0 == k2);
                }
                assert forall|a: int|
                    0 <= a < dp.deep_view().len() implies exists|q: int|
                    0 <= q < p + 1 && (#[trigger] dp.deep_view()[a]).0 == gs[q].0 by {
                    if a < prev.len() {
                        let q0 = choose|q0: int|
                            0 <= q0 < p && (#[trigger] prev_dv[a]).0 == gs[q0].0;
                        assert(dp.deep_view()[a].0 == gs[q0].0);
                    } else {
                        assert(dp.deep_view()[a].0 == gs[p as int].0);
                    }
                }
                assert forall|a: int, b: int|
                    0 <= a < b < dp.deep_view().len() implies (#[trigger] dp.deep_view()[a]).0 != (
                #[trigger] dp.deep_view()[b]).0 by {
                    if b == prev.len() {
                        let q0 = choose|q0: int|
                            0 <= q0 < p && (#[trigger] prev_dv[a]).0 == gs[q0].0;
                        assert(gs[q0].0 != gs[p as int].0);
                    }
                }
            }
        } else {
            proof {
                let k = gs[p as int].0;
                let g = plugs_with_id(dv, k);
                assert(!(g.len() > 1 && plugin_spans_multiple_files(g)));
            }
        }
        p = p + 1;
    }
    proof {
        assert forall|i: int| 0 <= i < dv.len() implies (is_duplicate_plugin_group(
            plugs_with_id(dv, (#[trigger] dv[i]).plugin.id),
        ) ==> id_has_group(dp.deep_view(), dv[i].plugin.id)) by {
            assert(id_has_group(gs, dv[i].plugin.id));
            let q = choose|q: int| 0 <= q < gs.len() && (#[trigger] gs[q]).0 == dv[i].plugin.id;
        }
    }
    PluginAnalysis { duplicate_plugins: dp }
}

// ---------------------------------------------------------------------------
// The complete analysis
// ---------------------------------------------------------------------------

/// The aggregate result of one run: the dependency duplicate analysis, the
/// plugin duplicate analysis, and the bundle recommendations.
#[derive(Debug)]
pub struct CompleteAnalysis {
    pub duplicate_analysis: DuplicateAnalysis,
    pub plugin_analysis: PluginAnalysis,
    pub bundle_analysis: BundleAnalysis,
}

/// The catalogs the given `(path, text)` documents denote, when every one
/// of them decodes.
pub open spec fn spec_catalogs_of(files: Seq<(Seq<char>, Seq<char>)>) -> Seq<
    (Seq<char>, VersionCatalogV),
> {
    Seq::new(files.len(), |i: int| (files[i].0, spec_parse_catalog(files[i].1)->0))
}

/// Runs the whole analysis over in-memory build files and catalog
/// documents: catalogs are decoded (any decode failure aborts the run),
/// declarations extracted, duplicates and conflicts classified, and bundles
/// recommended.
pub fn perform_complete_analysis(
    build_files: &Vec<(String, String)>,
    catalog_files: &Vec<(String, String)>,
    min_bundle_size: usize,
    min_bundle_modules: usize,
) -> (r: Result<CompleteAnalysis, AnalysisError>)
    requires
        min_bundle_size >= 2,
        min_bundle_modules >= 2,
    ensures
        r is Ok <==> (forall|i: int|
            0 <= i < catalog_files.deep_view().len() ==> spec_parse_catalog(
                (#[trigger] catalog_files.deep_view()[i]).1,
            ) is Some),
        r matches Err(e) ==> e@ is TomlParsing,
        r matches Ok(a) ==> ({
            let cats = spec_catalogs_of(catalog_files.deep_view());
            let deps = spec_all_dependencies(build_files.deep_view(), cats);
            let plugs = spec_all_plugins(build_files.deep_view(), cats);
            let out = a.bundle_analysis@.recommended_bundles;
            &&& duplicate_analysis_sound(
                deps,
                a.duplicate_analysis.regular_duplicates.deep_view(),
                a.duplicate_analysis.version_conflicts.deep_view(),
            )
            &&& duplicate_analysis_complete(
                deps,
                a.duplicate_analysis.regular_duplicates.deep_view(),
                a.duplicate_analysis.version_conflicts.deep_view(),
            )
            &&& plugin_analysis_sound(plugs, a.plugin_analysis.duplicate_plugins.deep_view())
            &&& plugin_analysis_complete(plugs, a.plugin_analysis.duplicate_plugins.deep_view())
            &&& distinct_keys(a.duplicate_analysis.regular_duplicates.deep_view())
            &&& distinct_keys(a.duplicate_analysis.version_conflicts.deep_view())
            &&& distinct_keys(a.plugin_analysis.duplicate_plugins.deep_view())
            &&& forall|j: int|
                0 <= j < out.len() ==> bundle_wf(
                    deps,
                    min_bundle_size as int,
                    min_bundle_modules as int,
                    #[trigger] out[j],
                )
            &&& forall|p: int, q: int|
                0 <= p < out.len() && 0 <= q < out.len() && p != q ==> !(same_module_set(
                    (#[trigger] out[p]).modules,
                    (#[trigger] out[q]).modules,
                ) && strictly_within(out[p], out[q]))
            &&& forall|p: int, q: int|
                0 <= p < q < out.len() ==> (#[trigger] out[p]).priority_score >= (
                #[trigger] out[q]).priority_score
            &&& a.bundle_analysis@.total_bundles_found == out.len()
            &&& forall|s: Seq<Seq<char>>| #[trigger] crate::bundles::spec_bundle_candidate(
                deps,
                min_bundle_size as int,
                min_bundle_modules as int,
                s,
            ) ==> exists|j: int|
                0 <= j < out.len() && crate::bundles::bundle_covers_candidate(
                    deps,
                    #[trigger] out[j],
                    s,
                )
        }),
{
    let catalogs = match load_version_catalogs(catalog_files) {
        Ok(cs) => cs,
        Err(e) => {
            proof {
                let i = choose|i: int|
                    0 <= i < catalog_files.deep_view().len() && spec_parse_catalog(
                        (#[trigger] catalog_files.deep_view()[i]).1,
                    ) is None;
                assert(!(spec_parse_catalog(catalog_files.deep_view()[i].1) is Some));
            }
            return Err(e);
        },
    };
    proof {
        assert forall|i: int| 0 <= i < catalog_files.deep_view().len() implies spec_parse_catalog(
            (#[trigger] catalog_files.deep_view()[i]).1,
        ) is Some by {
            assert((#[trigger] catalogs.deep_view()[i]).0 == catalog_files.deep_view()[i].0);
        }
        assert(catalogs.deep_view() =~= spec_catalogs_of(catalog_files.deep_view()));
    }
    let all_dependencies = load_all_dependencies(build_files, &catalogs);
    let all_plugins = load_all_plugins(build_files, &catalogs);
    let duplicate_analysis = analyze_duplicates(&all_dependencies);
    let plugin_analysis = analyze_plugins(&all_plugins);
    let bundle_analysis = find_dependency_bundles(
        &all_dependencies,
        min_bundle_size,
        min_bundle_modules,
    );
    Ok(CompleteAnalysis { duplicate_analysis, plugin_analysis, bundle_analysis })
}

} // verus!
