//! Bundle recommendation: discovers dependency subsets that recur together
//! across modules, scores them, prunes redundant candidates and ranks the
//! survivors.

use vstd::prelude::*;
use crate::model::DependencyLocation;
use crate::model::DependencyLocationV;
use crate::model::create_dependency_key;
use crate::model::key_of;
use crate::text::lex_le;
use crate::text::lemma_lex_le_antisymmetric;
use crate::text::lemma_lex_le_total;
use crate::text::lemma_lex_le_transitive;
use crate::text::str_eq;
use crate::text::str_lex_le;

verus! {

// ---------------------------------------------------------------------------
// Ordered key lists
// ---------------------------------------------------------------------------

/// Strict lexicographic order on character sequences.
pub open spec fn lex_lt(a: Seq<char>, b: Seq<char>) -> bool {
    lex_le(a, b) && a != b
}

/// The list is strictly ascending: a canonical spelling of a key set.
pub open spec fn sorted_unique(s: Seq<Seq<char>>) -> bool {
    forall|i: int, j: int| 0 <= i < j < s.len() ==> lex_lt(#[trigger] s[i], #[trigger] s[j])
}

fn contains_str(v: &Vec<String>, k: &str) -> (r: bool)
    ensures
        r == v.deep_view().contains(k@),
{
    let ghost dv = v.deep_view();
    let n = v.len();
    let mut i: usize = 0;
    while i < n
        invariant
            i <= n,
            n == v.len(),
            dv == v.deep_view(),
            forall|j: int| 0 <= j < i ==> #[trigger] dv[j] != k@,
        decreases n - i,
    {
        proof {
            assert(dv[i as int] == v@[i as int]@);
        }
        if str_eq(v[i].as_str(), k) {
            assert(dv[i as int] == k@);
            return true;
        }
        i = i + 1;
    }
    assert(!dv.contains(k@));
    false
}

/// Every element of `a` also stands in `b`.
pub open spec fn spec_is_subset(a: Seq<Seq<char>>, b: Seq<Seq<char>>) -> bool {
    forall|i: int| 0 <= i < a.len() ==> b.contains(#[trigger] a[i])
}

fn is_subset(a: &Vec<String>, b: &Vec<String>) -> (r: bool)
    ensures
        r == spec_is_subset(a.deep_view(), b.deep_view()),
{
    let ghost av = a.deep_view();
    let n = a.len();
    let mut i: usize = 0;
    while i < n
        invariant
            i <= n,
            n == a.len(),
            av == a.deep_view(),
            forall|j: int| 0 <= j < i ==> b.deep_view().contains(#[trigger] av[j]),
        decreases n - i,
    {
        proof {
            assert(av[i as int] == a@[i as int]@);
        }
        if !contains_str(b, a[i].as_str()) {
            assert(!b.deep_view().contains(av[i as int]));
            return false;
        }
        i = i + 1;
    }
    true
}

fn vec_str_eq(a: &Vec<String>, b: &Vec<String>) -> (r: bool)
    ensures
        r == (a.deep_view() =~= b.deep_view()),
{
    let n = a.len();
    if n != b.len() {
        return false;
    }
    let mut i: usize = 0;
    while i < n
        invariant
            i <= n,
            n == a.len() == b.len(),
            forall|j: int| 0 <= j < i ==> #[trigger] a.deep_view()[j] == b.deep_view()[j],
        decreases n - i,
    {
        proof {
            assert(a.deep_view()[i as int] == a@[i as int]@);
            assert(b.deep_view()[i as int] == b@[i as int]@);
        }
        if !str_eq(a[i].as_str(), b[i].as_str()) {
            return false;
        }
        i = i + 1;
    }
    true
}

// ---------------------------------------------------------------------------
// Sorting key lists
// ---------------------------------------------------------------------------

/// Inserts each key of a duplicate-free list into ascending position,
/// yielding the canonical spelling of the same key set.
fn sort_keys(v: &Vec<String>) -> (r: Vec<String>)
    requires
        forall|i: int, j: int|
            0 <= i < j < v.deep_view().len() ==> #[trigger] v.deep_view()[i] != #[trigger] v.deep_view()[j],
    ensures
        sorted_unique(r.deep_view()),
        forall|k: Seq<char>| #[trigger] r.deep_view().contains(k) == v.deep_view().contains(k),
        r.len() == v.len(),
{
    let ghost sv = v.deep_view();
    let n = v.len();
    let mut out: Vec<String> = Vec::new();
    let mut i: usize = 0;
    proof {
        assert(out.deep_view() =~= Seq::<Seq<char>>::empty());
    }
    while i < n
        invariant
            i <= n,
            n == v.len(),
            sv == v.deep_view(),
            out.len() == i,
            sorted_unique(out.deep_view()),
            forall|i2: int, j2: int| 0 <= i2 < j2 < sv.len() ==> #[trigger] sv[i2] != #[trigger] sv[j2],
            forall|k: Seq<char>| #[trigger] out.deep_view().contains(k) ==> sv.take(i as int).contains(k),
            forall|j: int| 0 <= j < i ==> out.deep_view().contains(#[trigger] sv[j]),
        decreases n - i,
    {
        proof {
            assert(sv[i as int] == v@[i as int]@);
        }
        let x = v[i].clone();
        let ghost xv = x@;
        proof {
            assert(xv == sv[i as int]);
            // the new key differs from everything inserted so far
            assert forall|q: int| 0 <= q < out.deep_view().len() implies out.deep_view()[q]
                != xv by {
                let kq = out.deep_view()[q];
                assert(out.deep_view().contains(kq));
                assert(sv.take(i as int).contains(kq));
                let w = choose|w: int| 0 <= w < i && #[trigger] sv.take(i as int)[w] == kq;
                assert(sv[w] == kq);
                assert(sv[w] != sv[i as int]);
            }
        }
        // find the ascending position for x
        let m = out.len();
        let mut pos: usize = 0;
        while pos < m && str_lex_le(out[pos].as_str(), x.as_str())
            invariant
                pos <= m,
                m == out.len(),
                xv == x@,
                forall|q: int| 0 <= q < pos ==> lex_le(#[trigger] out.deep_view()[q], xv),
            decreases m - pos,
        {
            proof {
                assert(out.deep_view()[pos as int] == out@[pos as int]@);
            }
            pos = pos + 1;
        }
        proof {
            if pos < m {
                assert(out.deep_view()[pos as int] == out@[pos as int]@);
                assert(!lex_le(out.deep_view()[pos as int], xv));
                lemma_lex_le_total(out.deep_view()[pos as int], xv);
            }
        }
        let ghost out_old = out.deep_view();
        let ghost oseq_old = out@;
        proof {
            assert(out_old.len() == oseq_old.len());
        }
        out.insert(pos, x);
        proof {
            assert forall|q: int| 0 <= q < out.deep_view().len() implies out.deep_view()[q]
                == out_old.insert(pos as int, xv)[q] by {
                assert(out.deep_view()[q] == out@[q].deep_view());
                if q < pos {
                    assert(out@[q] == oseq_old[q]);
                    assert(out_old[q] == oseq_old[q].deep_view());
                } else if q > pos {
                    assert(out@[q] == oseq_old[q - 1]);
                    assert(out_old[q - 1] == oseq_old[q - 1].deep_view());
                }
            }
            assert(out.deep_view() =~= out_old.insert(pos as int, xv));
            // sortedness of the extended list
            assert forall|a: int, b: int|
                0 <= a < b < out.deep_view().len() implies lex_lt(
                #[trigger] out.deep_view()[a],
                #[trigger] out.deep_view()[b],
            ) by {
                let dv2 = out.deep_view();
                if a == pos {
                    // x before some old element at position b-1 >= pos
                    assert(dv2[b] == out_old[b - 1]);
                    if b - 1 == pos {
                        assert(!lex_le(out_old[pos as int], xv));
                        lemma_lex_le_total(out_old[pos as int], xv);
                    } else {
                        assert(lex_lt(out_old[pos as int], out_old[b - 1]));
                        assert(!lex_le(out_old[pos as int], xv));
                        lemma_lex_le_total(out_old[pos as int], xv);
                        lemma_lex_le_transitive(xv, out_old[pos as int], out_old[b - 1]);
                        if xv == out_old[b - 1] {
                            lemma_lex_le_antisymmetric(xv, out_old[pos as int]);
                        }
                    }
                } else if b == pos {
                    assert(dv2[a] == out_old[a]);
                    assert(lex_le(out_old[a], xv));
                    if out_old[a] == xv {
                        assert(out_old[a] != xv);
                    }
                } else if a < pos && b > pos {
                    assert(dv2[a] == out_old[a]);
                    assert(dv2[b] == out_old[b - 1]);
                    if pos < m {
                        assert(lex_lt(out_old[a], out_old[b - 1]) || a == b - 1);
                        if a == b - 1 {
                            // impossible: a < pos <= b - 1
                            assert(false);
                        }
                    } else {
                        assert(false);  // b > pos == m is out of range
                    }
                } else if a < pos && b < pos {
                    assert(dv2[a] == out_old[a] && dv2[b] == out_old[b]);
                } else {
                    assert(dv2[a] == out_old[a - 1] && dv2[b] == out_old[b - 1]);
                }
            }
            // membership carried over
            assert forall|k: Seq<char>| #[trigger] out.deep_view().contains(k) implies sv.take(
                i + 1,
            ).contains(k) by {
                let q = choose|q: int| 0 <= q < out.deep_view().len() && out.deep_view()[q] == k;
                if q == pos {
                    assert(sv.take(i + 1)[i as int] == xv);
                } else {
                    let q0 = if q < pos {
                        q
                    } else {
                        q - 1
                    };
                    assert(out_old[q0] == k);
                    assert(out_old.contains(k));
                    assert(sv.take(i as int).contains(k));
                    let w = choose|w: int| 0 <= w < i && #[trigger] sv.take(i as int)[w] == k;
                    assert(sv.take(i + 1)[w] == k);
                }
            }
            assert forall|j: int| 0 <= j < i + 1 implies out.deep_view().contains(
                #[trigger] sv[j],
            ) by {
                if j == i {
                    assert(out.deep_view()[pos as int] == sv[j]);
                } else {
                    assert(out_old.contains(sv[j]));
                    let q = choose|q: int| 0 <= q < out_old.len() && #[trigger] out_old[q] == sv[j];
                    if q < pos {
                        assert(out.deep_view()[q] == sv[j]);
                    } else {
                        assert(out.deep_view()[q + 1] == sv[j]);
                    }
                }
            }
        }
        i = i + 1;
    }
    proof {
        assert(sv.take(n as int) =~= sv);
        assert forall|k: Seq<char>| #[trigger] out.deep_view().contains(k) == sv.contains(k) by {
            if out.deep_view().contains(k) {
                assert(sv.take(n as int).contains(k));
            }
            if sv.contains(k) {
                let j = choose|j: int| 0 <= j < sv.len() && sv[j] == k;
                assert(out.deep_view().contains(sv[j]));
            }
        }
    }
    out
}

// ---------------------------------------------------------------------------
// Subset enumeration
// ---------------------------------------------------------------------------

/// All subsequences of `s`: the empty selection, then for each further
/// element every earlier selection with and without it.
pub open spec fn all_subseqs(s: Seq<Seq<char>>) -> Seq<Seq<Seq<char>>>
    decreases s.len(),
{
    if s.len() == 0 {
        seq![Seq::<Seq<char>>::empty()]
    } else {
        let prev = all_subseqs(s.drop_last());
        prev + prev.map_values(|t: Seq<Seq<char>>| t.push(s.last()))
    }
}

/// The subsequences of at least `min` elements.
pub open spec fn keep_large(ts: Seq<Seq<Seq<char>>>, min: int) -> Seq<Seq<Seq<char>>>
    decreases ts.len(),
{
    if ts.len() == 0 {
        Seq::empty()
    } else {
        keep_large(ts.drop_last(), min) + (if ts.last().len() >= min {
            seq![ts.last()]
        } else {
            Seq::empty()
        })
    }
}

/// The candidate subsets drawn from an ascending key list: every
/// subsequence holding at least `min` keys.
pub open spec fn spec_generate_subsets(items: Seq<Seq<char>>, min: int) -> Seq<Seq<Seq<char>>> {
    keep_large(all_subseqs(items), min)
}

/// Each subsequence of an ascending duplicate-free list is itself ascending
/// and drawn from the list.
pub proof fn lemma_all_subseqs_props(s: Seq<Seq<char>>)
    requires
        sorted_unique(s),
    ensures
        forall|q: int|
            0 <= q < all_subseqs(s).len() ==> sorted_unique(#[trigger] all_subseqs(s)[q])
                && spec_is_subset(all_subseqs(s)[q], s),
    decreases s.len(),
{
    if s.len() == 0 {
    } else {
        let s0 = s.drop_last();
        assert(sorted_unique(s0));
        lemma_all_subseqs_props(s0);
        let prev = all_subseqs(s0);
        assert forall|q: int|
            0 <= q < all_subseqs(s).len() implies sorted_unique(#[trigger] all_subseqs(s)[q])
            && spec_is_subset(all_subseqs(s)[q], s) by {
            if q < prev.len() {
                assert(all_subseqs(s)[q] == prev[q]);
                assert(spec_is_subset(prev[q], s0));
                assert forall|w: int| 0 <= w < prev[q].len() implies s.contains(
                    #[trigger] prev[q][w],
                ) by {
                    assert(s0.contains(prev[q][w]));
                    let u = choose|u: int| 0 <= u < s0.len() && s0[u] == prev[q][w];
                    assert(s[u] == prev[q][w]);
                }
            } else {
                let t = prev[q - prev.len()];
                assert(all_subseqs(s)[q] == t.push(s.last()));
                assert(sorted_unique(t) && spec_is_subset(t, s0));
                let t2 = t.push(s.last());
                assert forall|a: int, b: int| 0 <= a < b < t2.len() implies lex_lt(
                    #[trigger] t2[a],
                    #[trigger] t2[b],
                ) by {
                    if b == t2.len() - 1 {
                        assert(t2[a] == t[a]);
                        assert(s0.contains(t[a]));
                        let u = choose|u: int| 0 <= u < s0.len() && s0[u] == t[a];
                        assert(lex_lt(s[u], s[s.len() - 1]));
                    } else {
                        assert(t2[a] == t[a] && t2[b] == t[b]);
                    }
                }
                assert forall|w: int| 0 <= w < t2.len() implies s.contains(#[trigger] t2[w]) by {
                    if w == t2.len() - 1 {
                        assert(s[s.len() - 1] == s.last());
                    } else {
                        assert(s0.contains(t[w]));
                        let u = choose|u: int| 0 <= u < s0.len() && s0[u] == t[w];
                        assert(s[u] == t[w]);
                    }
                }
            }
        }
    }
}

fn clone_keys(v: &Vec<String>) -> (r: Vec<String>)
    ensures
        r.deep_view() == v.deep_view(),
{
    let mut r: Vec<String> = Vec::new();
    let mut i: usize = 0;
    proof {
        assert(r.deep_view() =~= v.deep_view().take(0));
    }
    while i < v.len()
        invariant
            i <= v.len(),
            r.deep_view() == v.deep_view().take(i as int),
        decreases v.len() - i,
    {
        let ghost prev = r@;
        let ghost prev_dv = r.deep_view();
        proof {
            assert(prev_dv.len() == prev.len());
        }
        r.push(v[i].clone());
        proof {
            assert forall|m: int| 0 <= m < r@.len() implies r.deep_view()[m] == v.deep_view().take(
                i + 1,
            )[m] by {
                assert(r.deep_view()[m] == r@[m].deep_view());
                if m < i {
                    assert(r@[m] == prev[m]);
                    assert(prev_dv[m] == prev[m].deep_view());
                }
            }
            assert(r.deep_view() =~= v.deep_view().take(i + 1));
        }
        i = i + 1;
    }
    proof {
        assert(v.deep_view().take(v.len() as int) =~= v.deep_view());
    }
    r
}

/// Enumerates every subset of the given keys holding at least `min_size`
/// elements, as subsequences in the keys' own order. The enumeration is
/// exponential in the key count by design; pairwise intersections of real
/// module dependency sets stay small.
pub fn generate_subsets(items: &Vec<String>, min_size: usize) -> (r: Vec<Vec<String>>)
    ensures
        r.deep_view() == spec_generate_subsets(items.deep_view(), min_size as int),
{
    let ghost iv = items.deep_view();
    let n = items.len();
    let mut subs: Vec<Vec<String>> = Vec::new();
    let empty: Vec<String> = Vec::new();
    proof {
        assert(empty.deep_view() =~= Seq::<Seq<char>>::empty());
    }
    subs.push(empty);
    proof {
        assert(subs.deep_view() =~= all_subseqs(iv.take(0))) by {
            assert(subs.deep_view() =~= seq![Seq::<Seq<char>>::empty()]);
            assert(iv.take(0) =~= Seq::<Seq<char>>::empty());
        }
    }
    let mut i: usize = 0;
    while i < n
        invariant
            i <= n,
            n == items.len(),
            iv == items.deep_view(),
            subs.deep_view() == all_subseqs(iv.take(i as int)),
        decreases n - i,
    {
        proof {
            assert(iv[i as int] == items@[i as int]@);
            assert(iv.take(i + 1).drop_last() =~= iv.take(i as int));
            assert(iv.take(i + 1).last() == iv[i as int]);
        }
        let ghost prev = subs.deep_view();
        let m = subs.len();
        let mut j: usize = 0;
        while j < m
            invariant
                j <= m,
                m == prev.len(),
                m <= subs.len(),
                iv == items.deep_view(),
                i < n,
                n == items.len(),
                prev == subs.deep_view().take(m as int),
                subs.deep_view() =~= prev + prev.take(j as int).map_values(
                    |t: Seq<Seq<char>>| t.push(iv[i as int]),
                ),
            decreases m - j,
        {
            proof {
                assert(subs.deep_view()[j as int] == subs@[j as int].deep_view());
                assert(subs.deep_view()[j as int] == prev[j as int]);
            }
            let mut w = clone_keys(&subs[j]);
            w.push(items[i].clone());
            let ghost wv = w.deep_view();
            proof {
                assert(wv.len() == w@.len());
                assert forall|u: int| 0 <= u < wv.len() implies wv[u] == prev[j as int].push(
                    iv[i as int],
                )[u] by {
                    assert(wv[u] == w@[u].deep_view());
                }
                assert(wv =~= prev[j as int].push(iv[i as int]));
            }
            let ghost subs_prev = subs@;
            let ghost subs_prev_dv = subs.deep_view();
            proof {
                assert(subs_prev_dv.len() == subs_prev.len());
            }
            subs.push(w);
            proof {
                assert forall|u: int| 0 <= u < subs@.len() implies subs.deep_view()[u]
                    == subs_prev_dv.push(wv)[u] by {
                    assert(subs.deep_view()[u] == subs@[u].deep_view());
                    if u < subs_prev.len() {
                        assert(subs@[u] == subs_prev[u]);
                        assert(subs_prev_dv[u] == subs_prev[u].deep_view());
                    }
                }
                assert(subs.deep_view() =~= subs_prev_dv.push(wv));
                assert(subs.deep_view() =~= prev + prev.take(j + 1).map_values(
                    |t: Seq<Seq<char>>| t.push(iv[i as int]),
                ));
            }
            j = j + 1;
        }
        proof {
            assert(prev.take(m as int) =~= prev);
            assert(subs.deep_view() =~= all_subseqs(iv.take(i + 1))) by {
                assert(all_subseqs(iv.take(i + 1)) == all_subseqs(iv.take(i as int))
                    + all_subseqs(iv.take(i as int)).map_values(
                    |t: Seq<Seq<char>>| t.push(iv.take(i + 1).last()),
                ));
            }
        }
        i = i + 1;
    }
    proof {
        assert(iv.take(n as int) =~= iv);
    }
    // keep only the subsets that can make a bundle
    let total = subs.len();
    let mut out: Vec<Vec<String>> = Vec::new();
    let ghost av = subs.deep_view();
    let mut q: usize = 0;
    proof {
        assert(out.deep_view() =~= keep_large(av.take(0), min_size as int));
    }
    while q < total
        invariant
            q <= total,
            total == subs.len(),
            av == subs.deep_view(),
            out.deep_view() == keep_large(av.take(q as int), min_size as int),
        decreases total - q,
    {
        proof {
            assert(av[q as int] == subs@[q as int].deep_view());
            assert(av.take(q + 1).drop_last() =~= av.take(q as int));
            assert(av.take(q + 1).last() == av[q as int]);
        }
        if subs[q].len() >= min_size {
            let w = clone_keys(&subs[q]);
            let ghost wv = w.deep_view();
            let ghost out_prev = out@;
            let ghost out_prev_dv = out.deep_view();
            proof {
                assert(out_prev_dv.len() == out_prev.len());
            }
            out.push(w);
            proof {
                assert forall|u: int| 0 <= u < out@.len() implies out.deep_view()[u]
                    == out_prev_dv.push(wv)[u] by {
                    assert(out.deep_view()[u] == out@[u].deep_view());
                    if u < out_prev.len() {
                        assert(out@[u] == out_prev[u]);
                        assert(out_prev_dv[u] == out_prev[u].deep_view());
                    }
                }
                assert(out.deep_view() =~= out_prev_dv.push(wv));
                assert(out.deep_view() =~= keep_large(av.take(q + 1), min_size as int));
            }
        } else {
            proof {
                assert(out.deep_view() =~= keep_large(av.take(q + 1), min_size as int));
            }
        }
        q = q + 1;
    }
    proof {
        assert(av.take(total as int) =~= av);
    }
    out
}

// ---------------------------------------------------------------------------
// Per-module dependency key sets
// ---------------------------------------------------------------------------

/// The build file `m` declares a dependency with identity key `k`.
pub open spec fn module_has_key(dv: Seq<DependencyLocationV>, m: Seq<char>, k: Seq<char>) -> bool {
    exists|i: int| 0 <= i < dv.len() && (#[trigger] dv[i]).file_path == m && key_of(dv[i]) == k
}

/// `m` is the path of some declaration's build file.
pub open spec fn is_module_path(dv: Seq<DependencyLocationV>, m: Seq<char>) -> bool {
    exists|i: int| 0 <= i < dv.len() && (#[trigger] dv[i]).file_path == m
}

/// The module `m` declares every key of `deps`.
pub open spec fn covers(dv: Seq<DependencyLocationV>, deps: Seq<Seq<char>>, m: Seq<char>) -> bool {
    forall|j: int| 0 <= j < deps.len() ==> module_has_key(dv, m, #[trigger] deps[j])
}

/// Some declaration carries the key `k`.
pub open spec fn key_declared(dv: Seq<DependencyLocationV>, k: Seq<char>) -> bool {
    exists|i: int| 0 <= i < dv.len() && key_of(#[trigger] dv[i]) == k
}

/// The distinct module paths of the declarations, in first-occurrence
/// order.
pub open spec fn spec_module_paths(dv: Seq<DependencyLocationV>) -> Seq<Seq<char>>
    decreases dv.len(),
{
    if dv.len() == 0 {
        Seq::empty()
    } else {
        let prev = spec_module_paths(dv.drop_last());
        if prev.contains(dv.last().file_path) {
            prev
        } else {
            prev.push(dv.last().file_path)
        }
    }
}

/// The module paths of the per-module key sets, in order.
pub open spec fn set_paths(sv: Seq<(Seq<char>, Seq<Seq<char>>)>) -> Seq<Seq<char>> {
    Seq::new(sv.len(), |i: int| sv[i].0)
}

/// How many of the listed module paths declare every key of `deps`.
pub open spec fn count_covering(
    paths: Seq<Seq<char>>,
    dv: Seq<DependencyLocationV>,
    deps: Seq<Seq<char>>,
) -> int
    decreases paths.len(),
{
    if paths.len() == 0 {
        0int
    } else {
        count_covering(paths.drop_last(), dv, deps) + (if covers(dv, deps, paths.last()) {
            1int
        } else {
            0int
        })
    }
}

/// How many modules declare every key of `deps`.
pub open spec fn spec_covering_count(dv: Seq<DependencyLocationV>, deps: Seq<Seq<char>>) -> int {
    count_covering(spec_module_paths(dv), dv, deps)
}

/// The listed module paths that declare every key of `deps`, in the listed
/// order.
pub open spec fn covering_paths(
    paths: Seq<Seq<char>>,
    dv: Seq<DependencyLocationV>,
    deps: Seq<Seq<char>>,
) -> Seq<Seq<char>>
    decreases paths.len(),
{
    if paths.len() == 0 {
        Seq::empty()
    } else {
        let rest = covering_paths(paths.drop_last(), dv, deps);
        if covers(dv, deps, paths.last()) {
            rest.push(paths.last())
        } else {
            rest
        }
    }
}

/// A path stands among the covering paths exactly when it is listed and
/// covering.
proof fn lemma_covering_paths_membership(
    paths: Seq<Seq<char>>,
    dv: Seq<DependencyLocationV>,
    deps: Seq<Seq<char>>,
    m: Seq<char>,
)
    ensures
        covering_paths(paths, dv, deps).contains(m) == (paths.contains(m) && covers(dv, deps, m)),
    decreases paths.len(),
{
    let cp = covering_paths(paths, dv, deps);
    if paths.len() == 0 {
        assert(!cp.contains(m));
        assert(!paths.contains(m));
    } else {
        let p0 = paths.drop_last();
        lemma_covering_paths_membership(p0, dv, deps, m);
        let c0 = covering_paths(p0, dv, deps);
        if cp.contains(m) {
            let w = choose|w: int| 0 <= w < cp.len() && cp[w] == m;
            if covers(dv, deps, paths.last()) && w == cp.len() - 1 {
                assert(m == paths.last());
                assert(paths[paths.len() - 1] == m);
            } else {
                assert(c0[w] == m);
                assert(c0.contains(m));
                let u = choose|u: int| 0 <= u < p0.len() && p0[u] == m;
                assert(paths[u] == m);
            }
        }
        if paths.contains(m) && covers(dv, deps, m) {
            let u = choose|u: int| 0 <= u < paths.len() && paths[u] == m;
            if u == paths.len() - 1 {
                assert(cp[cp.len() - 1] == m);
            } else {
                assert(p0[u] == m);
                assert(p0.contains(m));
                assert(c0.contains(m));
                let w = choose|w: int| 0 <= w < c0.len() && c0[w] == m;
                assert(cp[w] == m);
            }
        }
    }
}

/// Two key sets covered by exactly the same listed paths select the same
/// covering list.
proof fn lemma_covering_paths_congruent(
    paths: Seq<Seq<char>>,
    dv: Seq<DependencyLocationV>,
    d1: Seq<Seq<char>>,
    d2: Seq<Seq<char>>,
)
    requires
        forall|i: int|
            0 <= i < paths.len() ==> covers(dv, d1, #[trigger] paths[i]) == covers(
                dv,
                d2,
                paths[i],
            ),
    ensures
        covering_paths(paths, dv, d1) == covering_paths(paths, dv, d2),
    decreases paths.len(),
{
    if paths.len() > 0 {
        let p0 = paths.drop_last();
        assert forall|i: int| 0 <= i < p0.len() implies covers(dv, d1, #[trigger] p0[i]) == covers(
            dv,
            d2,
            p0[i],
        ) by {
            assert(p0[i] == paths[i]);
        }
        lemma_covering_paths_congruent(p0, dv, d1, d2);
        assert(paths[paths.len() - 1] == paths.last());
    }
}

/// The distinct module paths, in first-occurrence order.
fn collect_module_paths(all: &Vec<DependencyLocation>) -> (r: Vec<String>)
    ensures
        ({
            let dv = all.deep_view();
            let ps = r.deep_view();
            &&& ps == spec_module_paths(dv)
            &&& forall|p: int, q: int| 0 <= p < q < ps.len() ==> #[trigger] ps[p] != #[trigger] ps[q]
            &&& forall|p: int| 0 <= p < ps.len() ==> is_module_path(dv, #[trigger] ps[p])
            &&& forall|i: int| 0 <= i < dv.len() ==> ps.contains((#[trigger] dv[i]).file_path)
        }),
{
    let ghost dv = all.deep_view();
    let n = all.len();
    let mut out: Vec<String> = Vec::new();
    let mut i: usize = 0;
    proof {
        assert(out.deep_view() =~= spec_module_paths(dv.take(0)));
    }
    while i < n
        invariant
            i <= n,
            n == all.len(),
            dv == all.deep_view(),
            out.deep_view() == spec_module_paths(dv.take(i as int)),
            forall|p: int, q: int|
                0 <= p < q < out.deep_view().len() ==> #[trigger] out.deep_view()[p]
                    != #[trigger] out.deep_view()[q],
            forall|p: int|
                0 <= p < out.deep_view().len() ==> is_module_path(dv, #[trigger] out.deep_view()[p]),
            forall|j: int| 0 <= j < i ==> out.deep_view().contains((#[trigger] dv[j]).file_path),
        decreases n - i,
    {
        proof {
            assert(dv[i as int] == all@[i as int].deep_view());
            assert(dv.take(i + 1).drop_last() =~= dv.take(i as int));
            assert(dv.take(i + 1).last() == dv[i as int]);
        }
        if !contains_str(&out, all[i].file_path.as_str()) {
            let ghost prev = out@;
            let ghost prev_dv = out.deep_view();
            proof {
                assert(prev_dv.len() == prev.len());
            }
            out.push(all[i].file_path.clone());
            proof {
                assert forall|w: int| 0 <= w < out@.len() implies out.deep_view()[w]
                    == prev_dv.push(dv[i as int].file_path)[w] by {
                    assert(out.deep_view()[w] == out@[w].deep_view());
                    if w < prev.len() {
                        assert(out@[w] == prev[w]);
                        assert(prev_dv[w] == prev[w].deep_view());
                    }
                }
                assert(out.deep_view() =~= prev_dv.push(dv[i as int].file_path));
                assert forall|j: int| 0 <= j < i + 1 implies out.deep_view().contains(
                    (#[trigger] dv[j]).file_path,
                ) by {
                    if j == i {
                        assert(out.deep_view()[prev.len() as int] == dv[j].file_path);
                    } else {
                        let w = choose|w: int|
                            0 <= w < prev_dv.len() && prev_dv[w] == dv[j].file_path;
                        assert(out.deep_view()[w] == dv[j].file_path);
                    }
                }
                assert(out.deep_view() =~= spec_module_paths(dv.take(i + 1)));
            }
        } else {
            proof {
                assert(out.deep_view() =~= spec_module_paths(dv.take(i + 1)));
            }
        }
        i = i + 1;
    }
    proof {
        assert(dv.take(n as int) =~= dv);
    }
    out
}

/// The distinct identity keys the module at `path` declares, ascending.
fn collect_module_keys(all: &Vec<DependencyLocation>, path: &str) -> (r: Vec<String>)
    ensures
        sorted_unique(r.deep_view()),
        forall|k: Seq<char>| #[trigger]
            r.deep_view().contains(k) == module_has_key(all.deep_view(), path@, k),
{
    let ghost dv = all.deep_view();
    let n = all.len();
    let mut keys: Vec<String> = Vec::new();
    let mut i: usize = 0;
    while i < n
        invariant
            i <= n,
            n == all.len(),
            dv == all.deep_view(),
            forall|p: int, q: int|
                0 <= p < q < keys.deep_view().len() ==> #[trigger] keys.deep_view()[p]
                    != #[trigger] keys.deep_view()[q],
            forall|k: Seq<char>| #[trigger]
                keys.deep_view().contains(k) == module_has_key(dv.take(i as int), path@, k),
        decreases n - i,
    {
        proof {
            assert(dv[i as int] == all@[i as int].deep_view());
            assert(dv.take(i + 1)[i as int] == dv[i as int]);
            assert forall|k: Seq<char>| #[trigger]
                module_has_key(dv.take(i as int), path@, k) implies module_has_key(
                dv.take(i + 1),
                path@,
                k,
            ) by {
                let w = choose|w: int|
                    0 <= w < dv.take(i as int).len() && (#[trigger] dv.take(i as int)[w]).file_path
                        == path@ && key_of(dv.take(i as int)[w]) == k;
                assert(dv.take(i + 1)[w] == dv.take(i as int)[w]);
            }
        }
        let matches_path = str_eq(all[i].file_path.as_str(), path);
        if matches_path {
            let key = create_dependency_key(
                all[i].dependency.group.as_str(),
                all[i].dependency.artifact.as_str(),
            );
            proof {
                assert(key@ == key_of(dv[i as int]));
            }
            if !contains_str(&keys, key.as_str()) {
                let ghost prev = keys@;
                let ghost prev_dv = keys.deep_view();
                let ghost kv = key@;
                proof {
                    assert(prev_dv.len() == prev.len());
                }
                keys.push(key);
                proof {
                    assert forall|w: int| 0 <= w < keys@.len() implies keys.deep_view()[w]
                        == prev_dv.push(kv)[w] by {
                        assert(keys.deep_view()[w] == keys@[w].deep_view());
                        if w < prev.len() {
                            assert(keys@[w] == prev[w]);
                            assert(prev_dv[w] == prev[w].deep_view());
                        }
                    }
                    assert(keys.deep_view() =~= prev_dv.push(kv));
                    assert forall|k: Seq<char>| #[trigger]
                        keys.deep_view().contains(k) == module_has_key(
                        dv.take(i + 1),
                        path@,
                        k,
                    ) by {
                        if keys.deep_view().contains(k) {
                            let w = choose|w: int|
                                0 <= w < keys.deep_view().len() && keys.deep_view()[w] == k;
                            if w < prev_dv.len() {
                                assert(prev_dv[w] == k);
                                assert(prev_dv.contains(k));
                            } else {
                                assert(k == kv);
                                assert((dv.take(i + 1)[i as int]).file_path == path@ && key_of(
                                    dv.take(i + 1)[i as int],
                                ) == k);
                            }
                        }
                        if module_has_key(dv.take(i + 1), path@, k) {
                            let w = choose|w: int|
                                0 <= w < dv.take(i + 1).len() && (#[trigger] dv.take(i + 1)[w]).file_path == path@
                                    && key_of(dv.take(i + 1)[w]) == k;
                            if w < i {
                                assert(dv.take(i as int)[w] == dv.take(i + 1)[w]);
                                assert(module_has_key(dv.take(i as int), path@, k));
                                assert(prev_dv.contains(k));
                                let u = choose|u: int|
                                    0 <= u < prev_dv.len() && prev_dv[u] == k;
                                assert(keys.deep_view()[u] == k);
                            } else {
                                assert(k == kv);
                                assert(keys.deep_view()[prev.len() as int] == k);
                            }
                        }
                    }
                }
            } else {
                proof {
                    assert forall|k: Seq<char>| #[trigger]
                        keys.deep_view().contains(k) == module_has_key(
                        dv.take(i + 1),
                        path@,
                        k,
                    ) by {
                        if module_has_key(dv.take(i + 1), path@, k) && !module_has_key(
                            dv.take(i as int),
                            path@,
                            k,
                        ) {
                            let w = choose|w: int|
                                0 <= w < dv.take(i + 1).len() && (#[trigger] dv.take(i + 1)[w]).file_path == path@
                                    && key_of(dv.take(i + 1)[w]) == k;
                            if w < i {
                                assert(dv.take(i as int)[w] == dv.take(i + 1)[w]);
                            } else {
                                assert(k == key@);
                            }
                        }
                    }
                }
            }
        } else {
            proof {
                assert forall|k: Seq<char>| #[trigger]
                    keys.deep_view().contains(k) == module_has_key(dv.take(i + 1), path@, k) by {
                    if module_has_key(dv.take(i + 1), path@, k) && !module_has_key(
                        dv.take(i as int),
                        path@,
                        k,
                    ) {
                        let w = choose|w: int|
                            0 <= w < dv.take(i + 1).len() && (#[trigger] dv.take(i + 1)[w]).file_path == path@
                                && key_of(dv.take(i + 1)[w]) == k;
                        if w < i {
                            assert(dv.take(i as int)[w] == dv.take(i + 1)[w]);
                        } else {
                            assert(dv[i as int].file_path == path@);
                        }
                    }
                }
            }
        }
        i = i + 1;
    }
    proof {
        assert(dv.take(n as int) =~= dv);
        assert forall|k: Seq<char>| #[trigger] keys.deep_view().contains(k) == module_has_key(
            dv,
            path@,
            k,
        ) by {
            assert(module_has_key(dv.take(n as int), path@, k) == module_has_key(dv, path@, k));
        }
    }
    let sorted = sort_keys(&keys);
    proof {
        assert forall|k: Seq<char>| #[trigger] sorted.deep_view().contains(k) == module_has_key(
            dv,
            path@,
            k,
        ) by {
            assert(sorted.deep_view().contains(k) == keys.deep_view().contains(k));
        }
    }
    sorted
}

// ---------------------------------------------------------------------------
// Intersections
// ---------------------------------------------------------------------------

/// The keys common to both lists, preserving `a`'s order.
fn intersect(a: &Vec<String>, b: &Vec<String>) -> (r: Vec<String>)
    requires
        forall|i: int, j: int|
            0 <= i < j < a.deep_view().len() ==> #[trigger] a.deep_view()[i]
                != #[trigger] a.deep_view()[j],
    ensures
        forall|i: int, j: int|
            0 <= i < j < r.deep_view().len() ==> #[trigger] r.deep_view()[i]
                != #[trigger] r.deep_view()[j],
        forall|k: Seq<char>| #[trigger]
            r.deep_view().contains(k) == (a.deep_view().contains(k) && b.deep_view().contains(k)),
{
    let ghost av = a.deep_view();
    let ghost bv = b.deep_view();
    let n = a.len();
    let mut out: Vec<String> = Vec::new();
    let mut i: usize = 0;
    while i < n
        invariant
            i <= n,
            n == a.len(),
            av == a.deep_view(),
            bv == b.deep_view(),
            forall|p: int, q: int|
                0 <= p < q < av.len() ==> #[trigger] av[p] != #[trigger] av[q],
            forall|p: int, q: int|
                0 <= p < q < out.deep_view().len() ==> #[trigger] out.deep_view()[p]
                    != #[trigger] out.deep_view()[q],
            forall|k: Seq<char>| #[trigger]
                out.deep_view().contains(k) == (av.take(i as int).contains(k) && bv.contains(k)),
        decreases n - i,
    {
        proof {
            assert(av[i as int] == a@[i as int]@);
            assert(av.take(i + 1)[i as int] == av[i as int]);
            assert forall|k: Seq<char>| #[trigger]
                av.take(i as int).contains(k) implies av.take(i + 1).contains(k) by {
                let w = choose|w: int| 0 <= w < i && #[trigger] av.take(i as int)[w] == k;
                assert(av.take(i + 1)[w] == k);
            }
        }
        if contains_str(b, a[i].as_str()) {
            proof {
                // the key is new: it stands nowhere in the scanned prefix
                assert forall|q: int| 0 <= q < out.deep_view().len() implies out.deep_view()[q]
                    != av[i as int] by {
                    let kq = out.deep_view()[q];
                    assert(out.deep_view().contains(kq));
                    assert(av.take(i as int).contains(kq));
                    let w = choose|w: int| 0 <= w < i && #[trigger] av.take(i as int)[w] == kq;
                    assert(av[w] == kq);
                    assert(av[w] != av[i as int]);
                }
            }
            let ghost prev = out@;
            let ghost prev_dv = out.deep_view();
            proof {
                assert(prev_dv.len() == prev.len());
            }
            out.push(a[i].clone());
            proof {
                assert forall|w: int| 0 <= w < out@.len() implies out.deep_view()[w]
                    == prev_dv.push(av[i as int])[w] by {
                    assert(out.deep_view()[w] == out@[w].deep_view());
                    if w < prev.len() {
                        assert(out@[w] == prev[w]);
                        assert(prev_dv[w] == prev[w].deep_view());
                    }
                }
                assert(out.deep_view() =~= prev_dv.push(av[i as int]));
                assert forall|k: Seq<char>| #[trigger] out.deep_view().contains(k) == (av.take(
                    i + 1,
                ).contains(k) && bv.contains(k)) by {
                    if out.deep_view().contains(k) {
                        let w = choose|w: int|
                            0 <= w < out.deep_view().len() && out.deep_view()[w] == k;
                        if w < prev_dv.len() {
                            assert(prev_dv[w] == k);
                            assert(prev_dv.contains(k));
                        } else {
                            assert(k == av[i as int]);
                        }
                    }
                    if av.take(i + 1).contains(k) && bv.contains(k) {
                        let w = choose|w: int| 0 <= w <= i && #[trigger] av.take(i + 1)[w] == k;
                        if w < i {
                            assert(av.take(i as int)[w] == k);
                            assert(av.take(i as int).contains(k));
                            assert(prev_dv.contains(k));
                            let u = choose|u: int| 0 <= u < prev_dv.len() && prev_dv[u] == k;
                            assert(out.deep_view()[u] == k);
                        } else {
                            assert(out.deep_view()[prev.len() as int] == k);
                        }
                    }
                }
            }
        } else {
            proof {
                assert(!bv.contains(av[i as int]));
                assert forall|k: Seq<char>| #[trigger] out.deep_view().contains(k) == (av.take(
                    i + 1,
                ).contains(k) && bv.contains(k)) by {
                    if av.take(i + 1).contains(k) && bv.contains(k) {
                        let w = choose|w: int| 0 <= w <= i && #[trigger] av.take(i + 1)[w] == k;
                        if w < i {
                            assert(av.take(i as int)[w] == k);
                        } else {
                            assert(k == av[i as int]);
                        }
                    }
                }
            }
        }
        i = i + 1;
    }
    proof {
        assert(av.take(n as int) =~= av);
        assert forall|k: Seq<char>| #[trigger] out.deep_view().contains(k) == (av.contains(k)
            && bv.contains(k)) by {
            assert(av.take(n as int).contains(k) == av.contains(k));
        }
    }
    out
}

// ---------------------------------------------------------------------------
// Scoring
// ---------------------------------------------------------------------------

/// How valuable declarations under this configuration are for extraction,
/// in half-point units: `api` counts most, test scopes least.
pub open spec fn spec_config_score(c: Seq<char>) -> int {
    if c == "api"@ {
        6
    } else if c == "implementation"@ {
        5
    } else if c == "compileOnly"@ {
        4
    } else if c == "runtimeOnly"@ {
        3
    } else if c == "testImplementation"@ {
        2
    } else if c == "testCompileOnly"@ {
        1
    } else {
        2
    }
}

fn config_score(c: &str) -> (r: u64)
    ensures
        r as int == spec_config_score(c@),
{
    if str_eq(c, "api") {
        6
    } else if str_eq(c, "implementation") {
        5
    } else if str_eq(c, "compileOnly") {
        4
    } else if str_eq(c, "runtimeOnly") {
        3
    } else if str_eq(c, "testImplementation") {
        2
    } else if str_eq(c, "testCompileOnly") {
        1
    } else {
        2
    }
}

/// The summed configuration scores.
pub open spec fn spec_config_sum(cs: Seq<Seq<char>>) -> int
    decreases cs.len(),
{
    if cs.len() == 0 {
        0
    } else {
        spec_config_sum(cs.drop_last()) + spec_config_score(cs.last())
    }
}

proof fn lemma_config_sum_bounds(cs: Seq<Seq<char>>)
    ensures
        0 <= spec_config_sum(cs) <= 6 * cs.len(),
    decreases cs.len(),
{
    if cs.len() > 0 {
        lemma_config_sum_bounds(cs.drop_last());
    }
}

/// A bundle's priority: its size weighted most, the module count next, plus
/// the scores of every configuration it is declared under. All weights are
/// in half-point units.
pub open spec fn spec_priority_score(ds: int, ms: int, cs: Seq<Seq<char>>) -> int {
    20 * ds + 10 * ms + spec_config_sum(cs)
}

/// The distinct configuration names used by any declaration whose key
/// stands in the bundle, in first-occurrence order.
fn get_configurations_for_bundle(deps: &Vec<String>, all: &Vec<DependencyLocation>) -> (r: Vec<String>)
    ensures
        ({
            let dv = all.deep_view();
            let cs = r.deep_view();
            &&& forall|p: int, q: int|
                0 <= p < q < cs.len() ==> #[trigger] cs[p] != #[trigger] cs[q]
            &&& forall|c: Seq<char>| #[trigger]
                cs.contains(c) == exists|i: int|
                    0 <= i < dv.len() && deps.deep_view().contains(key_of(#[trigger] dv[i])) && dv[
                        i
                    ].configuration == c
        }),
{
    let ghost dv = all.deep_view();
    let ghost ds = deps.deep_view();
    let n = all.len();
    let mut out: Vec<String> = Vec::new();
    let mut i: usize = 0;
    while i < n
        invariant
            i <= n,
            n == all.len(),
            dv == all.deep_view(),
            ds == deps.deep_view(),
            forall|p: int, q: int|
                0 <= p < q < out.deep_view().len() ==> #[trigger] out.deep_view()[p]
                    != #[trigger] out.deep_view()[q],
            forall|c: Seq<char>| #[trigger]
                out.deep_view().contains(c) == exists|j: int|
                    0 <= j < i && ds.contains(key_of(#[trigger] dv[j])) && dv[j].configuration == c,
        decreases n - i,
    {
        proof {
            assert(dv[i as int] == all@[i as int].deep_view());
        }
        let key = create_dependency_key(
            all[i].dependency.group.as_str(),
            all[i].dependency.artifact.as_str(),
        );
        proof {
            assert(key@ == key_of(dv[i as int]));
        }
        let in_bundle = contains_str(deps, key.as_str());
        if in_bundle && !contains_str(&out, all[i].configuration.as_str()) {
            let ghost prev = out@;
            let ghost prev_dv = out.deep_view();
            proof {
                assert(prev_dv.len() == prev.len());
            }
            out.push(all[i].configuration.clone());
            proof {
                assert forall|w: int| 0 <= w < out@.len() implies out.deep_view()[w]
                    == prev_dv.push(dv[i as int].configuration)[w] by {
                    assert(out.deep_view()[w] == out@[w].deep_view());
                    if w < prev.len() {
                        assert(out@[w] == prev[w]);
                        assert(prev_dv[w] == prev[w].deep_view());
                    }
                }
                assert(out.deep_view() =~= prev_dv.push(dv[i as int].configuration));
                assert forall|c: Seq<char>| #[trigger] out.deep_view().contains(c) == exists|j: int|
                    0 <= j < i + 1 && ds.contains(key_of(#[trigger] dv[j])) && dv[j].configuration
                        == c by {
                    if out.deep_view().contains(c) {
                        let w = choose|w: int|
                            0 <= w < out.deep_view().len() && out.deep_view()[w] == c;
                        if w < prev_dv.len() {
                            assert(prev_dv[w] == c);
                            assert(prev_dv.contains(c));
                            let j = choose|j: int|
                                0 <= j < i && ds.contains(key_of(#[trigger] dv[j])) && dv[
                                    j
                                ].configuration == c;
                            assert(0 <= j < i + 1 && ds.contains(key_of(dv[j])) && dv[
                                j
                            ].configuration == c);
                        } else {
                            assert(c == dv[i as int].configuration);
                            assert(ds.contains(key_of(dv[i as int])));
                        }
                    }
                    if exists|j: int|
                        0 <= j < i + 1 && ds.contains(key_of(#[trigger] dv[j])) && dv[
                            j
                        ].configuration == c {
                        let j = choose|j: int|
                            0 <= j < i + 1 && ds.contains(key_of(#[trigger] dv[j])) && dv[
                                j
                            ].configuration == c;
                        if j < i {
                            assert(prev_dv.contains(c));
                            let u = choose|u: int| 0 <= u < prev_dv.len() && prev_dv[u] == c;
                            assert(out.deep_view()[u] == c);
                        } else {
                            assert(out.deep_view()[prev.len() as int] == c);
                        }
                    }
                }
            }
        } else {
            proof {
                assert forall|c: Seq<char>| #[trigger] out.deep_view().contains(c) == exists|j: int|
                    0 <= j < i + 1 && ds.contains(key_of(#[trigger] dv[j])) && dv[j].configuration
                        == c by {
                    if exists|j: int|
                        0 <= j < i + 1 && ds.contains(key_of(#[trigger] dv[j])) && dv[
                            j
                        ].configuration == c {
                        let j = choose|j: int|
                            0 <= j < i + 1 && ds.contains(key_of(#[trigger] dv[j])) && dv[
                                j
                            ].configuration == c;
                        if j == i {
                            assert(ds.contains(key_of(dv[i as int])));
                            assert(out.deep_view().contains(dv[i as int].configuration));
                        }
                    }
                }
            }
        }
        i = i + 1;
    }
    out
}

/// Computes a bundle's priority from its parts.
fn priority_score(deps_len: usize, mods_len: usize, configs: &Vec<String>) -> (r: u128)
    ensures
        r as int == spec_priority_score(
            deps_len as int,
            mods_len as int,
            configs.deep_view(),
        ),
{
    let ghost cs = configs.deep_view();
    let n = configs.len();
    let mut sum: u128 = 0;
    let mut i: usize = 0;
    proof {
        assert(cs.take(0) =~= Seq::<Seq<char>>::empty());
    }
    while i < n
        invariant
            i <= n,
            n == configs.len(),
            cs == configs.deep_view(),
            sum as int == spec_config_sum(cs.take(i as int)),
            sum <= 6 * (i as u128),
        decreases n - i,
    {
        proof {
            assert(cs[i as int] == configs@[i as int]@);
            assert(cs.take(i + 1).drop_last() =~= cs.take(i as int));
            assert(cs.take(i + 1).last() == cs[i as int]);
        }
        let sc = config_score(configs[i].as_str());
        sum = sum + (sc as u128);
        i = i + 1;
    }
    proof {
        assert(cs.take(n as int) =~= cs);
    }
    20u128 * (deps_len as u128) + 10u128 * (mods_len as u128) + sum
}

// ---------------------------------------------------------------------------
// Bundles
// ---------------------------------------------------------------------------

/// A candidate recommendation: an ascending, duplicate-free list of identity
/// keys, the modules exhibiting all of them, the configuration names those
/// declarations use, and a priority score in half-point units.
#[derive(Debug)]
pub struct DependencyBundle {
    pub dependencies: Vec<String>,
    pub modules: Vec<String>,
    pub bundle_size: usize,
    pub module_count: usize,
    pub configurations: Vec<String>,
    pub priority_score: u128,
}

/// Mathematical image of a `DependencyBundle`.
pub struct DependencyBundleV {
    pub dependencies: Seq<Seq<char>>,
    pub modules: Seq<Seq<char>>,
    pub bundle_size: int,
    pub module_count: int,
    pub configurations: Seq<Seq<char>>,
    pub priority_score: int,
}

impl View for DependencyBundle {
    type V = DependencyBundleV;

    open spec fn view(&self) -> DependencyBundleV {
        DependencyBundleV {
            dependencies: self.dependencies.deep_view(),
            modules: self.modules.deep_view(),
            bundle_size: self.bundle_size as int,
            module_count: self.module_count as int,
            configurations: self.configurations.deep_view(),
            priority_score: self.priority_score as int,
        }
    }
}

impl DeepView for DependencyBundle {
    type V = DependencyBundleV;

    open spec fn deep_view(&self) -> DependencyBundleV {
        self.view()
    }
}

/// The ranked recommendations, and how many distinct candidates survived
/// pruning.
#[derive(Debug)]
pub struct BundleAnalysis {
    pub recommended_bundles: Vec<DependencyBundle>,
    pub total_bundles_found: usize,
}

/// Mathematical image of a `BundleAnalysis`.
pub struct BundleAnalysisV {
    pub recommended_bundles: Seq<DependencyBundleV>,
    pub total_bundles_found: int,
}

impl View for BundleAnalysis {
    type V = BundleAnalysisV;

    open spec fn view(&self) -> BundleAnalysisV {
        BundleAnalysisV {
            recommended_bundles: self.recommended_bundles.deep_view(),
            total_bundles_found: self.total_bundles_found as int,
        }
    }
}

impl DeepView for BundleAnalysis {
    type V = BundleAnalysisV;

    open spec fn deep_view(&self) -> BundleAnalysisV {
        self.view()
    }
}

/// A well-formed recommendation for the declarations `dv` under the given
/// thresholds: canonical keys that are really declared, exactly the modules
/// that exhibit all of them, exactly the configuration names used by the
/// bundled declarations, honest counts, and an honest score.
pub open spec fn bundle_wf(
    dv: Seq<DependencyLocationV>,
    min_size: int,
    min_count: int,
    b: DependencyBundleV,
) -> bool {
    &&& sorted_unique(b.dependencies)
    &&& b.bundle_size == b.dependencies.len()
    &&& b.dependencies.len() >= min_size
    &&& b.module_count == b.modules.len()
    &&& b.modules.len() >= min_count
    &&& forall|j: int| 0 <= j < b.dependencies.len() ==> key_declared(dv, #[trigger] b.dependencies[j])
    &&& forall|p: int, q: int|
        0 <= p < q < b.modules.len() ==> #[trigger] b.modules[p] != #[trigger] b.modules[q]
    &&& forall|j: int|
        0 <= j < b.modules.len() ==> is_module_path(dv, #[trigger] b.modules[j]) && covers(
            dv,
            b.dependencies,
            b.modules[j],
        )
    &&& forall|i: int|
        0 <= i < dv.len() ==> (covers(dv, b.dependencies, (#[trigger] dv[i]).file_path)
            ==> b.modules.contains(dv[i].file_path))
    &&& b.modules == covering_paths(spec_module_paths(dv), dv, b.dependencies)
    &&& forall|p: int, q: int|
        0 <= p < q < b.configurations.len() ==> #[trigger] b.configurations[p]
            != #[trigger] b.configurations[q]
    &&& forall|c: Seq<char>| #[trigger]
        b.configurations.contains(c) == exists|i: int|
            0 <= i < dv.len() && b.dependencies.contains(key_of(#[trigger] dv[i])) && dv[
                i
            ].configuration == c
    &&& b.priority_score == spec_priority_score(
        b.dependencies.len() as int,
        b.modules.len() as int,
        b.configurations,
    )
}

/// One bundle's key list is strictly contained in another's.
pub open spec fn strictly_within(a: DependencyBundleV, b: DependencyBundleV) -> bool {
    spec_is_subset(a.dependencies, b.dependencies) && a.dependencies.len() < b.dependencies.len()
}

/// The two lists spell the same set of module paths.
pub open spec fn same_module_set(a: Seq<Seq<char>>, b: Seq<Seq<char>>) -> bool {
    forall|m: Seq<char>| #[trigger] a.contains(m) == b.contains(m)
}

// ---------------------------------------------------------------------------
// Candidate collection
// ---------------------------------------------------------------------------

/// The per-module key sets are faithful to the declarations: unique module
/// paths, every declaring module listed, and each key list the canonical
/// spelling of exactly that module's keys.
pub open spec fn module_sets_wf(
    dv: Seq<DependencyLocationV>,
    ms: Seq<(Seq<char>, Seq<Seq<char>>)>,
) -> bool {
    &&& forall|p: int, q: int| 0 <= p < q < ms.len() ==> (#[trigger] ms[p]).0 != (#[trigger] ms[q]).0
    &&& forall|p: int| 0 <= p < ms.len() ==> is_module_path(dv, (#[trigger] ms[p]).0)
    &&& forall|i: int| 0 <= i < dv.len() ==> path_in_sets(ms, (#[trigger] dv[i]).file_path)
    &&& forall|p: int| 0 <= p < ms.len() ==> sorted_unique((#[trigger] ms[p]).1)
    &&& forall|p: int, k: Seq<char>|
        0 <= p < ms.len() ==> (#[trigger] (ms[p].1.contains(k))) == module_has_key(dv, ms[p].0, k)
}

/// Some set of `ms` belongs to the module path `m`.
pub open spec fn path_in_sets(ms: Seq<(Seq<char>, Seq<Seq<char>>)>, m: Seq<char>) -> bool {
    exists|p: int| 0 <= p < ms.len() && (#[trigger] ms[p]).0 == m
}

/// Partitions the declarations by module and spells each module's key set
/// canonically.
fn collect_module_sets(all: &Vec<DependencyLocation>) -> (r: Vec<(String, Vec<String>)>)
    ensures
        module_sets_wf(all.deep_view(), r.deep_view()),
        r.deep_view().len() == spec_module_paths(all.deep_view()).len(),
        forall|p: int|
            0 <= p < r.deep_view().len() ==> (#[trigger] r.deep_view()[p]).0 == spec_module_paths(
                all.deep_view(),
            )[p],
{
    let ghost dv = all.deep_view();
    let paths = collect_module_paths(all);
    let ghost pv = paths.deep_view();
    proof {
        assert(pv == spec_module_paths(dv));
    }
    let n = paths.len();
    let mut out: Vec<(String, Vec<String>)> = Vec::new();
    let mut i: usize = 0;
    while i < n
        invariant
            i <= n,
            n == paths.len(),
            dv == all.deep_view(),
            pv == paths.deep_view(),
            out.len() == i,
            forall|p: int, q: int| 0 <= p < q < pv.len() ==> #[trigger] pv[p] != #[trigger] pv[q],
            forall|p: int| 0 <= p < pv.len() ==> is_module_path(dv, #[trigger] pv[p]),
            forall|j: int| 0 <= j < dv.len() ==> pv.contains((#[trigger] dv[j]).file_path),
            forall|p: int| 0 <= p < i ==> (#[trigger] out.deep_view()[p]).0 == pv[p],
            forall|p: int| 0 <= p < i ==> sorted_unique((#[trigger] out.deep_view()[p]).1),
            forall|p: int, k: Seq<char>|
                0 <= p < i ==> (#[trigger] (out.deep_view()[p].1.contains(k))) == module_has_key(
                    dv,
                    out.deep_view()[p].0,
                    k,
                ),
        decreases n - i,
    {
        proof {
            assert(pv[i as int] == paths@[i as int]@);
        }
        let keys = collect_module_keys(all, paths[i].as_str());
        let ghost kv = keys.deep_view();
        let path = paths[i].clone();
        let ghost prev = out@;
        let ghost prev_dv = out.deep_view();
        proof {
            assert(prev_dv.len() == prev.len());
        }
        out.push((path, keys));
        proof {
            assert forall|w: int| 0 <= w < out@.len() implies out.deep_view()[w] == prev_dv.push(
                (pv[i as int], kv),
            )[w] by {
                assert(out.deep_view()[w] == out@[w].deep_view());
                if w < prev.len() {
                    assert(out@[w] == prev[w]);
                    assert(prev_dv[w] == prev[w].deep_view());
                }
            }
            assert(out.deep_view() =~= prev_dv.push((pv[i as int], kv)));
        }
        i = i + 1;
    }
    proof {
        let ms = out.deep_view();
        assert forall|j: int| 0 <= j < dv.len() implies path_in_sets(
            ms,
            (#[trigger] dv[j]).file_path,
        ) by {
            let w = choose|w: int| 0 <= w < pv.len() && pv[w] == dv[j].file_path;
            assert(ms[w].0 == dv[j].file_path);
        }
    }
    out
}

/// Exactly the modules whose key set contains every key of `deps`, in the
/// key-set order.
fn modules_covering(
    deps: &Vec<String>,
    sets: &Vec<(String, Vec<String>)>,
    all: &Vec<DependencyLocation>,
) -> (r: Vec<String>)
    requires
        module_sets_wf(all.deep_view(), sets.deep_view()),
    ensures
        ({
            let dv = all.deep_view();
            let mods = r.deep_view();
            &&& forall|p: int, q: int|
                0 <= p < q < mods.len() ==> #[trigger] mods[p] != #[trigger] mods[q]
            &&& forall|j: int|
                0 <= j < mods.len() ==> is_module_path(dv, #[trigger] mods[j]) && covers(
                    dv,
                    deps.deep_view(),
                    mods[j],
                )
            &&& forall|i: int|
                0 <= i < dv.len() ==> (covers(dv, deps.deep_view(), (#[trigger] dv[i]).file_path)
                    ==> mods.contains(dv[i].file_path))
            &&& mods.len() == count_covering(set_paths(sets.deep_view()), dv, deps.deep_view())
            &&& mods == covering_paths(set_paths(sets.deep_view()), dv, deps.deep_view())
        }),
{
    let ghost dv = all.deep_view();
    let ghost sv = sets.deep_view();
    let ghost ds = deps.deep_view();
    let n = sets.len();
    let mut out: Vec<String> = Vec::new();
    let mut p: usize = 0;
    while p < n
        invariant
            p <= n,
            n == sets.len(),
            dv == all.deep_view(),
            sv == sets.deep_view(),
            ds == deps.deep_view(),
            module_sets_wf(dv, sv),
            forall|a: int, b: int|
                0 <= a < b < out.deep_view().len() ==> #[trigger] out.deep_view()[a]
                    != #[trigger] out.deep_view()[b],
            forall|j: int|
                0 <= j < out.deep_view().len() ==> is_module_path(
                    dv,
                    #[trigger] out.deep_view()[j],
                ) && covers(dv, ds, out.deep_view()[j]),
            forall|q: int|
                0 <= q < p ==> (covers(dv, ds, (#[trigger] sv[q]).0) ==> out.deep_view().contains(
                    sv[q].0,
                )),
            forall|j: int|
                0 <= j < out.deep_view().len() ==> exists|q: int|
                    0 <= q < p && (#[trigger] out.deep_view()[j]) == sv[q].0,
            out.len() as int == count_covering(set_paths(sv).take(p as int), dv, ds),
            out.deep_view() == covering_paths(set_paths(sv).take(p as int), dv, ds),
        decreases n - p,
    {
        proof {
            assert(sv[p as int] == sets@[p as int].deep_view());
            assert(set_paths(sv).take(p + 1).drop_last() =~= set_paths(sv).take(p as int));
            assert(set_paths(sv).take(p + 1).last() == sv[p as int].0);
        }
        let covered = is_subset(deps, &sets[p].1);
        proof {
            assert(covered == covers(dv, ds, sv[p as int].0)) by {
                if covered {
                    assert forall|j: int| 0 <= j < ds.len() implies module_has_key(
                        dv,
                        sv[p as int].0,
                        #[trigger] ds[j],
                    ) by {
                        assert(sv[p as int].1.contains(ds[j]));
                    }
                } else {
                    let j = choose|j: int|
                        0 <= j < ds.len() && !sv[p as int].1.contains(#[trigger] ds[j]);
                    assert(!module_has_key(dv, sv[p as int].0, ds[j]));
                }
            }
        }
        if covered {
            proof {
                assert forall|a: int| 0 <= a < out.deep_view().len() implies out.deep_view()[a]
                    != sv[p as int].0 by {
                    let q = choose|q: int|
                        0 <= q < p && (#[trigger] out.deep_view()[a]) == sv[q].0;
                    assert(sv[q].0 != sv[p as int].0);
                }
            }
            let ghost prev = out@;
            let ghost prev_dv = out.deep_view();
            proof {
                assert(prev_dv.len() == prev.len());
            }
            out.push(sets[p].0.clone());
            proof {
                assert forall|w: int| 0 <= w < out@.len() implies out.deep_view()[w]
                    == prev_dv.push(sv[p as int].0)[w] by {
                    assert(out.deep_view()[w] == out@[w].deep_view());
                    if w < prev.len() {
                        assert(out@[w] == prev[w]);
                        assert(prev_dv[w] == prev[w].deep_view());
                    }
                }
                assert(out.deep_view() =~= prev_dv.push(sv[p as int].0));
                assert forall|q: int| 0 <= q < p + 1 implies (covers(
                    dv,
                    ds,
                    (#[trigger] sv[q]).0,
                ) ==> out.deep_view().contains(sv[q].0)) by {
                    if covers(dv, ds, sv[q].0) {
                        if q == p {
                            assert(out.deep_view()[prev.len() as int] == sv[q].0);
                        } else {
                            let w = choose|w: int|
                                0 <= w < prev_dv.len() && prev_dv[w] == sv[q].0;
                            assert(out.deep_view()[w] == sv[q].0);
                        }
                    }
                }
            }
        }
        p = p + 1;
    }
    proof {
        assert(set_paths(sv).take(n as int) =~= set_paths(sv));
        assert forall|i: int| 0 <= i < dv.len() implies (covers(
            dv,
            ds,
            (#[trigger] dv[i]).file_path,
        ) ==> out.deep_view().contains(dv[i].file_path)) by {
            if covers(dv, ds, dv[i].file_path) {
                assert(path_in_sets(sv, dv[i].file_path));
                let q = choose|q: int| 0 <= q < sv.len() && (#[trigger] sv[q]).0 == dv[i].file_path;
            }
        }
    }
    out
}

/// Elements kept by `keep_large` are elements of the enumeration, of at
/// least the demanded size.
proof fn lemma_keep_large_elems(ts: Seq<Seq<Seq<char>>>, min: int)
    ensures
        forall|q: int|
            0 <= q < keep_large(ts, min).len() ==> (#[trigger] keep_large(ts, min)[q]).len() >= min
                && ts.contains(keep_large(ts, min)[q]),
    decreases ts.len(),
{
    if ts.len() > 0 {
        lemma_keep_large_elems(ts.drop_last(), min);
        let kl = keep_large(ts, min);
        let k0 = keep_large(ts.drop_last(), min);
        assert forall|q: int| 0 <= q < kl.len() implies (#[trigger] kl[q]).len() >= min
            && ts.contains(kl[q]) by {
            if q < k0.len() {
                assert(kl[q] == k0[q]);
                assert(ts.drop_last().contains(k0[q]));
                let w = choose|w: int|
                    0 <= w < ts.drop_last().len() && ts.drop_last()[w] == k0[q];
                assert(ts[w] == k0[q]);
            } else {
                assert(kl[q] == ts.last());
                assert(ts[ts.len() - 1] == ts.last());
            }
        }
    }
}

/// The enumeration always offers the empty selection.
proof fn lemma_all_subseqs_has_empty(s: Seq<Seq<char>>)
    ensures
        all_subseqs(s).contains(Seq::<Seq<char>>::empty()),
    decreases s.len(),
{
    if s.len() == 0 {
        assert(all_subseqs(s)[0] =~= Seq::<Seq<char>>::empty());
    } else {
        lemma_all_subseqs_has_empty(s.drop_last());
        let prev = all_subseqs(s.drop_last());
        let w = choose|w: int| 0 <= w < prev.len() && prev[w] == Seq::<Seq<char>>::empty();
        assert(all_subseqs(s)[w] == Seq::<Seq<char>>::empty());
    }
}

/// Whatever the enumeration offers at the demanded size, the size filter
/// keeps.
proof fn lemma_keep_large_complete(ts: Seq<Seq<Seq<char>>>, min: int, x: Seq<Seq<char>>)
    requires
        ts.contains(x),
        x.len() >= min,
    ensures
        keep_large(ts, min).contains(x),
    decreases ts.len(),
{
    let w = choose|w: int| 0 <= w < ts.len() && ts[w] == x;
    if w == ts.len() - 1 {
        let kl = keep_large(ts, min);
        assert(ts.last() == x);
        assert(kl[keep_large(ts.drop_last(), min).len() as int] == x);
    } else {
        assert(ts.drop_last()[w] == x);
        assert(ts.drop_last().contains(x));
        lemma_keep_large_complete(ts.drop_last(), min, x);
        let k0 = keep_large(ts.drop_last(), min);
        let u = choose|u: int| 0 <= u < k0.len() && k0[u] == x;
        assert(keep_large(ts, min)[u] == x);
    }
}

/// Every ascending selection from an ascending list stands in the list's
/// enumeration: the selection is a subsequence, built up one last element
/// at a time.
proof fn lemma_subseqs_complete(sub: Seq<Seq<char>>, items: Seq<Seq<char>>)
    requires
        sorted_unique(sub),
        sorted_unique(items),
        spec_is_subset(sub, items),
    ensures
        all_subseqs(items).contains(sub),
    decreases items.len(),
{
    if sub.len() == 0 {
        lemma_all_subseqs_has_empty(items);
        assert(sub =~= Seq::<Seq<char>>::empty());
    } else {
        assert(items.contains(sub.last())) by {
            assert(items.contains(sub[sub.len() - 1]));
        }
        let i0 = items.drop_last();
        assert(sorted_unique(i0));
        if sub.last() == items.last() {
            let s0 = sub.drop_last();
            assert(sorted_unique(s0));
            assert forall|w: int| 0 <= w < s0.len() implies i0.contains(#[trigger] s0[w]) by {
                assert(items.contains(sub[w]));
                let u = choose|u: int| 0 <= u < items.len() && items[u] == sub[w];
                assert(lex_lt(sub[w], sub.last()));
                if u == items.len() - 1 {
                    // the selection's earlier element would equal the list's
                    // greatest element, contradicting strict ascent
                    assert(items[u] == items.last());
                    assert(false);
                }
                assert(i0[u] == sub[w]);
            }
            lemma_subseqs_complete(s0, i0);
            let prev = all_subseqs(i0);
            let w = choose|w: int| 0 <= w < prev.len() && prev[w] == s0;
            assert(all_subseqs(items)[prev.len() + w] == prev[w].push(items.last()));
            assert(s0.push(items.last()) =~= sub);
            assert(all_subseqs(items).contains(sub));
        } else {
            assert forall|w: int| 0 <= w < sub.len() implies i0.contains(#[trigger] sub[w]) by {
                assert(items.contains(sub[w]));
                let u = choose|u: int| 0 <= u < items.len() && items[u] == sub[w];
                if u == items.len() - 1 {
                    // sub[w] would be the list's greatest element, forcing it
                    // to be the selection's last and equal to the list's last
                    assert(items[u] == items.last());
                    if w < sub.len() - 1 {
                        assert(lex_lt(sub[w], sub.last()));
                        assert(items.contains(sub[sub.len() - 1]));
                        let v = choose|v: int|
                            0 <= v < items.len() && items[v] == sub[sub.len() - 1];
                        if v < items.len() - 1 {
                            assert(lex_lt(items[v], items.last()));
                            assert(lex_le(sub.last(), sub[w]));
                            lemma_lex_le_antisymmetric(sub[w], sub.last());
                            assert(false);
                        } else {
                            assert(sub.last() == items.last());
                            lemma_lex_le_antisymmetric(sub[w], sub.last());
                            assert(false);
                        }
                    } else {
                        assert(sub.last() == items.last());
                        assert(false);
                    }
                }
                assert(i0[u] == sub[w]);
            }
            lemma_subseqs_complete(sub, i0);
            let prev = all_subseqs(i0);
            let w = choose|w: int| 0 <= w < prev.len() && prev[w] == sub;
            assert(all_subseqs(items)[w] == sub);
        }
    }
}

/// Ascending lists never repeat a key.
proof fn lemma_sorted_unique_no_duplicates(s: Seq<Seq<char>>)
    requires
        sorted_unique(s),
    ensures
        s.no_duplicates(),
{
    assert forall|i: int, j: int| 0 <= i < s.len() && 0 <= j < s.len() && i != j implies s[i]
        != s[j] by {
        if i < j {
            assert(lex_lt(s[i], s[j]));
        } else {
            assert(lex_lt(s[j], s[i]));
        }
    }
}

/// A duplicate-free selection drawn from a list cannot outnumber it.
proof fn lemma_subset_len(sub: Seq<Seq<char>>, sup: Seq<Seq<char>>)
    requires
        sub.no_duplicates(),
        spec_is_subset(sub, sup),
    ensures
        sub.len() <= sup.len(),
{
    broadcast use vstd::seq_lib::seq_to_set_is_finite;
    broadcast use vstd::set::group_set_axioms;

    sub.unique_seq_to_set();
    sup.lemma_cardinality_of_set();
    assert(sub.to_set().subset_of(sup.to_set())) by {
        assert forall|a: Seq<char>| sub.to_set().contains(a) implies sup.to_set().contains(a) by {
            assert(sub.contains(a));
            let w = choose|w: int| 0 <= w < sub.len() && sub[w] == a;
            assert(sup.contains(sub[w]));
        }
    }
    vstd::set_lib::lemma_len_subset(sub.to_set(), sup.to_set());
}

/// A positive covering count yields a covering module.
proof fn lemma_count_covering_pos(
    paths: Seq<Seq<char>>,
    dv: Seq<DependencyLocationV>,
    deps: Seq<Seq<char>>,
)
    requires
        count_covering(paths, dv, deps) >= 1,
    ensures
        exists|a: int| 0 <= a < paths.len() && covers(dv, deps, #[trigger] paths[a]),
    decreases paths.len(),
{
    if covers(dv, deps, paths.last()) {
        assert(covers(dv, deps, paths[paths.len() - 1]));
    } else {
        lemma_count_covering_pos(paths.drop_last(), dv, deps);
        let a = choose|a: int|
            0 <= a < paths.drop_last().len() && covers(dv, deps, #[trigger] paths.drop_last()[a]);
        assert(covers(dv, deps, paths[a]));
    }
}

/// A covering count of two yields two distinct covering modules, in order.
proof fn lemma_count_covering_two(
    paths: Seq<Seq<char>>,
    dv: Seq<DependencyLocationV>,
    deps: Seq<Seq<char>>,
)
    requires
        count_covering(paths, dv, deps) >= 2,
    ensures
        exists|a: int, b: int|
            0 <= a < b < paths.len() && covers(dv, deps, #[trigger] paths[a]) && covers(
                dv,
                deps,
                #[trigger] paths[b],
            ),
    decreases paths.len(),
{
    if covers(dv, deps, paths.last()) {
        lemma_count_covering_pos(paths.drop_last(), dv, deps);
        let a = choose|a: int|
            0 <= a < paths.drop_last().len() && covers(dv, deps, #[trigger] paths.drop_last()[a]);
        assert(covers(dv, deps, paths[a]) && covers(dv, deps, paths[paths.len() - 1]));
    } else {
        lemma_count_covering_two(paths.drop_last(), dv, deps);
        let (a, b) = choose|a: int, b: int|
            0 <= a < b < paths.drop_last().len() && covers(
                dv,
                deps,
                #[trigger] paths.drop_last()[a],
            ) && covers(dv, deps, #[trigger] paths.drop_last()[b]);
        assert(covers(dv, deps, paths[a]) && covers(dv, deps, paths[b]));
    }
}

/// Some listed bundle recommends exactly this key list.
pub open spec fn has_bundle_with_deps(bs: Seq<DependencyBundleV>, deps: Seq<Seq<char>>) -> bool {
    exists|j: int| 0 <= j < bs.len() && (#[trigger] bs[j]).dependencies == deps
}

/// Every canonical subset of at least `min_size` keys drawn from both of
/// the pair's key sets and exhibited by at least `min_count` modules has a
/// registered bundle.
pub open spec fn pair_done(
    sv: Seq<(Seq<char>, Seq<Seq<char>>)>,
    dv: Seq<DependencyLocationV>,
    bs: Seq<DependencyBundleV>,
    p2: int,
    q2: int,
    min_size: int,
    min_count: int,
) -> bool {
    forall|s: Seq<Seq<char>>|
        (sorted_unique(s) && s.len() >= min_size && #[trigger] spec_is_subset(s, sv[p2].1)
            && spec_is_subset(s, sv[q2].1) && count_covering(set_paths(sv), dv, s) >= min_count)
            ==> has_bundle_with_deps(bs, s)
}

/// A key set the analysis must consider: canonical, large enough, and
/// declared together by enough modules.
pub open spec fn spec_bundle_candidate(
    dv: Seq<DependencyLocationV>,
    min_size: int,
    min_count: int,
    s: Seq<Seq<char>>,
) -> bool {
    sorted_unique(s) && s.len() >= min_size && spec_covering_count(dv, s) >= min_count
}

/// The bundle answers for the candidate `s`: its keys include `s`, and its
/// module list is exactly the modules exhibiting all of `s`.
pub open spec fn bundle_covers_candidate(
    dv: Seq<DependencyLocationV>,
    b: DependencyBundleV,
    s: Seq<Seq<char>>,
) -> bool {
    &&& spec_is_subset(s, b.dependencies)
    &&& forall|w: int| 0 <= w < b.modules.len() ==> covers(dv, s, #[trigger] b.modules[w])
    &&& forall|i: int|
        0 <= i < dv.len() ==> (covers(dv, s, (#[trigger] dv[i]).file_path) ==> b.modules.contains(
            dv[i].file_path,
        ))
}

fn clone_bundle(b: &DependencyBundle) -> (r: DependencyBundle)
    ensures
        r@ == b@,
{
    DependencyBundle {
        dependencies: clone_keys(&b.dependencies),
        modules: clone_keys(&b.modules),
        bundle_size: b.bundle_size,
        module_count: b.module_count,
        configurations: clone_keys(&b.configurations),
        priority_score: b.priority_score,
    }
}

// ---------------------------------------------------------------------------
// Ordering candidates
// ---------------------------------------------------------------------------

/// Reorders the bundles by size, largest first, repeatedly extracting a
/// largest remaining bundle.
fn sort_bundles_by_size_desc(input: Vec<DependencyBundle>) -> (r: Vec<DependencyBundle>)
    ensures
        ({
            let iv = input.deep_view();
            let rv = r.deep_view();
            &&& rv.len() == iv.len()
            &&& forall|a: int, b: int|
                0 <= a < b < rv.len() ==> (#[trigger] rv[a]).bundle_size
                    >= (#[trigger] rv[b]).bundle_size
            &&& forall|q: int| 0 <= q < rv.len() ==> iv.contains(#[trigger] rv[q])
            &&& forall|p: int| 0 <= p < iv.len() ==> rv.contains(#[trigger] iv[p])
        }),
{
    let ghost iv = input.deep_view();
    let mut rest = input;
    let mut out: Vec<DependencyBundle> = Vec::new();
    proof {
        assert(out.deep_view() =~= Seq::<DependencyBundleV>::empty());
    }
    while rest.len() > 0
        invariant
            out.deep_view().len() + rest.deep_view().len() == iv.len(),
            forall|a: int, b: int|
                0 <= a < b < out.deep_view().len() ==> (#[trigger] out.deep_view()[a]).bundle_size
                    >= (#[trigger] out.deep_view()[b]).bundle_size,
            forall|a: int, b: int|
                0 <= a < out.deep_view().len() && 0 <= b < rest.deep_view().len() ==> (
                #[trigger] out.deep_view()[a]).bundle_size
                    >= (#[trigger] rest.deep_view()[b]).bundle_size,
            forall|q: int| 0 <= q < out.deep_view().len() ==> iv.contains(
                #[trigger] out.deep_view()[q],
            ),
            forall|q: int| 0 <= q < rest.deep_view().len() ==> iv.contains(
                #[trigger] rest.deep_view()[q],
            ),
            forall|p: int|
                0 <= p < iv.len() ==> out.deep_view().contains(#[trigger] iv[p])
                    || rest.deep_view().contains(iv[p]),
        decreases rest.len(),
    {
        let ghost restv = rest.deep_view();
        let m = rest.len();
        let mut best: usize = 0;
        let mut j: usize = 1;
        while j < m
            invariant
                best < j <= m || (j <= m && best == 0),
                best < m,
                m == rest.len(),
                restv == rest.deep_view(),
                forall|w: int|
                    0 <= w < j ==> (#[trigger] restv[w]).bundle_size
                        <= restv[best as int].bundle_size,
            decreases m - j,
        {
            proof {
                assert(restv[j as int] == rest@[j as int].deep_view());
                assert(restv[best as int] == rest@[best as int].deep_view());
            }
            if rest[j].bundle_size > rest[best].bundle_size {
                best = j;
            }
            j = j + 1;
        }
        let ghost rseq_old = rest@;
        let b = rest.remove(best);
        let ghost bv = b@;
        proof {
            assert(bv == restv[best as int]);
            assert forall|w: int| 0 <= w < rest.deep_view().len() implies rest.deep_view()[w]
                == restv.remove(best as int)[w] by {
                assert(rest.deep_view()[w] == rest@[w].deep_view());
                if w < best {
                    assert(rest@[w] == rseq_old[w]);
                    assert(restv[w] == rseq_old[w].deep_view());
                } else {
                    assert(rest@[w] == rseq_old[w + 1]);
                    assert(restv[w + 1] == rseq_old[w + 1].deep_view());
                }
            }
            assert(rest.deep_view() =~= restv.remove(best as int));
        }
        let ghost out_prev = out@;
        let ghost out_prev_dv = out.deep_view();
        proof {
            assert(out_prev_dv.len() == out_prev.len());
        }
        out.push(b);
        proof {
            assert forall|w: int| 0 <= w < out@.len() implies out.deep_view()[w]
                == out_prev_dv.push(bv)[w] by {
                assert(out.deep_view()[w] == out@[w].deep_view());
                if w < out_prev.len() {
                    assert(out@[w] == out_prev[w]);
                    assert(out_prev_dv[w] == out_prev[w].deep_view());
                }
            }
            assert(out.deep_view() =~= out_prev_dv.push(bv));
            // every remaining bundle is at most the extracted maximum
            assert forall|w: int| 0 <= w < rest.deep_view().len() implies (
            #[trigger] rest.deep_view()[w]).bundle_size <= bv.bundle_size by {
                if w < best {
                    assert(rest.deep_view()[w] == restv[w]);
                } else {
                    assert(rest.deep_view()[w] == restv[w + 1]);
                }
            }
            // accounting
            assert forall|p: int| 0 <= p < iv.len() implies out.deep_view().contains(
                #[trigger] iv[p],
            ) || rest.deep_view().contains(iv[p]) by {
                if out_prev_dv.contains(iv[p]) {
                    let w = choose|w: int|
                        0 <= w < out_prev_dv.len() && out_prev_dv[w] == iv[p];
                    assert(out.deep_view()[w] == iv[p]);
                } else if restv.contains(iv[p]) {
                    let w = choose|w: int| 0 <= w < restv.len() && restv[w] == iv[p];
                    if w == best {
                        assert(out.deep_view()[out_prev.len() as int] == iv[p]);
                    } else if w < best {
                        assert(rest.deep_view()[w] == iv[p]);
                    } else {
                        assert(rest.deep_view()[w - 1] == iv[p]);
                    }
                }
            }
        }
    }
    proof {
        assert(rest.deep_view().len() == 0);
    }
    out
}

/// Reorders the bundles by priority score, highest first.
fn sort_bundles_by_score_desc(input: Vec<DependencyBundle>) -> (r: Vec<DependencyBundle>)
    ensures
        ({
            let iv = input.deep_view();
            let rv = r.deep_view();
            &&& rv.len() == iv.len()
            &&& forall|a: int, b: int|
                0 <= a < b < rv.len() ==> (#[trigger] rv[a]).priority_score
                    >= (#[trigger] rv[b]).priority_score
            &&& forall|q: int| 0 <= q < rv.len() ==> iv.contains(#[trigger] rv[q])
            &&& forall|p: int| 0 <= p < iv.len() ==> rv.contains(#[trigger] iv[p])
        }),
{
    let ghost iv = input.deep_view();
    let mut rest = input;
    let mut out: Vec<DependencyBundle> = Vec::new();
    proof {
        assert(out.deep_view() =~= Seq::<DependencyBundleV>::empty());
    }
    while rest.len() > 0
        invariant
            out.deep_view().len() + rest.deep_view().len() == iv.len(),
            forall|a: int, b: int|
                0 <= a < b < out.deep_view().len() ==> (
                #[trigger] out.deep_view()[a]).priority_score
                    >= (#[trigger] out.deep_view()[b]).priority_score,
            forall|a: int, b: int|
                0 <= a < out.deep_view().len() && 0 <= b < rest.deep_view().len() ==> (
                #[trigger] out.deep_view()[a]).priority_score
                    >= (#[trigger] rest.deep_view()[b]).priority_score,
            forall|q: int| 0 <= q < out.deep_view().len() ==> iv.contains(
                #[trigger] out.deep_view()[q],
            ),
            forall|q: int| 0 <= q < rest.deep_view().len() ==> iv.contains(
                #[trigger] rest.deep_view()[q],
            ),
            forall|p: int|
                0 <= p < iv.len() ==> out.deep_view().contains(#[trigger] iv[p])
                    || rest.deep_view().contains(iv[p]),
        decreases rest.len(),
    {
        let ghost restv = rest.deep_view();
        let m = rest.len();
        let mut best: usize = 0;
        let mut j: usize = 1;
        while j < m
            invariant
                best < j <= m || (j <= m && best == 0),
                best < m,
                m == rest.len(),
                restv == rest.deep_view(),
                forall|w: int|
                    0 <= w < j ==> (#[trigger] restv[w]).priority_score
                        <= restv[best as int].priority_score,
            decreases m - j,
        {
            proof {
                assert(restv[j as int] == rest@[j as int].deep_view());
                assert(restv[best as int] == rest@[best as int].deep_view());
            }
            if rest[j].priority_score > rest[best].priority_score {
                best = j;
            }
            j = j + 1;
        }
        let ghost rseq_old = rest@;
        let b = rest.remove(best);
        let ghost bv = b@;
        proof {
            assert(bv == restv[best as int]);
            assert forall|w: int| 0 <= w < rest.deep_view().len() implies rest.deep_view()[w]
                == restv.remove(best as int)[w] by {
                assert(rest.deep_view()[w] == rest@[w].deep_view());
                if w < best {
                    assert(rest@[w] == rseq_old[w]);
                    assert(restv[w] == rseq_old[w].deep_view());
                } else {
                    assert(rest@[w] == rseq_old[w + 1]);
                    assert(restv[w + 1] == rseq_old[w + 1].deep_view());
                }
            }
            assert(rest.deep_view() =~= restv.remove(best as int));
        }
        let ghost out_prev = out@;
        let ghost out_prev_dv = out.deep_view();
        proof {
            assert(out_prev_dv.len() == out_prev.len());
        }
        out.push(b);
        proof {
            assert forall|w: int| 0 <= w < out@.len() implies out.deep_view()[w]
                == out_prev_dv.push(bv)[w] by {
                assert(out.deep_view()[w] == out@[w].deep_view());
                if w < out_prev.len() {
                    assert(out@[w] == out_prev[w]);
                    assert(out_prev_dv[w] == out_prev[w].deep_view());
                }
            }
            assert(out.deep_view() =~= out_prev_dv.push(bv));
            assert forall|w: int| 0 <= w < rest.deep_view().len() implies (
            #[trigger] rest.deep_view()[w]).priority_score <= bv.priority_score by {
                if w < best {
                    assert(rest.deep_view()[w] == restv[w]);
                } else {
                    assert(rest.deep_view()[w] == restv[w + 1]);
                }
            }
            assert forall|p: int| 0 <= p < iv.len() implies out.deep_view().contains(
                #[trigger] iv[p],
            ) || rest.deep_view().contains(iv[p]) by {
                if out_prev_dv.contains(iv[p]) {
                    let w = choose|w: int|
                        0 <= w < out_prev_dv.len() && out_prev_dv[w] == iv[p];
                    assert(out.deep_view()[w] == iv[p]);
                } else if restv.contains(iv[p]) {
                    let w = choose|w: int| 0 <= w < restv.len() && restv[w] == iv[p];
                    if w == best {
                        assert(out.deep_view()[out_prev.len() as int] == iv[p]);
                    } else if w < best {
                        assert(rest.deep_view()[w] == iv[p]);
                    } else {
                        assert(rest.deep_view()[w - 1] == iv[p]);
                    }
                }
            }
        }
    }
    proof {
        assert(rest.deep_view().len() == 0);
    }
    out
}

// ---------------------------------------------------------------------------
// Redundancy elimination
// ---------------------------------------------------------------------------

/// Drops every candidate fully subsumed by a larger candidate serving the
/// identical module set; candidates with differing module sets never prune
/// one another. Every input bundle either survives or has a surviving
/// strict superset over the same modules.
fn remove_subset_bundles(bundles: Vec<DependencyBundle>) -> (r: Vec<DependencyBundle>)
    requires
        forall|p: int|
            0 <= p < bundles.deep_view().len() ==> (#[trigger] bundles.deep_view()[p]).bundle_size
                == bundles.deep_view()[p].dependencies.len(),
    ensures
        ({
            let iv = bundles.deep_view();
            let rv = r.deep_view();
            &&& forall|q: int| 0 <= q < rv.len() ==> iv.contains(#[trigger] rv[q])
            &&& forall|p: int, q: int|
                0 <= p < rv.len() && 0 <= q < rv.len() && p != q ==> !((#[trigger] rv[p]).modules
                    == (#[trigger] rv[q]).modules && strictly_within(rv[p], rv[q]))
            &&& forall|p: int|
                0 <= p < iv.len() ==> rv.contains(#[trigger] iv[p]) || exists|q: int|
                    0 <= q < rv.len() && (#[trigger] rv[q]).modules == iv[p].modules
                        && strictly_within(iv[p], rv[q])
        }),
{
    let ghost iv = bundles.deep_view();
    let sorted = sort_bundles_by_size_desc(bundles);
    let ghost sv = sorted.deep_view();
    proof {
        assert forall|p: int| 0 <= p < sv.len() implies (#[trigger] sv[p]).bundle_size
            == sv[p].dependencies.len() by {
            assert(iv.contains(sv[p]));
        }
    }
    let n = sorted.len();
    let mut out: Vec<DependencyBundle> = Vec::new();
    let mut i: usize = 0;
    while i < n
        invariant
            i <= n,
            n == sorted.len(),
            sv == sorted.deep_view(),
            forall|p: int| 0 <= p < sv.len() ==> iv.contains(#[trigger] sv[p]),
            forall|p: int|
                0 <= p < sv.len() ==> (#[trigger] sv[p]).bundle_size == sv[p].dependencies.len(),
            forall|a: int, b: int|
                0 <= a < b < sv.len() ==> (#[trigger] sv[a]).bundle_size
                    >= (#[trigger] sv[b]).bundle_size,
            forall|q: int| 0 <= q < out.deep_view().len() ==> exists|p: int|
                0 <= p < i && (#[trigger] out.deep_view()[q]) == sv[p],
            forall|p: int, q: int|
                0 <= p < out.deep_view().len() && 0 <= q < out.deep_view().len() && p != q ==> !((
                #[trigger] out.deep_view()[p]).modules == (#[trigger] out.deep_view()[q]).modules
                    && strictly_within(out.deep_view()[p], out.deep_view()[q])),
            forall|p: int|
                0 <= p < i ==> out.deep_view().contains(#[trigger] sv[p]) || exists|q: int|
                    0 <= q < out.deep_view().len() && (#[trigger] out.deep_view()[q]).modules
                        == sv[p].modules && strictly_within(sv[p], out.deep_view()[q]),
        decreases n - i,
    {
        proof {
            assert(sv[i as int] == sorted@[i as int].deep_view());
        }
        let ghost ov = out.deep_view();
        // is the candidate subsumed by anything already retained?
        let m = out.len();
        let mut subsumed: usize = m;
        let mut w: usize = 0;
        while w < m
            invariant
                w <= m,
                subsumed <= m,
                m == out.len(),
                ov == out.deep_view(),
                sv == sorted.deep_view(),
                i < n,
                n == sorted.len(),
                subsumed == m ==> forall|q: int|
                    0 <= q < w ==> !((#[trigger] ov[q]).modules == sv[i as int].modules
                        && strictly_within(sv[i as int], ov[q])),
                subsumed < m ==> ov[subsumed as int].modules == sv[i as int].modules
                    && strictly_within(sv[i as int], ov[subsumed as int]),
            decreases m - w,
        {
            proof {
                assert(ov[w as int] == out@[w as int].deep_view());
            }
            if subsumed == m && vec_str_eq(&out[w].modules, &sorted[i].modules) && is_subset(
                &sorted[i].dependencies,
                &out[w].dependencies,
            ) && sorted[i].dependencies.len() < out[w].dependencies.len() {
                subsumed = w;
            }
            w = w + 1;
        }
        if subsumed == m {
            let b = clone_bundle(&sorted[i]);
            let ghost bv = b@;
            let ghost prev = out@;
            let ghost prev_dv = out.deep_view();
            proof {
                assert(bv == sv[i as int]);
                assert(prev_dv.len() == prev.len());
            }
            out.push(b);
            proof {
                assert forall|u: int| 0 <= u < out@.len() implies out.deep_view()[u]
                    == prev_dv.push(bv)[u] by {
                    assert(out.deep_view()[u] == out@[u].deep_view());
                    if u < prev.len() {
                        assert(out@[u] == prev[u]);
                        assert(prev_dv[u] == prev[u].deep_view());
                    }
                }
                assert(out.deep_view() =~= prev_dv.push(bv));
                // the retained set stays free of subsumption pairs
                assert forall|p: int, q: int|
                    0 <= p < out.deep_view().len() && 0 <= q < out.deep_view().len() && p
                        != q implies !((#[trigger] out.deep_view()[p]).modules == (
                #[trigger] out.deep_view()[q]).modules && strictly_within(
                    out.deep_view()[p],
                    out.deep_view()[q],
                )) by {
                    let dv2 = out.deep_view();
                    if q == prev.len() {
                        // an earlier element cannot hide inside the smaller newcomer
                        if p < prev.len() {
                            let p0 = choose|p0: int|
                                0 <= p0 < i && (#[trigger] prev_dv[p]) == sv[p0];
                            assert(sv[p0].bundle_size >= sv[i as int].bundle_size);
                            if strictly_within(dv2[p], dv2[q]) {
                                assert(dv2[p].dependencies.len() < dv2[q].dependencies.len());
                                assert(false);
                            }
                        }
                    } else if p == prev.len() {
                        // the newcomer was checked against every retained bundle
                        assert(!((#[trigger] prev_dv[q]).modules == sv[i as int].modules
                            && strictly_within(sv[i as int], prev_dv[q])));
                        assert(dv2[q] == prev_dv[q]);
                    } else {
                        assert(dv2[p] == prev_dv[p] && dv2[q] == prev_dv[q]);
                    }
                }
                // earlier decisions stay accounted for
                assert forall|p: int| 0 <= p < i + 1 implies out.deep_view().contains(
                    #[trigger] sv[p],
                ) || exists|q: int|
                    0 <= q < out.deep_view().len() && (#[trigger] out.deep_view()[q]).modules
                        == sv[p].modules && strictly_within(sv[p], out.deep_view()[q]) by {
                    if p == i {
                        assert(out.deep_view()[prev.len() as int] == sv[p]);
                    } else if prev_dv.contains(sv[p]) {
                        let u = choose|u: int| 0 <= u < prev_dv.len() && prev_dv[u] == sv[p];
                        assert(out.deep_view()[u] == sv[p]);
                    } else {
                        let q0 = choose|q0: int|
                            0 <= q0 < prev_dv.len() && (#[trigger] prev_dv[q0]).modules
                                == sv[p].modules && strictly_within(sv[p], prev_dv[q0]);
                        assert(out.deep_view()[q0] == prev_dv[q0]);
                    }
                }
            }
        } else {
            proof {
                assert forall|p: int| 0 <= p < i + 1 implies out.deep_view().contains(
                    #[trigger] sv[p],
                ) || exists|q: int|
                    0 <= q < out.deep_view().len() && (#[trigger] out.deep_view()[q]).modules
                        == sv[p].modules && strictly_within(sv[p], out.deep_view()[q]) by {
                    if p == i {
                        assert(ov[subsumed as int].modules == sv[i as int].modules
                            && strictly_within(sv[i as int], ov[subsumed as int]));
                    }
                }
            }
        }
        i = i + 1;
    }
    proof {
        // everything the caller handed in is accounted for
        assert forall|p: int| 0 <= p < iv.len() implies out.deep_view().contains(
            #[trigger] iv[p],
        ) || exists|q: int|
            0 <= q < out.deep_view().len() && (#[trigger] out.deep_view()[q]).modules
                == iv[p].modules && strictly_within(iv[p], out.deep_view()[q]) by {
            assert(sv.contains(iv[p]));
            let w = choose|w: int| 0 <= w < sv.len() && sv[w] == iv[p];
        }
        assert forall|q: int| 0 <= q < out.deep_view().len() implies iv.contains(
            #[trigger] out.deep_view()[q],
        ) by {
            let p = choose|p: int| 0 <= p < i && (#[trigger] out.deep_view()[q]) == sv[p];
            assert(iv.contains(sv[p]));
        }
    }
    out
}

// ---------------------------------------------------------------------------
// The recommendation pipeline
// ---------------------------------------------------------------------------

/// Discovers, scores, prunes and ranks dependency bundles: for every pair of
/// modules sharing at least `min_bundle_size` dependencies, every large
/// enough subset of the shared keys is matched against all modules; subsets
/// exhibited by at least `min_module_count` modules become candidates, a
/// candidate fully subsumed by a larger one over the identical module set is
/// dropped, and the survivors are ranked by priority score.
pub fn find_dependency_bundles(
    dependencies: &Vec<DependencyLocation>,
    min_bundle_size: usize,
    min_module_count: usize,
) -> (r: BundleAnalysis)
    requires
        min_bundle_size >= 2,
        min_module_count >= 2,
    ensures
        ({
            let dv = dependencies.deep_view();
            let out = r@.recommended_bundles;
            &&& forall|j: int|
                0 <= j < out.len() ==> bundle_wf(
                    dv,
                    min_bundle_size as int,
                    min_module_count as int,
                    #[trigger] out[j],
                )
            &&& forall|p: int, q: int|
                0 <= p < out.len() && 0 <= q < out.len() && p != q ==> !(same_module_set(
                    (#[trigger] out[p]).modules,
                    (#[trigger] out[q]).modules,
                ) && strictly_within(out[p], out[q]))
            &&& forall|p: int, q: int|
                0 <= p < q < out.len() ==> (#[trigger] out[p]).priority_score >= (
                #[trigger] out[q]).priority_score
            &&& r@.total_bundles_found == out.len()
            &&& forall|s: Seq<Seq<char>>| #[trigger] spec_bundle_candidate(
                dv,
                min_bundle_size as int,
                min_module_count as int,
                s,
            ) ==> exists|j: int|
                0 <= j < out.len() && bundle_covers_candidate(dv, #[trigger] out[j], s)
        }),
{
    let ghost dv = dependencies.deep_view();
    let sets = collect_module_sets(dependencies);
    let ghost sv = sets.deep_view();
    proof {
        assert(set_paths(sv) =~= spec_module_paths(dv));
    }
    let nsets = sets.len();
    let mut bundles: Vec<DependencyBundle> = Vec::new();
    let mut p: usize = 0;
    while p < nsets
        invariant
            p <= nsets,
            nsets == sets.len(),
            dv == dependencies.deep_view(),
            sv == sets.deep_view(),
            module_sets_wf(dv, sv),
            set_paths(sv) == spec_module_paths(dv),
            min_bundle_size >= 2,
            min_module_count >= 2,
            forall|j: int|
                0 <= j < bundles.deep_view().len() ==> bundle_wf(
                    dv,
                    min_bundle_size as int,
                    min_module_count as int,
                    #[trigger] bundles.deep_view()[j],
                ),
            forall|p2: int, q2: int|
                0 <= p2 < q2 < sv.len() && p2 < p ==> #[trigger] pair_done(
                    sv,
                    dv,
                    bundles.deep_view(),
                    p2,
                    q2,
                    min_bundle_size as int,
                    min_module_count as int,
                ),
        decreases nsets - p,
    {
        let mut q: usize = p + 1;
        while q < nsets
            invariant
                p < q <= nsets || (q <= nsets && q == p + 1),
                p < nsets,
                q >= p + 1,
                nsets == sets.len(),
                dv == dependencies.deep_view(),
                sv == sets.deep_view(),
                module_sets_wf(dv, sv),
                set_paths(sv) == spec_module_paths(dv),
                min_bundle_size >= 2,
                min_module_count >= 2,
                forall|j: int|
                    0 <= j < bundles.deep_view().len() ==> bundle_wf(
                        dv,
                        min_bundle_size as int,
                        min_module_count as int,
                        #[trigger] bundles.deep_view()[j],
                    ),
                forall|p2: int, q2: int|
                    0 <= p2 < q2 < sv.len() && (p2 < p || (p2 == p && q2 < q)) ==> #[trigger] pair_done(
                        sv,
                        dv,
                        bundles.deep_view(),
                        p2,
                        q2,
                        min_bundle_size as int,
                        min_module_count as int,
                    ),
            decreases nsets - q,
        {
            proof {
                assert(sv[p as int] == sets@[p as int].deep_view());
                assert(sv[q as int] == sets@[q as int].deep_view());
                assert(sorted_unique(sv[p as int].1));
                assert forall|a: int, b: int|
                    0 <= a < b < sv[p as int].1.len() implies #[trigger] sv[p as int].1[a]
                        != #[trigger] sv[p as int].1[b] by {
                    assert(lex_lt(sv[p as int].1[a], sv[p as int].1[b]));
                }
            }
            let inter_raw = intersect(&sets[p].1, &sets[q].1);
            let ghost irv = inter_raw.deep_view();
            if inter_raw.len() >= min_bundle_size {
                let inter = sort_keys(&inter_raw);
                let ghost interv = inter.deep_view();
                proof {
                    lemma_all_subseqs_props(interv);
                    lemma_keep_large_elems(all_subseqs(interv), min_bundle_size as int);
                    // every intersection key is a declared key
                    assert forall|k: Seq<char>| #[trigger] interv.contains(k) implies key_declared(
                        dv,
                        k,
                    ) by {
                        assert(inter_raw.deep_view().contains(k));
                        assert(sv[p as int].1.contains(k));
                        assert(module_has_key(dv, sv[p as int].0, k));
                        let w = choose|w: int|
                            0 <= w < dv.len() && (#[trigger] dv[w]).file_path == sv[p as int].0
                                && key_of(dv[w]) == k;
                    }
                }
                let subsets = generate_subsets(&inter, min_bundle_size);
                let ghost subv = subsets.deep_view();
                let nsubs = subsets.len();
                let mut s: usize = 0;
                while s < nsubs
                    invariant
                        s <= nsubs,
                        nsubs == subsets.len(),
                        dv == dependencies.deep_view(),
                        sv == sets.deep_view(),
                        subv == subsets.deep_view(),
                        interv == inter.deep_view(),
                        module_sets_wf(dv, sv),
                        set_paths(sv) == spec_module_paths(dv),
                        min_bundle_size >= 2,
                        min_module_count >= 2,
                        subv == spec_generate_subsets(interv, min_bundle_size as int),
                        forall|u: int|
                            0 <= u < all_subseqs(interv).len() ==> sorted_unique(
                                #[trigger] all_subseqs(interv)[u],
                            ) && spec_is_subset(all_subseqs(interv)[u], interv),
                        forall|u: int|
                            0 <= u < subv.len() ==> (#[trigger] subv[u]).len()
                                >= min_bundle_size && all_subseqs(interv).contains(subv[u]),
                        forall|k: Seq<char>| #[trigger]
                            interv.contains(k) ==> key_declared(dv, k),
                        forall|j: int|
                            0 <= j < bundles.deep_view().len() ==> bundle_wf(
                                dv,
                                min_bundle_size as int,
                                min_module_count as int,
                                #[trigger] bundles.deep_view()[j],
                            ),
                        p < q < nsets,
                        sorted_unique(interv),
                        forall|k: Seq<char>| #[trigger]
                            interv.contains(k) == irv.contains(k),
                        forall|k: Seq<char>| #[trigger]
                            irv.contains(k) == (sv[p as int].1.contains(k)
                                && sv[q as int].1.contains(k)),
                        forall|p2: int, q2: int|
                            0 <= p2 < q2 < sv.len() && (p2 < p || (p2 == p && q2 < q))
                                ==> #[trigger] pair_done(
                                sv,
                                dv,
                                bundles.deep_view(),
                                p2,
                                q2,
                                min_bundle_size as int,
                                min_module_count as int,
                            ),
                        forall|u: int|
                            0 <= u < s ==> (count_covering(set_paths(sv), dv, #[trigger] subv[u])
                                >= min_module_count ==> has_bundle_with_deps(
                                bundles.deep_view(),
                                subv[u],
                            )),
                    decreases nsubs - s,
                {
                    proof {
                        assert(subv[s as int] == subsets@[s as int].deep_view());
                        let si = s as int;
                        let u = choose|u: int|
                            0 <= u < all_subseqs(interv).len() && all_subseqs(interv)[u]
                                == subv[si];
                        assert(sorted_unique(subv[s as int]));
                        assert(spec_is_subset(subv[s as int], interv));
                    }
                    // already registered under the same canonical key list?
                    let ghost bv0 = bundles.deep_view();
                    let nb = bundles.len();
                    let mut registered = false;
                    let mut w: usize = 0;
                    while w < nb
                        invariant
                            w <= nb,
                            nb == bundles.len(),
                            bv0 == bundles.deep_view(),
                            subv == subsets.deep_view(),
                            s < nsubs,
                            nsubs == subsets.len(),
                            registered ==> has_bundle_with_deps(bv0, subv[s as int]),
                        decreases nb - w,
                    {
                        proof {
                            assert(bv0[w as int] == bundles@[w as int].deep_view());
                            assert(bv0[w as int].dependencies
                                == bundles@[w as int].dependencies.deep_view());
                            assert(subv[s as int] == subsets@[s as int].deep_view());
                        }
                        if vec_str_eq(&bundles[w].dependencies, &subsets[s]) {
                            proof {
                                assert(bv0[w as int].dependencies == subv[s as int]);
                            }
                            registered = true;
                        }
                        w = w + 1;
                    }
                    if !registered {
                        let mods = modules_covering(&subsets[s], &sets, dependencies);
                        if mods.len() >= min_module_count {
                            let deps_clone = clone_keys(&subsets[s]);
                            let configs = get_configurations_for_bundle(&deps_clone, dependencies);
                            let score = priority_score(deps_clone.len(), mods.len(), &configs);
                            let bundle = DependencyBundle {
                                bundle_size: deps_clone.len(),
                                module_count: mods.len(),
                                dependencies: deps_clone,
                                modules: mods,
                                configurations: configs,
                                priority_score: score,
                            };
                            let ghost bw = bundle@;
                            proof {
                                assert(bw.dependencies == subv[s as int]);
                                assert(set_paths(sv) =~= spec_module_paths(dv));
                                assert(bundle_wf(
                                    dv,
                                    min_bundle_size as int,
                                    min_module_count as int,
                                    bw,
                                )) by {
                                    assert forall|j: int|
                                        0 <= j < bw.dependencies.len() implies key_declared(
                                        dv,
                                        #[trigger] bw.dependencies[j],
                                    ) by {
                                        assert(interv.contains(bw.dependencies[j]));
                                    }
                                    assert(bw.modules == covering_paths(
                                        spec_module_paths(dv),
                                        dv,
                                        bw.dependencies,
                                    ));
                                }
                            }
                            let ghost prev = bundles@;
                            let ghost prev_dv = bundles.deep_view();
                            proof {
                                assert(prev_dv.len() == prev.len());
                            }
                            bundles.push(bundle);
                            proof {
                                assert forall|u: int| 0 <= u < bundles@.len() implies
                                    bundles.deep_view()[u] == prev_dv.push(bw)[u] by {
                                    assert(bundles.deep_view()[u] == bundles@[u].deep_view());
                                    if u < prev.len() {
                                        assert(bundles@[u] == prev[u]);
                                        assert(prev_dv[u] == prev[u].deep_view());
                                    }
                                }
                                assert(bundles.deep_view() =~= prev_dv.push(bw));
                                // registration is never lost by growing the list
                                assert forall|dps: Seq<Seq<char>>| #[trigger] has_bundle_with_deps(
                                    prev_dv,
                                    dps,
                                ) implies has_bundle_with_deps(bundles.deep_view(), dps) by {
                                    let j = choose|j: int|
                                        0 <= j < prev_dv.len() && (#[trigger] prev_dv[
                                            j
                                        ]).dependencies == dps;
                                    assert(bundles.deep_view()[j].dependencies == dps);
                                }
                                assert forall|p2: int, q2: int|
                                    0 <= p2 < q2 < sv.len() && (p2 < p || (p2 == p && q2
                                        < q)) implies #[trigger] pair_done(
                                    sv,
                                    dv,
                                    bundles.deep_view(),
                                    p2,
                                    q2,
                                    min_bundle_size as int,
                                    min_module_count as int,
                                ) by {
                                    assert(pair_done(
                                        sv,
                                        dv,
                                        prev_dv,
                                        p2,
                                        q2,
                                        min_bundle_size as int,
                                        min_module_count as int,
                                    ));
                                    assert forall|s2: Seq<Seq<char>>|
                                        (sorted_unique(s2) && s2.len() >= min_bundle_size
                                            && #[trigger] spec_is_subset(s2, sv[p2].1)
                                            && spec_is_subset(s2, sv[q2].1) && count_covering(
                                            set_paths(sv),
                                            dv,
                                            s2,
                                        ) >= min_module_count) implies has_bundle_with_deps(
                                        bundles.deep_view(),
                                        s2,
                                    ) by {
                                        assert(has_bundle_with_deps(prev_dv, s2));
                                    }
                                }
                                assert(has_bundle_with_deps(bundles.deep_view(), subv[s as int]))
                                    by {
                                    assert(bundles.deep_view()[prev.len() as int].dependencies
                                        == subv[s as int]);
                                }
                            }
                        }
                    }
                    s = s + 1;
                }
                proof {
                    // every qualifying subset of this pair's shared keys is
                    // now registered
                    assert forall|s2: Seq<Seq<char>>|
                        (sorted_unique(s2) && s2.len() >= min_bundle_size
                            && #[trigger] spec_is_subset(s2, sv[p as int].1) && spec_is_subset(
                            s2,
                            sv[q as int].1,
                        ) && count_covering(set_paths(sv), dv, s2)
                            >= min_module_count) implies has_bundle_with_deps(
                        bundles.deep_view(),
                        s2,
                    ) by {
                        assert forall|w2: int| 0 <= w2 < s2.len() implies interv.contains(
                            #[trigger] s2[w2],
                        ) by {
                            assert(sv[p as int].1.contains(s2[w2]));
                            assert(sv[q as int].1.contains(s2[w2]));
                            assert(irv.contains(s2[w2]));
                        }
                        lemma_subseqs_complete(s2, interv);
                        lemma_keep_large_complete(all_subseqs(interv), min_bundle_size as int, s2);
                        assert(subv.contains(s2));
                        let u = choose|u: int| 0 <= u < subv.len() && subv[u] == s2;
                        assert(count_covering(set_paths(sv), dv, subv[u]) >= min_module_count);
                        assert(has_bundle_with_deps(bundles.deep_view(), subv[u]));
                    }
                    assert(pair_done(
                        sv,
                        dv,
                        bundles.deep_view(),
                        p as int,
                        q as int,
                        min_bundle_size as int,
                        min_module_count as int,
                    ));
                }
            } else {
                proof {
                    // shared keys are too few for any qualifying subset
                    assert forall|s2: Seq<Seq<char>>|
                        (sorted_unique(s2) && s2.len() >= min_bundle_size
                            && #[trigger] spec_is_subset(s2, sv[p as int].1) && spec_is_subset(
                            s2,
                            sv[q as int].1,
                        ) && count_covering(set_paths(sv), dv, s2)
                            >= min_module_count) implies has_bundle_with_deps(
                        bundles.deep_view(),
                        s2,
                    ) by {
                        assert forall|w2: int| 0 <= w2 < s2.len() implies irv.contains(
                            #[trigger] s2[w2],
                        ) by {
                            assert(sv[p as int].1.contains(s2[w2]));
                            assert(sv[q as int].1.contains(s2[w2]));
                        }
                        lemma_sorted_unique_no_duplicates(s2);
                        lemma_subset_len(s2, irv);
                        assert(false);
                    }
                    assert(pair_done(
                        sv,
                        dv,
                        bundles.deep_view(),
                        p as int,
                        q as int,
                        min_bundle_size as int,
                        min_module_count as int,
                    ));
                }
            }
            proof {
                assert forall|p2: int, q2: int|
                    0 <= p2 < q2 < sv.len() && (p2 < p || (p2 == p && q2 < q + 1))
                        implies #[trigger] pair_done(
                    sv,
                    dv,
                    bundles.deep_view(),
                    p2,
                    q2,
                    min_bundle_size as int,
                    min_module_count as int,
                ) by {
                    if p2 == p && q2 == q {
                    } else {
                        assert(pair_done(
                            sv,
                            dv,
                            bundles.deep_view(),
                            p2,
                            q2,
                            min_bundle_size as int,
                            min_module_count as int,
                        ));
                    }
                }
            }
            q = q + 1;
        }
        proof {
            assert forall|p2: int, q2: int|
                0 <= p2 < q2 < sv.len() && p2 < p + 1 implies #[trigger] pair_done(
                sv,
                dv,
                bundles.deep_view(),
                p2,
                q2,
                min_bundle_size as int,
                min_module_count as int,
            ) by {
                assert(p2 < p || (p2 == p && q2 < q));
            }
        }
        p = p + 1;
    }
    // prune candidates subsumed over identical module sets
    let ghost cand = bundles.deep_view();
    let filtered = remove_subset_bundles(bundles);
    let ghost fv = filtered.deep_view();
    // rank what survived
    let ranked = sort_bundles_by_score_desc(filtered);
    let ghost rv = ranked.deep_view();
    let total = ranked.len();
    proof {
        assert forall|j: int| 0 <= j < rv.len() implies bundle_wf(
            dv,
            min_bundle_size as int,
            min_module_count as int,
            #[trigger] rv[j],
        ) by {
            assert(fv.contains(rv[j]));
            let a = choose|a: int| 0 <= a < fv.len() && fv[a] == rv[j];
            assert(cand.contains(fv[a]));
            let c = choose|c: int| 0 <= c < cand.len() && cand[c] == fv[a];
        }
        assert forall|p2: int, q2: int|
            0 <= p2 < rv.len() && 0 <= q2 < rv.len() && p2 != q2 implies !(same_module_set(
            (#[trigger] rv[p2]).modules,
            (#[trigger] rv[q2]).modules,
        ) && strictly_within(rv[p2], rv[q2])) by {
            if same_module_set(rv[p2].modules, rv[q2].modules) && strictly_within(rv[p2], rv[q2]) {
                // both module lists are pinned to first-occurrence order, so
                // spelling the same set makes them the same list
                let paths = spec_module_paths(dv);
                assert(bundle_wf(dv, min_bundle_size as int, min_module_count as int, rv[p2]));
                assert(bundle_wf(dv, min_bundle_size as int, min_module_count as int, rv[q2]));
                assert forall|i: int| 0 <= i < paths.len() implies covers(
                    dv,
                    rv[p2].dependencies,
                    #[trigger] paths[i],
                ) == covers(dv, rv[q2].dependencies, paths[i]) by {
                    lemma_covering_paths_membership(paths, dv, rv[p2].dependencies, paths[i]);
                    lemma_covering_paths_membership(paths, dv, rv[q2].dependencies, paths[i]);
                    assert(paths.contains(paths[i]));
                    assert(rv[p2].modules.contains(paths[i]) == rv[q2].modules.contains(paths[i]));
                }
                lemma_covering_paths_congruent(paths, dv, rv[p2].dependencies, rv[q2].dependencies);
                assert(rv[p2].modules == rv[q2].modules);
                // ... which the pruned list never pairs with strict containment
                assert(fv.contains(rv[p2]));
                assert(fv.contains(rv[q2]));
                let a = choose|a: int| 0 <= a < fv.len() && fv[a] == rv[p2];
                let b = choose|b: int| 0 <= b < fv.len() && fv[b] == rv[q2];
                if a == b {
                    assert(false);
                } else {
                    assert(!((fv[a]).modules == (fv[b]).modules && strictly_within(fv[a], fv[b])));
                    assert(false);
                }
            }
        }
        // completeness: every qualifying candidate is answered for by a
        // ranked bundle
        assert forall|s2: Seq<Seq<char>>| #[trigger] spec_bundle_candidate(
            dv,
            min_bundle_size as int,
            min_module_count as int,
            s2,
        ) implies exists|j: int|
            0 <= j < rv.len() && bundle_covers_candidate(dv, #[trigger] rv[j], s2) by {
            // the per-module key sets spell exactly the module paths
            assert(set_paths(sv) =~= spec_module_paths(dv));
            lemma_count_covering_two(set_paths(sv), dv, s2);
            let (pa, pb) = choose|pa: int, pb: int|
                0 <= pa < pb < set_paths(sv).len() && covers(
                    dv,
                    s2,
                    #[trigger] set_paths(sv)[pa],
                ) && covers(dv, s2, #[trigger] set_paths(sv)[pb]);
            assert(set_paths(sv)[pa] == sv[pa].0);
            assert(set_paths(sv)[pb] == sv[pb].0);
            assert(spec_is_subset(s2, sv[pa].1)) by {
                assert forall|w2: int| 0 <= w2 < s2.len() implies sv[pa].1.contains(
                    #[trigger] s2[w2],
                ) by {
                    assert(module_has_key(dv, sv[pa].0, s2[w2]));
                }
            }
            assert(spec_is_subset(s2, sv[pb].1)) by {
                assert forall|w2: int| 0 <= w2 < s2.len() implies sv[pb].1.contains(
                    #[trigger] s2[w2],
                ) by {
                    assert(module_has_key(dv, sv[pb].0, s2[w2]));
                }
            }
            assert(pair_done(
                sv,
                dv,
                cand,
                pa,
                pb,
                min_bundle_size as int,
                min_module_count as int,
            ));
            assert(has_bundle_with_deps(cand, s2));
            let c = choose|c: int| 0 <= c < cand.len() && (#[trigger] cand[c]).dependencies == s2;
            assert(bundle_wf(dv, min_bundle_size as int, min_module_count as int, cand[c]));
            // the candidate survives pruning, or a strict superset over the
            // same modules does; either answers for s2
            let b2 = if fv.contains(cand[c]) {
                cand[c]
            } else {
                let w = choose|w: int|
                    0 <= w < fv.len() && (#[trigger] fv[w]).modules == cand[c].modules
                        && strictly_within(cand[c], fv[w]);
                fv[w]
            };
            assert(fv.contains(b2));
            assert(spec_is_subset(s2, b2.dependencies)) by {
                if b2 == cand[c] {
                    assert forall|w2: int| 0 <= w2 < s2.len() implies b2.dependencies.contains(
                        #[trigger] s2[w2],
                    ) by {
                        assert(b2.dependencies[w2] == s2[w2]);
                    }
                } else {
                    assert(spec_is_subset(cand[c].dependencies, b2.dependencies));
                    assert forall|w2: int| 0 <= w2 < s2.len() implies b2.dependencies.contains(
                        #[trigger] s2[w2],
                    ) by {
                        assert(cand[c].dependencies[w2] == s2[w2]);
                        assert(b2.dependencies.contains(cand[c].dependencies[w2]));
                    }
                }
            }
            assert(b2.modules == cand[c].modules);
            assert(bundle_covers_candidate(dv, b2, s2)) by {
                assert forall|w2: int| 0 <= w2 < b2.modules.len() implies covers(
                    dv,
                    s2,
                    #[trigger] b2.modules[w2],
                ) by {
                    assert(covers(dv, cand[c].dependencies, cand[c].modules[w2]));
                    assert forall|u2: int| 0 <= u2 < s2.len() implies module_has_key(
                        dv,
                        b2.modules[w2],
                        #[trigger] s2[u2],
                    ) by {
                        assert(cand[c].dependencies[u2] == s2[u2]);
                        assert(module_has_key(dv, cand[c].modules[w2], cand[c].dependencies[u2]));
                    }
                }
                assert forall|i2: int| 0 <= i2 < dv.len() implies (covers(
                    dv,
                    s2,
                    (#[trigger] dv[i2]).file_path,
                ) ==> b2.modules.contains(dv[i2].file_path)) by {
                    if covers(dv, s2, dv[i2].file_path) {
                        assert(covers(dv, cand[c].dependencies, dv[i2].file_path)) by {
                            assert forall|u2: int|
                                0 <= u2 < cand[c].dependencies.len() implies module_has_key(
                                dv,
                                dv[i2].file_path,
                                #[trigger] cand[c].dependencies[u2],
                            ) by {
                                assert(cand[c].dependencies[u2] == s2[u2]);
                                assert(module_has_key(dv, dv[i2].file_path, s2[u2]));
                            }
                        }
                        assert(cand[c].modules.contains(dv[i2].file_path));
                    }
                }
            }
            let j = choose|j: int| 0 <= j < rv.len() && #[trigger] rv[j] == b2;
            assert(bundle_covers_candidate(dv, rv[j], s2));
        }
    }
    BundleAnalysis { recommended_bundles: ranked, total_bundles_found: total }
}

} // verus!
