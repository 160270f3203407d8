//! The back-reference analyzer.
//!
//! Walking the aggregated hierarchy bottom-up, the analyzer maps every
//! referenced asset to the set of assets that reference it: a leaf
//! contributes itself as the referrer of each of its direct references,
//! and an inner node union-merges its children's maps key by key. Union
//! is commutative and associative, so the merged map does not depend on
//! the order children results arrive in.

use vstd::prelude::*;
use crate::graph::AssetGraph;
use crate::graph::AggregatedGraphNode;
use crate::util::copy_usize_vec;
use crate::util::usize_vec_contains;

verus! {

/// One row of a back-reference map: the referenced asset and the assets
/// referencing it.
#[derive(Debug, Clone, PartialEq, Eq)]
pub struct ReferencesEntry {
    pub asset: usize,
    pub referrers: Vec<usize>,
}

/// A back-reference map: referenced asset to its set of referrers.
#[derive(Debug, Clone, PartialEq, Eq)]
pub struct ReferencesList {
    pub entries: Vec<ReferencesEntry>,
}

/// Rows keyed by pairwise distinct assets, each holding a duplicate-free
/// referrer set.
pub open spec fn wf_entries(s: Seq<ReferencesEntry>) -> bool {
    &&& forall|i: int, j: int| 0 <= i < j < s.len() ==> s[i].asset != s[j].asset
    &&& forall|i: int| 0 <= i < s.len() ==> (#[trigger] s[i]).referrers@.no_duplicates()
}

/// The map holds a row for `t`.
pub open spec fn has_key(s: Seq<ReferencesEntry>, t: usize) -> bool {
    exists|i: int| 0 <= i < s.len() && (#[trigger] s[i]).asset == t
}

/// The map records `x` as a referrer of `t`.
pub open spec fn is_referrer(s: Seq<ReferencesEntry>, t: usize, x: usize) -> bool {
    exists|i: int|
        0 <= i < s.len() && (#[trigger] s[i]).asset == t && s[i].referrers@.contains(x)
}

impl ReferencesList {
    /// The map's invariant.
    pub open spec fn wf(self) -> bool {
        wf_entries(self.entries@)
    }
}

/// The row index holding `t`, if any.
fn find_key(entries: &Vec<ReferencesEntry>, t: usize) -> (r: Option<usize>)
    ensures
        match r {
            Some(i) => i < entries@.len() && entries@[i as int].asset == t,
            None => !has_key(entries@, t),
        },
{
    let mut i: usize = 0;
    while i < entries.len()
        invariant
            i <= entries.len(),
            forall|j: int| 0 <= j < i ==> (#[trigger] entries@[j]).asset != t,
        decreases entries.len() - i,
    {
        if entries[i].asset == t {
            return Some(i);
        }
        i = i + 1;
    }
    None
}

/// An independently owned row with the same key and referrers.
fn copy_entry(e: &ReferencesEntry) -> (r: ReferencesEntry)
    ensures
        r.asset == e.asset,
        r.referrers@ == e.referrers@,
{
    ReferencesEntry { asset: e.asset, referrers: copy_usize_vec(&e.referrers) }
}

/// The union of two duplicate-free referrer sets.
fn union_referrers(a: &Vec<usize>, b: &Vec<usize>) -> (r: Vec<usize>)
    requires
        a@.no_duplicates(),
    ensures
        r@.no_duplicates(),
        forall|x: usize| r@.contains(x) <==> a@.contains(x) || b@.contains(x),
{
    broadcast use vstd::seq_lib::group_seq_properties;

    let mut r = copy_usize_vec(a);
    let mut j: usize = 0;
    while j < b.len()
        invariant
            j <= b.len(),
            r@.no_duplicates(),
            forall|x: usize|
                r@.contains(x) <==> a@.contains(x) || b@.subrange(0, j as int).contains(x),
        decreases b.len() - j,
    {
        let ghost r_prev = r@;
        let x = b[j];
        if !usize_vec_contains(&r, x) {
            r.push(x);
        }
        proof {
            let sub_p = b@.subrange(0, j as int);
            let sub_n = b@.subrange(0, j + 1);
            assert(sub_n[j as int] == b@[j as int]);
            assert forall|y: usize| #![auto] r@.contains(y) <==> a@.contains(y) || b@.subrange(
                0,
                j + 1,
            ).contains(y) by {
                assert(sub_n == b@.subrange(0, j + 1));
                if r@.contains(y) {
                    let m = choose|m: int| 0 <= m < r@.len() && r@[m] == y;
                    if m < r_prev.len() {
                        assert(r_prev[m] == y);
                        assert(r_prev.contains(y));
                        if !a@.contains(y) {
                            assert(sub_p.contains(y));
                            let k = choose|k: int|
                                0 <= k < sub_p.len() && #[trigger] sub_p[k] == y;
                            assert(sub_n[k] == y);
                            assert(sub_n.contains(y));
                        }
                    } else {
                        assert(y == b@[j as int]);
                        assert(sub_n.contains(y));
                    }
                }
                if a@.contains(y) || sub_n.contains(y) {
                    if sub_n.contains(y) {
                        let k = choose|k: int| 0 <= k < sub_n.len() && #[trigger] sub_n[k] == y;
                        if k < j {
                            assert(sub_p[k] == y);
                            assert(sub_p.contains(y));
                            assert(r_prev.contains(y));
                        } else {
                            assert(y == b@[j as int]);
                            if !r_prev.contains(y) {
                                assert(r@[r@.len() - 1] == y);
                                assert(r@.contains(y));
                            }
                        }
                    } else {
                        assert(r_prev.contains(y));
                    }
                    if r_prev.contains(y) {
                        let m = choose|m: int| 0 <= m < r_prev.len() && r_prev[m] == y;
                        assert(r@[m] == y);
                        assert(r@.contains(y));
                    }
                }
            }
        }
        j = j + 1;
    }
    proof {
        assert(b@.subrange(0, b@.len() as int) =~= b@);
    }
    r
}

/// Union-merges two back-reference maps: the result holds a row exactly
/// for the keys of either side, and records a referrer exactly where one
/// side does.
fn merge_references(first: ReferencesList, second: &ReferencesList) -> (r: ReferencesList)
    requires
        first.wf(),
        second.wf(),
    ensures
        r.wf(),
        forall|t: usize|
            #[trigger] has_key(r.entries@, t) <==> has_key(first.entries@, t) || has_key(
                second.entries@,
                t,
            ),
        forall|t: usize, x: usize|
            #[trigger] is_referrer(r.entries@, t, x) <==> is_referrer(first.entries@, t, x)
                || is_referrer(second.entries@, t, x),
{
    let ghost first0 = first.entries@;
    let mut acc = first;
    let mut j: usize = 0;
    while j < second.entries.len()
        invariant
            acc.wf(),
            second.wf(),
            j <= second.entries.len(),
            forall|t: usize|
                #[trigger] has_key(acc.entries@, t) <==> has_key(first0, t) || has_key(
                    second.entries@.subrange(0, j as int),
                    t,
                ),
            forall|t: usize, x: usize|
                #[trigger] is_referrer(acc.entries@, t, x) <==> is_referrer(first0, t, x)
                    || is_referrer(second.entries@.subrange(0, j as int), t, x),
        decreases second.entries.len() - j,
    {
        let ghost acc_prev = acc.entries@;
        let ghost sub_prev = second.entries@.subrange(0, j as int);
        let ghost sub_next = second.entries@.subrange(0, j + 1);
        proof {
            assert(sub_next.drop_last() =~= sub_prev);
            assert(sub_next.last() == second.entries@[j as int]);
            assert(!has_key(sub_prev, second.entries@[j as int].asset)) by {
                if has_key(sub_prev, second.entries@[j as int].asset) {
                    let k = choose|k: int|
                        0 <= k < sub_prev.len() && (#[trigger] sub_prev[k]).asset
                            == second.entries@[j as int].asset;
                    assert(second.entries@[k].asset == second.entries@[j as int].asset);
                }
            }
            assert(!is_referrer(sub_prev, second.entries@[j as int].asset, 0usize)
                || has_key(sub_prev, second.entries@[j as int].asset));
        }
        let entry = &second.entries[j];
        match find_key(&acc.entries, entry.asset) {
            Some(i) => {
                let merged = union_referrers(&acc.entries[i].referrers, &entry.referrers);
                let replacement = ReferencesEntry { asset: entry.asset, referrers: merged };
                acc.entries.set(i, replacement);
                proof {
                    let t0 = second.entries@[j as int].asset;
                    assert(acc_prev[i as int].asset == t0);
                    assert(acc.entries@[i as int].asset == t0);
                    assert forall|u: int| 0 <= u < acc.entries@.len() implies (
                    #[trigger] acc.entries@[u]).asset == acc_prev[u].asset by {}
                    assert forall|t: usize| #[trigger] has_key(acc.entries@, t) <==> has_key(
                        acc_prev,
                        t,
                    ) by {
                        if has_key(acc.entries@, t) {
                            let k = choose|k: int|
                                0 <= k < acc.entries@.len() && (#[trigger] acc.entries@[k]).asset
                                    == t;
                            assert(acc_prev[k].asset == t);
                        }
                        if has_key(acc_prev, t) {
                            let k = choose|k: int|
                                0 <= k < acc_prev.len() && (#[trigger] acc_prev[k]).asset == t;
                            assert(acc.entries@[k].asset == t);
                        }
                    }
                    assert forall|t: usize| #[trigger] has_key(sub_next, t) <==> has_key(
                        sub_prev,
                        t,
                    ) || t == t0 by {
                        if has_key(sub_next, t) {
                            let k = choose|k: int|
                                0 <= k < sub_next.len() && (#[trigger] sub_next[k]).asset == t;
                            if k < sub_prev.len() {
                                assert(sub_prev[k].asset == t);
                            }
                        }
                        if has_key(sub_prev, t) {
                            let k = choose|k: int|
                                0 <= k < sub_prev.len() && (#[trigger] sub_prev[k]).asset == t;
                            assert(sub_next[k].asset == t);
                        }
                        if t == t0 {
                            assert(sub_next[sub_next.len() - 1].asset == t);
                        }
                    }
                    assert(has_key(acc_prev, t0));
                    assert forall|t: usize, x: usize| #[trigger] is_referrer(acc.entries@, t, x)
                        <==> is_referrer(first0, t, x) || is_referrer(sub_next, t, x) by {
                        if t == t0 {
                            assert(is_referrer(acc.entries@, t, x) <==> acc.entries@[i as int]
                                .referrers@.contains(x)) by {
                                if is_referrer(acc.entries@, t, x) {
                                    let k = choose|k: int|
                                        0 <= k < acc.entries@.len() && (
                                        #[trigger] acc.entries@[k]).asset == t
                                            && acc.entries@[k].referrers@.contains(x);
                                    assert(acc_prev[k].asset == t0);
                                    assert(k == i);
                                }
                            }
                            assert(is_referrer(acc_prev, t, x) <==> acc_prev[i as int]
                                .referrers@.contains(x)) by {
                                if is_referrer(acc_prev, t, x) {
                                    let k = choose|k: int|
                                        0 <= k < acc_prev.len() && (#[trigger] acc_prev[k]).asset
                                            == t && acc_prev[k].referrers@.contains(x);
                                    assert(k == i);
                                }
                            }
                            assert(!is_referrer(sub_prev, t, x)) by {
                                if is_referrer(sub_prev, t, x) {
                                    let k = choose|k: int|
                                        0 <= k < sub_prev.len() && (#[trigger] sub_prev[k]).asset
                                            == t && sub_prev[k].referrers@.contains(x);
                                    assert(has_key(sub_prev, t));
                                }
                            }
                            assert(is_referrer(sub_next, t, x) <==> second.entries@[j as int]
                                .referrers@.contains(x)) by {
                                if is_referrer(sub_next, t, x) {
                                    let k = choose|k: int|
                                        0 <= k < sub_next.len() && (#[trigger] sub_next[k]).asset
                                            == t && sub_next[k].referrers@.contains(x);
                                    if k < sub_prev.len() {
                                        assert(sub_prev[k].asset == t
                                            && sub_prev[k].referrers@.contains(x));
                                        assert(is_referrer(sub_prev, t, x));
                                    }
                                }
                                if second.entries@[j as int].referrers@.contains(x) {
                                    assert(sub_next[sub_next.len() - 1].asset == t
                                        && sub_next[sub_next.len() - 1].referrers@.contains(x));
                                }
                            }
                        } else {
                            assert(is_referrer(acc.entries@, t, x) <==> is_referrer(
                                acc_prev,
                                t,
                                x,
                            )) by {
                                if is_referrer(acc.entries@, t, x) {
                                    let k = choose|k: int|
                                        0 <= k < acc.entries@.len() && (
                                        #[trigger] acc.entries@[k]).asset == t
                                            && acc.entries@[k].referrers@.contains(x);
                                    assert(k != i);
                                    assert(acc_prev[k].asset == t
                                        && acc_prev[k].referrers@.contains(x));
                                }
                                if is_referrer(acc_prev, t, x) {
                                    let k = choose|k: int|
                                        0 <= k < acc_prev.len() && (#[trigger] acc_prev[k]).asset
                                            == t && acc_prev[k].referrers@.contains(x);
                                    assert(k != i);
                                    assert(acc.entries@[k].asset == t
                                        && acc.entries@[k].referrers@.contains(x));
                                }
                            }
                            assert(is_referrer(sub_next, t, x) <==> is_referrer(
                                sub_prev,
                                t,
                                x,
                            )) by {
                                if is_referrer(sub_next, t, x) {
                                    let k = choose|k: int|
                                        0 <= k < sub_next.len() && (#[trigger] sub_next[k]).asset
                                            == t && sub_next[k].referrers@.contains(x);
                                    assert(k < sub_prev.len());
                                    assert(sub_prev[k].asset == t
                                        && sub_prev[k].referrers@.contains(x));
                                }
                                if is_referrer(sub_prev, t, x) {
                                    let k = choose|k: int|
                                        0 <= k < sub_prev.len() && (#[trigger] sub_prev[k]).asset
                                            == t && sub_prev[k].referrers@.contains(x);
                                    assert(sub_next[k].asset == t
                                        && sub_next[k].referrers@.contains(x));
                                }
                            }
                        }
                    }
                    assert forall|t: usize| #[trigger] has_key(acc.entries@, t) <==> has_key(
                        first0,
                        t,
                    ) || has_key(sub_next, t) by {}
                }
            },
            None => {
                let fresh = copy_entry(entry);
                acc.entries.push(fresh);
                proof {
                    let t0 = second.entries@[j as int].asset;
                    let last = acc.entries@.len() - 1;
                    assert(acc.entries@[last].asset == t0);
                    assert(acc.entries@[last].referrers@ == second.entries@[j as int].referrers@);
                    assert(forall|k: int| 0 <= k < last ==> acc.entries@[k] == acc_prev[k]);
                    assert forall|t: usize| #[trigger] has_key(acc.entries@, t) <==> has_key(
                        first0,
                        t,
                    ) || has_key(sub_next, t) by {
                        if has_key(acc.entries@, t) {
                            let k = choose|k: int|
                                0 <= k < acc.entries@.len() && (#[trigger] acc.entries@[k]).asset
                                    == t;
                            if k < last {
                                assert(acc_prev[k].asset == t);
                                assert(has_key(acc_prev, t));
                                if !has_key(first0, t) {
                                    assert(has_key(sub_prev, t));
                                    let m = choose|m: int|
                                        0 <= m < sub_prev.len() && (#[trigger] sub_prev[m]).asset
                                            == t;
                                    assert(sub_next[m].asset == t);
                                    assert(has_key(sub_next, t));
                                }
                            } else {
                                assert(t == t0);
                                assert(sub_next[sub_next.len() - 1].asset == t);
                                assert(has_key(sub_next, t));
                            }
                        }
                        if has_key(first0, t) || has_key(sub_next, t) {
                            if has_key(sub_next, t) {
                                let k = choose|k: int|
                                    0 <= k < sub_next.len() && (#[trigger] sub_next[k]).asset
                                        == t;
                                if k < sub_prev.len() {
                                    assert(sub_prev[k].asset == t);
                                    assert(has_key(sub_prev, t));
                                    assert(has_key(acc_prev, t));
                                } else {
                                    assert(t == t0);
                                    assert(acc.entries@[last].asset == t);
                                    assert(has_key(acc.entries@, t));
                                }
                            } else {
                                assert(has_key(acc_prev, t));
                            }
                            if has_key(acc_prev, t) {
                                let k = choose|k: int|
                                    0 <= k < acc_prev.len() && (#[trigger] acc_prev[k]).asset
                                        == t;
                                assert(acc.entries@[k].asset == t);
                                assert(has_key(acc.entries@, t));
                            }
                        }
                    }
                    assert forall|t: usize, x: usize| #[trigger] is_referrer(acc.entries@, t, x)
                        <==> is_referrer(first0, t, x) || is_referrer(sub_next, t, x) by {
                        if is_referrer(acc.entries@, t, x) {
                            let k = choose|k: int|
                                0 <= k < acc.entries@.len() && (#[trigger] acc.entries@[k]).asset
                                    == t && acc.entries@[k].referrers@.contains(x);
                            if k < last {
                                assert(acc_prev[k].asset == t
                                    && acc_prev[k].referrers@.contains(x));
                                assert(is_referrer(acc_prev, t, x));
                                if !is_referrer(first0, t, x) {
                                    assert(is_referrer(sub_prev, t, x));
                                    let m = choose|m: int|
                                        0 <= m < sub_prev.len() && (#[trigger] sub_prev[m]).asset
                                            == t && sub_prev[m].referrers@.contains(x);
                                    assert(sub_next[m].asset == t
                                        && sub_next[m].referrers@.contains(x));
                                    assert(is_referrer(sub_next, t, x));
                                }
                            } else {
                                assert(t == t0);
                                assert(sub_next[sub_next.len() - 1].asset == t
                                    && sub_next[sub_next.len() - 1].referrers@.contains(x));
                                assert(is_referrer(sub_next, t, x));
                            }
                        }
                        if is_referrer(first0, t, x) {
                            assert(is_referrer(acc_prev, t, x));
                            let k = choose|k: int|
                                0 <= k < acc_prev.len() && (#[trigger] acc_prev[k]).asset == t
                                    && acc_prev[k].referrers@.contains(x);
                            assert(acc.entries@[k].asset == t && acc.entries@[k]
                                .referrers@.contains(x));
                            assert(is_referrer(acc.entries@, t, x));
                        }
                        if is_referrer(sub_next, t, x) {
                            let k = choose|k: int|
                                0 <= k < sub_next.len() && (#[trigger] sub_next[k]).asset == t
                                    && sub_next[k].referrers@.contains(x);
                            if k < sub_prev.len() {
                                assert(sub_prev[k].asset == t
                                    && sub_prev[k].referrers@.contains(x));
                                assert(is_referrer(sub_prev, t, x));
                                assert(is_referrer(acc_prev, t, x));
                                let m = choose|m: int|
                                    0 <= m < acc_prev.len() && (#[trigger] acc_prev[m]).asset
                                        == t && acc_prev[m].referrers@.contains(x);
                                assert(acc.entries@[m].asset == t && acc.entries@[m]
                                    .referrers@.contains(x));
                                assert(is_referrer(acc.entries@, t, x));
                            } else {
                                assert(t == t0);
                                assert(acc.entries@[last].asset == t && acc.entries@[last]
                                    .referrers@.contains(x));
                                assert(is_referrer(acc.entries@, t, x));
                            }
                        }
                    }
                    assert(!has_key(acc_prev, t0));
                    assert forall|u: int, w: int|
                        0 <= u < w < acc.entries@.len() implies acc.entries@[u].asset
                        != acc.entries@[w].asset by {
                        if w == last {
                            assert(acc_prev[u].asset == acc.entries@[u].asset);
                            if acc.entries@[u].asset == t0 {
                                assert(has_key(acc_prev, t0));
                            }
                        }
                    }
                }
            },
        }
        j = j + 1;
    }
    proof {
        assert(second.entries@.subrange(0, second.entries@.len() as int) =~= second.entries@);
    }
    acc
}

/// The back-reference map of an aggregated hierarchy: `x` is recorded as
/// a referrer of `t` exactly when `x` is a leaf of the hierarchy that
/// directly references `t`, and a row exists exactly for the assets some
/// leaf references. Children's maps are union-merged, so the result is
/// independent of merge order.
pub fn compute_back_references(g: &AssetGraph, aggregated: &AggregatedGraphNode) -> (r:
    ReferencesList)
    requires
        g.wf(),
        forall|j: int|
            0 <= j < aggregated.leaves().len() ==> (#[trigger] aggregated.leaves()[j])
                < g.assets@.len(),
    ensures
        r.wf(),
        forall|t: usize|
            #[trigger] has_key(r.entries@, t) <==> exists|l: usize|
                aggregated.leaves().contains(l) && #[trigger] g.spec_edge(l, t),
        forall|t: usize, x: usize|
            #[trigger] is_referrer(r.entries@, t, x) <==> aggregated.leaves().contains(x)
                && g.spec_edge(x, t),
    decreases *aggregated,
{
    broadcast use vstd::seq_lib::group_seq_properties;

    match aggregated {
        AggregatedGraphNode::Asset(a) => {
            let a = *a;
            proof {
                assert(aggregated.leaves() =~= seq![a]);
                assert(aggregated.leaves()[0] == a);
                assert(a < g.assets@.len());
            }
            let mut entries: Vec<ReferencesEntry> = Vec::new();
            let refs = &g.assets[a].references;
            let mut e: usize = 0;
            while e < refs.len()
                invariant
                    g.wf(),
                    a < g.assets@.len(),
                    refs@ == g.assets@[a as int].references@,
                    e <= refs@.len(),
                    wf_entries(entries@),
                    forall|i: int|
                        0 <= i < entries@.len() ==> (#[trigger] entries@[i]).referrers@ == seq![a],
                    forall|t: usize|
                        #[trigger] has_key(entries@, t) <==> refs@.subrange(
                            0,
                            e as int,
                        ).contains(t),
                decreases refs@.len() - e,
            {
                let ghost entries_prev = entries@;
                let t = refs[e];
                match find_key(&entries, t) {
                    Some(_) => {},
                    None => {
                        let mut referrers: Vec<usize> = Vec::new();
                        referrers.push(a);
                        assert(referrers@ =~= seq![a]);
                        entries.push(ReferencesEntry { asset: t, referrers });
                    },
                }
                proof {
                    let sub_p = refs@.subrange(0, e as int);
                    let sub_n = refs@.subrange(0, e + 1);
                    assert(sub_n[e as int] == refs@[e as int]);
                    assert forall|u: usize| #[trigger] has_key(entries@, u) <==> sub_n.contains(
                        u,
                    ) by {
                        if has_key(entries@, u) {
                            let k = choose|k: int|
                                0 <= k < entries@.len() && (#[trigger] entries@[k]).asset == u;
                            if k < entries_prev.len() {
                                assert(entries_prev[k].asset == u);
                                assert(has_key(entries_prev, u));
                                assert(sub_p.contains(u));
                                let m = choose|m: int|
                                    0 <= m < sub_p.len() && #[trigger] sub_p[m] == u;
                                assert(sub_n[m] == u);
                                assert(sub_n.contains(u));
                            } else {
                                assert(u == refs@[e as int]);
                                assert(sub_n.contains(u));
                            }
                        }
                        if sub_n.contains(u) {
                            let m = choose|m: int| 0 <= m < sub_n.len() && #[trigger] sub_n[m]
                                == u;
                            if m < e {
                                assert(sub_p[m] == u);
                                assert(sub_p.contains(u));
                                assert(has_key(entries_prev, u));
                                let q = choose|q: int|
                                    0 <= q < entries_prev.len() && (
                                    #[trigger] entries_prev[q]).asset == u;
                                assert(entries@[q].asset == u);
                                assert(has_key(entries@, u));
                            } else {
                                assert(u == refs@[e as int]);
                                if has_key(entries_prev, u) {
                                    let q = choose|q: int|
                                        0 <= q < entries_prev.len() && (
                                        #[trigger] entries_prev[q]).asset == u;
                                    assert(entries@[q].asset == u);
                                } else {
                                    assert(entries@[entries@.len() - 1].asset == u);
                                }
                                assert(has_key(entries@, u));
                            }
                        }
                    }
                }
                e = e + 1;
            }
            proof {
                assert(refs@.subrange(0, refs@.len() as int) =~= refs@);
            }
            let r = ReferencesList { entries };
            proof {
                assert forall|t: usize| #[trigger] has_key(r.entries@, t) <==> exists|l: usize|
                    aggregated.leaves().contains(l) && #[trigger] g.spec_edge(l, t) by {
                    if has_key(r.entries@, t) {
                        assert(g.spec_edge(a, t));
                        assert(aggregated.leaves().contains(a));
                    }
                    if exists|l: usize|
                        aggregated.leaves().contains(l) && #[trigger] g.spec_edge(l, t) {
                        let l = choose|l: usize|
                            aggregated.leaves().contains(l) && #[trigger] g.spec_edge(l, t);
                        assert(l == a);
                    }
                }
                assert forall|t: usize, x: usize| #[trigger] is_referrer(r.entries@, t, x)
                    <==> aggregated.leaves().contains(x) && g.spec_edge(x, t) by {
                    if is_referrer(r.entries@, t, x) {
                        let k = choose|k: int|
                            0 <= k < r.entries@.len() && r.entries@[k].asset == t
                                && r.entries@[k].referrers@.contains(x);
                        assert(r.entries@[k].referrers@ == seq![a]);
                        assert(x == a);
                        assert(has_key(r.entries@, t));
                    }
                    if aggregated.leaves().contains(x) && g.spec_edge(x, t) {
                        assert(x == a);
                        assert(has_key(r.entries@, t));
                        let k = choose|k: int|
                            0 <= k < r.entries@.len() && r.entries@[k].asset == t;
                        assert(r.entries@[k].referrers@.contains(a));
                    }
                }
            }
            r
        },
        AggregatedGraphNode::Children(left, right) => {
            proof {
                assert(aggregated.leaves() == (*left).leaves() + (*right).leaves());
                assert forall|j: int| 0 <= j < (*left).leaves().len() implies (
                #[trigger] (*left).leaves()[j]) < g.assets@.len() by {
                    assert(aggregated.leaves()[j] == (*left).leaves()[j]);
                }
                assert forall|j: int| 0 <= j < (*right).leaves().len() implies (
                #[trigger] (*right).leaves()[j]) < g.assets@.len() by {
                    assert(aggregated.leaves()[(*left).leaves().len() + j] == (*right).leaves()[j]);
                }
            }
            let rl = compute_back_references(g, left);
            let rr = compute_back_references(g, right);
            let merged = merge_references(rl, &rr);
            proof {
                assert forall|l: usize| #[trigger] aggregated.leaves().contains(l) implies (
                *left).leaves().contains(l) || (*right).leaves().contains(l) by {
                    let k = choose|k: int|
                        0 <= k < aggregated.leaves().len() && aggregated.leaves()[k] == l;
                    if k < (*left).leaves().len() {
                        assert((*left).leaves()[k] == l);
                    } else {
                        assert((*right).leaves()[k - (*left).leaves().len()] == l);
                    }
                }
                assert forall|l: usize|
                    (*left).leaves().contains(l) || (*right).leaves().contains(
                        l,
                    ) implies #[trigger] aggregated.leaves().contains(l) by {
                    if (*left).leaves().contains(l) {
                        let k = choose|k: int|
                            0 <= k < (*left).leaves().len() && (*left).leaves()[k] == l;
                        assert(aggregated.leaves()[k] == l);
                    } else {
                        let k = choose|k: int|
                            0 <= k < (*right).leaves().len() && (*right).leaves()[k] == l;
                        assert(aggregated.leaves()[(*left).leaves().len() + k] == l);
                    }
                }
            }
            merged
        },
    }
}


/// The number of most-referenced assets the selection keeps.
pub const TOP_REFERENCES_COUNT: usize = 5;

/// Rows as key and referrer sequence, for selection statements.
pub open spec fn entries_view(s: Seq<ReferencesEntry>) -> Seq<(usize, Seq<usize>)> {
    s.map_values(|e: ReferencesEntry| (e.asset, e.referrers@))
}

/// A row list holds a row keyed `t`.
pub open spec fn sel_has_key(s: Seq<(usize, Seq<usize>)>, t: usize) -> bool {
    exists|i: int| 0 <= i < s.len() && (#[trigger] s[i]).0 == t
}

/// `top` keeps `n` rows of `full` (all of them when `full` has fewer),
/// keyed pairwise distinctly, and every row of `full` whose key was
/// dropped has no more referrers than any kept row.
pub open spec fn is_top_selection(
    full: Seq<(usize, Seq<usize>)>,
    top: Seq<(usize, Seq<usize>)>,
    n: int,
) -> bool {
    &&& top.len() == (if full.len() <= n {
        full.len() as int
    } else {
        n
    })
    &&& forall|i: int| 0 <= i < top.len() ==> full.contains(#[trigger] top[i])
    &&& forall|i: int, j: int| 0 <= i < j < top.len() ==> top[i].0 != top[j].0
    &&& forall|j: int, i: int|
        0 <= j < full.len() && 0 <= i < top.len() && !sel_has_key(top, full[j].0) ==> (
        #[trigger] full[j]).1.len() <= (#[trigger] top[i]).1.len()
}

/// What a sequence extended by one value holds.
proof fn lemma_push_contains(s: Seq<usize>, v: usize, x: usize)
    ensures
        s.push(v).contains(x) <==> s.contains(x) || x == v,
{
    if s.push(v).contains(x) {
        let m = choose|m: int| 0 <= m < s.push(v).len() && s.push(v)[m] == x;
        if m < s.len() {
            assert(s[m] == x);
            assert(s.contains(x));
        }
    }
    if s.contains(x) {
        let m = choose|m: int| 0 <= m < s.len() && s[m] == x;
        assert(s.push(v)[m] == x);
        assert(s.push(v).contains(x));
    }
    if x == v {
        assert(s.push(v)[s.len() as int] == x);
        assert(s.push(v).contains(x));
    }
}

/// Exchanging two positions of a duplicate-free sequence keeps it
/// duplicate-free and keeps its members.
proof fn lemma_transpose_no_dup(s1: Seq<usize>, s2: Seq<usize>, i: int, j: int)
    requires
        0 <= i < s1.len(),
        0 <= j < s1.len(),
        s1.no_duplicates(),
        s2 == s1.update(i, s1[j]).update(j, s1[i]),
    ensures
        s2.no_duplicates(),
        forall|x: usize| s2.contains(x) <==> s1.contains(x),
{
    assert(s2.len() == s1.len());
    assert forall|m: int, m2: int| 0 <= m < m2 < s2.len() implies s2[m] != s2[m2] by {}
    assert forall|x: usize| s2.contains(x) <==> s1.contains(x) by {
        if s2.contains(x) {
            let m = choose|m: int| 0 <= m < s2.len() && s2[m] == x;
            if m == i {
                assert(s1.contains(s1[j]) || i == j);
                if i == j {
                    assert(s1[m] == x);
                }
                assert(s1.contains(x));
            } else if m == j {
                assert(s1[i] == x);
                assert(s1.contains(x));
            } else {
                assert(s1[m] == x);
                assert(s1.contains(x));
            }
        }
        if s1.contains(x) {
            let m = choose|m: int| 0 <= m < s1.len() && s1[m] == x;
            if m == i {
                assert(s2[j] == x);
            } else if m == j {
                assert(s2[i] == x);
            } else {
                assert(s2[m] == x);
            }
            assert(s2.contains(x));
        }
    }
}

/// Selects the most-referenced rows: a bounded working set holds the
/// best rows seen; each new row is swept against every member, always
/// keeping the larger of the two under comparison, and the displaced
/// minimum is appended while the set is short and discarded once it is
/// full. Ties are broken by sweep order; any maximal selection is
/// acceptable.
pub fn top_references(list: &ReferencesList) -> (r: ReferencesList)
    requires
        list.wf(),
    ensures
        r.wf(),
        is_top_selection(
            entries_view(list.entries@),
            entries_view(r.entries@),
            TOP_REFERENCES_COUNT as int,
        ),
{
    let n = list.entries.len();
    let mut top_idx: Vec<usize> = Vec::new();
    let mut k: usize = 0;
    while k < n
        invariant
            list.wf(),
            k <= n,
            n == list.entries@.len(),
            top_idx@.len() == (if k <= TOP_REFERENCES_COUNT {
                k as int
            } else {
                TOP_REFERENCES_COUNT as int
            }),
            top_idx@.no_duplicates(),
            forall|m: int| 0 <= m < top_idx@.len() ==> (#[trigger] top_idx@[m]) < k,
            k <= TOP_REFERENCES_COUNT ==> forall|jj: usize|
                jj < k ==> top_idx@.contains(jj),
            forall|j: usize, m: int|
                #![trigger top_idx@.contains(j), top_idx@[m]]
                j < k && !top_idx@.contains(j) && 0 <= m < top_idx@.len()
                    ==> list.entries@[j as int].referrers@.len()
                    <= list.entries@[top_idx@[m] as int].referrers@.len(),
        decreases n - k,
    {
        let ghost top0 = top_idx@;
        let mut current: usize = k;
        proof {
            assert forall|m: int, m2: int|
                0 <= m < m2 < top_idx@.push(current).len() implies top_idx@.push(current)[m]
                != top_idx@.push(current)[m2] by {
                if m2 == top_idx@.len() {
                    assert(top_idx@[m] < k);
                }
            }
        }
        let mut i: usize = 0;
        while i < top_idx.len()
            invariant
                list.wf(),
                k < n,
                n == list.entries@.len(),
                i <= top_idx@.len(),
                top_idx@.len() == top0.len(),
                current <= k,
                forall|m: int| 0 <= m < top_idx@.len() ==> (#[trigger] top_idx@[m]) <= k,
                (top_idx@.push(current)).no_duplicates(),
                forall|x: usize|
                    (top_idx@.push(current)).contains(x) <==> (top0.push(k)).contains(x),
                forall|m: int|
                    0 <= m < i ==> list.entries@[current as int].referrers@.len()
                        <= list.entries@[(#[trigger] top_idx@[m]) as int].referrers@.len(),
                forall|m: int|
                    0 <= m < top0.len() ==> list.entries@[(#[trigger] top0[m]) as int]
                        .referrers@.len() <= list.entries@[top_idx@[m] as int]
                        .referrers@.len(),
            decreases top_idx@.len() - i,
        {
            let ghost top_b = top_idx@;
            let ghost cur_b = current;
            let t = top_idx[i];
            if list.entries[t].referrers.len() < list.entries[current].referrers.len() {
                top_idx.set(i, current);
                current = t;
                proof {
                    let s1 = top_b.push(cur_b);
                    let s2 = top_idx@.push(current);
                    assert(s2 =~= s1.update(i as int, s1[s1.len() - 1]).update(
                        s1.len() - 1,
                        s1[i as int],
                    ));
                    lemma_transpose_no_dup(s1, s2, i as int, s1.len() - 1);
                }
            }
            i = i + 1;
        }
        let ghost top_a = top_idx@;
        let ghost cur_a = current;
        if top_idx.len() < TOP_REFERENCES_COUNT {
            top_idx.push(current);
        }
        proof {
            assert forall|x: usize| (top_a.push(cur_a)).contains(x) implies x <= k by {
                lemma_push_contains(top_a, cur_a, x);
                lemma_push_contains(top0, k, x);
            }
            if top_a.len() < TOP_REFERENCES_COUNT {
                assert(top_idx@ == top_a.push(cur_a));
                assert(k < TOP_REFERENCES_COUNT);
                assert forall|m: int| 0 <= m < top_idx@.len() implies (#[trigger] top_idx@[m])
                    < k + 1 by {
                    assert(top_idx@.contains(top_idx@[m]));
                }
                assert forall|jj: usize| jj < k + 1 implies top_idx@.contains(jj) by {
                    lemma_push_contains(top0, k, jj);
                    if jj < k {
                        assert(top0.contains(jj));
                    }
                    assert((top0.push(k)).contains(jj));
                }
                assert forall|j: usize, m: int|
                    #![trigger top_idx@.contains(j), top_idx@[m]]
                    j < k + 1 && !top_idx@.contains(j) && 0 <= m < top_idx@.len()
                        implies list.entries@[j as int].referrers@.len()
                        <= list.entries@[top_idx@[m] as int].referrers@.len() by {
                    assert(top_idx@.contains(j));
                }
            } else {
                assert(top_idx@ == top_a);
                assert(k >= TOP_REFERENCES_COUNT);
                assert(top_a.no_duplicates()) by {
                    let s = top_a.push(cur_a);
                    assert forall|m: int, m2: int|
                        0 <= m < m2 < top_a.len() implies top_a[m] != top_a[m2] by {
                        assert(s[m] == top_a[m] && s[m2] == top_a[m2]);
                    }
                }
                assert forall|m: int| 0 <= m < top_idx@.len() implies (#[trigger] top_idx@[m])
                    < k + 1 by {
                    assert((top_a.push(cur_a)).contains(top_a[m])) by {
                        lemma_push_contains(top_a, cur_a, top_a[m]);
                        assert(top_a.contains(top_a[m]));
                    }
                }
                assert forall|j: usize, m: int|
                    #![trigger top_idx@.contains(j), top_idx@[m]]
                    j < k + 1 && !top_idx@.contains(j) && 0 <= m < top_idx@.len()
                        implies list.entries@[j as int].referrers@.len()
                        <= list.entries@[top_idx@[m] as int].referrers@.len() by {
                    lemma_push_contains(top0, k, j);
                    lemma_push_contains(top_a, cur_a, j);
                    if (top0.push(k)).contains(j) {
                        assert((top_a.push(cur_a)).contains(j));
                        assert(j == cur_a);
                        assert(list.entries@[cur_a as int].referrers@.len()
                            <= list.entries@[top_a[m] as int].referrers@.len());
                    } else {
                        assert(j < k && !top0.contains(j));
                        assert(list.entries@[j as int].referrers@.len()
                            <= list.entries@[top0[m] as int].referrers@.len());
                        assert(list.entries@[top0[m] as int].referrers@.len()
                            <= list.entries@[top_a[m] as int].referrers@.len());
                    }
                }
            }
        }
        k = k + 1;
    }
    let mut entries: Vec<ReferencesEntry> = Vec::new();
    let mut m: usize = 0;
    while m < top_idx.len()
        invariant
            list.wf(),
            n == list.entries@.len(),
            m <= top_idx@.len(),
            forall|u: int| 0 <= u < top_idx@.len() ==> (#[trigger] top_idx@[u]) < n,
            top_idx@.no_duplicates(),
            entries@.len() == m,
            forall|u: int|
                0 <= u < m ==> (#[trigger] entries@[u]).asset == list.entries@[top_idx@[u] as int]
                    .asset && entries@[u].referrers@ == list.entries@[top_idx@[u] as int]
                    .referrers@,
        decreases top_idx@.len() - m,
    {
        entries.push(copy_entry(&list.entries[top_idx[m]]));
        m = m + 1;
    }
    let r = ReferencesList { entries };
    proof {
        let fullv = entries_view(list.entries@);
        let topv = entries_view(r.entries@);
        assert(r.wf()) by {
            assert forall|u: int, w: int|
                0 <= u < w < r.entries@.len() implies r.entries@[u].asset
                != r.entries@[w].asset by {
                assert(top_idx@[u] != top_idx@[w]);
            }
            assert forall|u: int| 0 <= u < r.entries@.len() implies (
            #[trigger] r.entries@[u]).referrers@.no_duplicates() by {}
        }
        assert forall|u: int| 0 <= u < topv.len() implies fullv.contains(#[trigger] topv[u]) by {
            assert(topv[u] == fullv[top_idx@[u] as int]);
        }
        assert forall|j: int, u: int|
            0 <= j < fullv.len() && 0 <= u < topv.len() && !sel_has_key(topv, fullv[j].0)
                implies (#[trigger] fullv[j]).1.len() <= (#[trigger] topv[u]).1.len() by {
            assert(!top_idx@.contains(j as usize)) by {
                if top_idx@.contains(j as usize) {
                    let w = choose|w: int| 0 <= w < top_idx@.len() && top_idx@[w] == j as usize;
                    assert(topv[w].0 == fullv[j].0);
                    assert(sel_has_key(topv, fullv[j].0));
                }
            }
            assert(fullv[j].1 == list.entries@[j].referrers@);
            assert(topv[u].1 == list.entries@[top_idx@[u] as int].referrers@);
        }
    }
    r
}

/// Law: when every row's referrer count is distinct, the selection keeps
/// exactly the rows with the largest counts: every dropped row counts
/// strictly fewer referrers than every kept one, whatever order the rows
/// were swept in.
pub proof fn lemma_top_selection_keeps_largest(
    full: Seq<(usize, Seq<usize>)>,
    top: Seq<(usize, Seq<usize>)>,
    n: int,
)
    requires
        is_top_selection(full, top, n),
        forall|i: int, j: int| 0 <= i < j < full.len() ==> full[i].0 != full[j].0,
        forall|i: int, j: int|
            0 <= i < j < full.len() ==> (#[trigger] full[i]).1.len() != (
            #[trigger] full[j]).1.len(),
    ensures
        forall|j: int, i: int|
            0 <= j < full.len() && 0 <= i < top.len() && !sel_has_key(top, full[j].0) ==> (
            #[trigger] full[j]).1.len() < (#[trigger] top[i]).1.len(),
{
    assert forall|j: int, i: int|
        0 <= j < full.len() && 0 <= i < top.len() && !sel_has_key(top, full[j].0) implies (
        #[trigger] full[j]).1.len() < (#[trigger] top[i]).1.len() by {
        assert(full.contains(top[i]));
        let u = choose|u: int| 0 <= u < full.len() && full[u] == top[i];
        if full[j].1.len() == top[i].1.len() {
            assert(full[u].1.len() == full[j].1.len());
            assert(u == j);
            assert(top[i].0 == full[j].0);
            assert(sel_has_key(top, full[j].0));
        }
        assert(full[j].1.len() <= top[i].1.len());
    }
}

/// The most-referenced report for the graph rooted at `root`: the
/// aggregated hierarchy's full back-reference map, reduced to the
/// most-referenced rows. Every reported referrer is a reachable asset
/// that directly references the reported key, and the kept rows are a
/// top selection of the full map.
pub fn most_referenced(g: &AssetGraph, root: usize) -> (r: ReferencesList)
    requires
        g.wf(),
        root < g.assets@.len(),
    ensures
        r.wf(),
        exists|full: Seq<ReferencesEntry>|
            {
                &&& wf_entries(full)
                &&& (forall|t: usize|
                    #[trigger] has_key(full, t) <==> exists|l: usize|
                        g.spec_reachable(root, l) && #[trigger] g.spec_edge(l, t))
                &&& (forall|t: usize, x: usize|
                    #[trigger] is_referrer(full, t, x) <==> g.spec_reachable(root, x)
                        && g.spec_edge(x, t))
                &&& is_top_selection(
                    entries_view(full),
                    entries_view(r.entries@),
                    TOP_REFERENCES_COUNT as int,
                )
            },
{
    let aggregated = crate::graph::aggregate(g, root);
    proof {
        assert forall|j: int| 0 <= j < aggregated.leaves().len() implies (
        #[trigger] aggregated.leaves()[j]) < g.assets@.len() by {
            assert(aggregated.leaves().contains(aggregated.leaves()[j]));
        }
    }
    let back = compute_back_references(g, &aggregated);
    let r = top_references(&back);
    proof {
        let full = back.entries@;
        assert forall|t: usize| #[trigger] has_key(full, t) <==> exists|l: usize|
            g.spec_reachable(root, l) && #[trigger] g.spec_edge(l, t) by {
            if has_key(full, t) {
                let l = choose|l: usize|
                    aggregated.leaves().contains(l) && #[trigger] g.spec_edge(l, t);
                assert(g.spec_reachable(root, l) && g.spec_edge(l, t));
            }
            if exists|l: usize| g.spec_reachable(root, l) && #[trigger] g.spec_edge(l, t) {
                let l = choose|l: usize|
                    g.spec_reachable(root, l) && #[trigger] g.spec_edge(l, t);
                assert(aggregated.leaves().contains(l));
            }
        }
    }
    r
}

} // verus!
