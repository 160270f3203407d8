//! The emission pipeline.
//!
//! Emission is planned here and performed by the caller: a plan lists the
//! assets whose content is to be written to their paths, each asset at
//! most once. The cycle-tolerant strategy plans a write for every
//! reachable asset; the aggregated, directory-scoped strategy walks the
//! aggregated hierarchy and plans a write only for the leaves lying
//! inside the output directory, skipping the rest as a no-op.

use vstd::prelude::*;
use crate::paths::FsPath;
use crate::paths::strictly_contains;
use crate::graph::AssetGraph;
use crate::graph::AggregatedGraphNode;
use crate::graph::aggregate;

verus! {

/// One planned filesystem write: this content to this path.
#[derive(Debug, Clone, PartialEq, Eq)]
pub struct WriteAction {
    pub path: FsPath,
    pub content: u64,
}

/// The write that emits one asset: its content to its own path.
pub fn emit_asset(g: &AssetGraph, asset: usize) -> (w: WriteAction)
    requires
        asset < g.assets@.len(),
    ensures
        w.path@ == g.assets@[asset as int].path@,
        w.content == g.assets@[asset as int].content,
{
    WriteAction {
        path: g.assets[asset].path.duplicate(),
        content: g.assets[asset].content,
    }
}

/// The write that emits one asset into an output directory: planned only
/// when the asset's path lies inside the directory, a no-op otherwise.
pub fn emit_asset_into_dir(g: &AssetGraph, asset: usize, output_dir: &FsPath) -> (w: Option<
    WriteAction,
>)
    requires
        asset < g.assets@.len(),
    ensures
        match w {
            Some(w) => {
                &&& strictly_contains(output_dir@, g.assets@[asset as int].path@)
                &&& w.path@ == g.assets@[asset as int].path@
                &&& w.content == g.assets@[asset as int].content
            },
            None => !strictly_contains(output_dir@, g.assets@[asset as int].path@),
        },
{
    if g.assets[asset].path.is_inside(output_dir) {
        Some(emit_asset(g, asset))
    } else {
        None
    }
}

/// The cycle-tolerant full-graph plan: every asset reachable from `root`
/// is written exactly once, however the graph cycles or shares subtrees.
pub fn emit(g: &AssetGraph, root: usize) -> (plan: Vec<usize>)
    requires
        g.wf(),
        root < g.assets@.len(),
    ensures
        plan@.no_duplicates(),
        forall|x: usize| plan@.contains(x) <==> g.spec_reachable(root, x),
        forall|x: usize| plan@.contains(x) ==> x < g.assets@.len(),
{
    emit_assets_recursive(g, root)
}

/// The graph traversal behind `emit`; an explicit visited set stands in
/// for call deduplication, so a cycle is folded instead of recursed into.
fn emit_assets_recursive(g: &AssetGraph, root: usize) -> (plan: Vec<usize>)
    requires
        g.wf(),
        root < g.assets@.len(),
    ensures
        plan@.no_duplicates(),
        forall|x: usize| plan@.contains(x) <==> g.spec_reachable(root, x),
        forall|x: usize| plan@.contains(x) ==> x < g.assets@.len(),
{
    g.reachable_assets(root)
}

/// The directory-scoped plan: the aggregated hierarchy of `root` is
/// walked once, and each leaf inside `output_dir` is written exactly
/// once; leaves outside it are skipped.
pub fn emit_with_completion(g: &AssetGraph, root: usize, output_dir: &FsPath) -> (plan: Vec<
    usize,
>)
    requires
        g.wf(),
        root < g.assets@.len(),
    ensures
        plan@.no_duplicates(),
        forall|x: usize|
            plan@.contains(x) <==> g.spec_reachable(root, x) && strictly_contains(
                output_dir@,
                g.assets@[x as int].path@,
            ),
{
    emit_assets_aggregated(g, root, output_dir)
}

/// Builds the aggregated hierarchy for `root` and walks it.
fn emit_assets_aggregated(g: &AssetGraph, root: usize, output_dir: &FsPath) -> (plan: Vec<usize>)
    requires
        g.wf(),
        root < g.assets@.len(),
    ensures
        plan@.no_duplicates(),
        forall|x: usize|
            plan@.contains(x) <==> g.spec_reachable(root, x) && strictly_contains(
                output_dir@,
                g.assets@[x as int].path@,
            ),
{
    let aggregated = aggregate(g, root);
    proof {
        assert forall|j: int| 0 <= j < aggregated.leaves().len() implies (
        #[trigger] aggregated.leaves()[j]) < g.assets@.len() by {
            assert(aggregated.leaves().contains(aggregated.leaves()[j]));
        }
    }
    emit_aggregated_assets(g, &aggregated, output_dir)
}

/// Walks an aggregated hierarchy and plans a write for each leaf lying
/// inside the output directory.
fn emit_aggregated_assets(g: &AssetGraph, aggregated: &AggregatedGraphNode, output_dir: &FsPath)
    -> (plan: Vec<usize>)
    requires
        g.wf(),
        aggregated.leaves().no_duplicates(),
        forall|j: int|
            0 <= j < aggregated.leaves().len() ==> (#[trigger] aggregated.leaves()[j])
                < g.assets@.len(),
    ensures
        plan@.no_duplicates(),
        forall|x: usize|
            plan@.contains(x) <==> aggregated.leaves().contains(x) && strictly_contains(
                output_dir@,
                g.assets@[x as int].path@,
            ),
    decreases *aggregated,
{
    broadcast use vstd::seq_lib::group_seq_properties;

    match aggregated {
        AggregatedGraphNode::Asset(a) => {
            let a = *a;
            proof {
                assert(aggregated.leaves() =~= seq![a]);
                assert(aggregated.leaves()[0] == a);
                assert(a < g.assets@.len());
            }
            let mut plan: Vec<usize> = Vec::new();
            match emit_asset_into_dir(g, a, output_dir) {
                Some(_) => {
                    plan.push(a);
                    proof {
                        assert(plan@ =~= seq![a]);
                        assert forall|x: usize| plan@.contains(x) <==> aggregated
                            .leaves().contains(x) && strictly_contains(
                            output_dir@,
                            g.assets@[x as int].path@,
                        ) by {
                            if aggregated.leaves().contains(x) {
                                assert(x == a);
                            }
                            if plan@.contains(x) {
                                assert(x == a);
                            }
                        }
                    }
                },
                None => {
                    proof {
                        assert forall|x: usize| plan@.contains(x) <==> aggregated
                            .leaves().contains(x) && strictly_contains(
                            output_dir@,
                            g.assets@[x as int].path@,
                        ) by {
                            if aggregated.leaves().contains(x) {
                                assert(x == a);
                            }
                        }
                    }
                },
            }
            plan
        },
        AggregatedGraphNode::Children(left, right) => {
            let ghost all = aggregated.leaves();
            let ghost ll = (*left).leaves();
            let ghost rl = (*right).leaves();
            proof {
                assert(all == ll + rl);
                assert forall|j: int| 0 <= j < ll.len() implies (#[trigger] ll[j])
                    < g.assets@.len() by {
                    assert(all[j] == ll[j]);
                }
                assert forall|j: int| 0 <= j < rl.len() implies (#[trigger] rl[j])
                    < g.assets@.len() by {
                    assert(all[ll.len() + j] == rl[j]);
                }
                assert(ll.no_duplicates() && rl.no_duplicates()) by {
                    assert(forall|j: int| 0 <= j < ll.len() ==> all[j] == ll[j]);
                    assert(forall|j: int| 0 <= j < rl.len() ==> all[ll.len() + j] == rl[j]);
                }
            }
            let mut plan = emit_aggregated_assets(g, left, output_dir);
            let mut rest = emit_aggregated_assets(g, right, output_dir);
            let ghost pl = plan@;
            let ghost pr = rest@;
            plan.append(&mut rest);
            proof {
                assert(plan@ == pl + pr);
                assert forall|i: int, j: int|
                    0 <= i < pl.len() && 0 <= j < pr.len() implies pl[i] != pr[j] by {
                    assert(pl.contains(pl[i]) && pr.contains(pr[j]));
                    if pl[i] == pr[j] {
                        let u = choose|u: int| 0 <= u < ll.len() && ll[u] == pl[i];
                        let w = choose|w: int| 0 <= w < rl.len() && rl[w] == pr[j];
                        assert(all[u] == pl[i]);
                        assert(all[ll.len() + w] == pr[j]);
                    }
                }
                vstd::seq_lib::lemma_no_dup_in_concat(pl, pr);
                assert forall|x: usize| plan@.contains(x) <==> all.contains(x)
                    && strictly_contains(output_dir@, g.assets@[x as int].path@) by {
                    if plan@.contains(x) {
                        let k = choose|k: int| 0 <= k < plan@.len() && plan@[k] == x;
                        if k < pl.len() {
                            assert(pl.contains(x));
                            let u = choose|u: int| 0 <= u < ll.len() && ll[u] == x;
                            assert(all[u] == x);
                        } else {
                            assert(pr[k - pl.len()] == x);
                            assert(pr.contains(x));
                            let u = choose|u: int| 0 <= u < rl.len() && rl[u] == x;
                            assert(all[ll.len() + u] == x);
                        }
                    }
                    if all.contains(x) && strictly_contains(output_dir@, g.assets@[x as int].path@)
                    {
                        let k = choose|k: int| 0 <= k < all.len() && all[k] == x;
                        if k < ll.len() {
                            assert(ll[k] == x);
                            assert(ll.contains(x));
                            assert(pl.contains(x));
                            let m = choose|m: int| 0 <= m < pl.len() && pl[m] == x;
                            assert(plan@[m] == x);
                        } else {
                            assert(rl[k - ll.len()] == x);
                            assert(rl.contains(x));
                            assert(pr.contains(x));
                            let m = choose|m: int| 0 <= m < pr.len() && pr[m] == x;
                            assert(plan@[pl.len() + m] == x);
                        }
                    }
                }
            }
            plan
        },
    }
}

} // verus!
