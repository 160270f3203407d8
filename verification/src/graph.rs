//! The aggregated graph engine.
//!
//! The asset reference graph may be cyclic and highly shared. The engine
//! collects every asset reachable from a root exactly once — an explicit
//! visited set stands in for the substrate's call deduplication, so
//! cycles terminate — and regroups them into a balanced hierarchy whose
//! leaves are exactly the reachable assets: aggregation reorganizes
//! reachability, it never drops or duplicates it.

use vstd::prelude::*;
use crate::paths::FsPath;

verus! {

/// One asset of the reference graph: its path, its interned content, and
/// the assets it references, by index.
#[derive(Debug, Clone, PartialEq, Eq)]
pub struct AssetNode {
    pub path: FsPath,
    pub content: u64,
    pub references: Vec<usize>,
}

/// A snapshot of the asset reference graph; indices are asset identities.
#[derive(Debug, Clone, PartialEq, Eq)]
pub struct AssetGraph {
    pub assets: Vec<AssetNode>,
}

impl AssetGraph {
    /// Every reference points at an asset of the graph.
    pub open spec fn wf(self) -> bool {
        forall|i: int, j: int|
            0 <= i < self.assets@.len() && 0 <= j < self.assets@[i].references@.len()
                ==> (#[trigger] self.assets@[i].references@[j]) < self.assets@.len()
    }

    /// Asset `a` directly references asset `b`.
    pub open spec fn spec_edge(self, a: usize, b: usize) -> bool {
        a < self.assets@.len() && self.assets@[a as int].references@.contains(b)
    }

    /// `w` is a chain of direct references through the graph.
    pub open spec fn is_walk(self, w: Seq<usize>) -> bool {
        &&& w.len() > 0
        &&& forall|k: int| 0 <= k < w.len() ==> (#[trigger] w[k]) < self.assets@.len()
        &&& forall|k: int| 0 <= k < w.len() - 1 ==> self.spec_edge(#[trigger] w[k], w[k + 1])
    }

    /// Asset `x` is reachable from `root` through direct and transitive
    /// references; every asset reaches itself.
    pub open spec fn spec_reachable(self, root: usize, x: usize) -> bool {
        exists|w: Seq<usize>| self.is_walk(w) && w.first() == root && w.last() == x
    }
}

/// Every asset of a well-formed graph reaches itself.
proof fn lemma_reachable_self(g: AssetGraph, v: usize)
    requires
        v < g.assets@.len(),
    ensures
        g.spec_reachable(v, v),
{
    let w = seq![v];
    assert(g.is_walk(w) && w.first() == v && w.last() == v);
}

/// Reachability extends along a direct reference.
proof fn lemma_reachable_step(g: AssetGraph, root: usize, v: usize, b: usize)
    requires
        g.spec_reachable(root, v),
        g.spec_edge(v, b),
        b < g.assets@.len(),
    ensures
        g.spec_reachable(root, b),
{
    let w = choose|w: Seq<usize>| g.is_walk(w) && w.first() == root && w.last() == v;
    let w2 = w.push(b);
    assert(w2.first() == root && w2.last() == b);
    assert forall|k: int| 0 <= k < w2.len() - 1 implies g.spec_edge(#[trigger] w2[k], w2[k + 1]) by {
        if k < w.len() - 1 {
            assert(w2[k] == w[k] && w2[k + 1] == w[k + 1]);
        } else {
            assert(w2[k] == w.last() && w2[k + 1] == b);
        }
    }
    assert(g.is_walk(w2));
}

/// Every walk that starts inside a reference-closed set of assets ends
/// inside it.
proof fn lemma_closed_set_holds_walks(g: AssetGraph, nodes: Seq<usize>, w: Seq<usize>)
    requires
        g.is_walk(w),
        nodes.contains(w.first()),
        forall|v: usize, b: usize|
            nodes.contains(v) && #[trigger] g.spec_edge(v, b) ==> nodes.contains(b),
    ensures
        nodes.contains(w.last()),
    decreases w.len(),
{
    if w.len() > 1 {
        let prefix = w.drop_last();
        assert(g.is_walk(prefix));
        lemma_closed_set_holds_walks(g, nodes, prefix);
        assert(g.spec_edge(w[w.len() - 2], w[w.len() - 1]));
    }
}

/// A sequence of pairwise distinct assets below `n` holds at most `n`
/// assets.
proof fn lemma_bounded_distinct_len(s: Seq<usize>, n: nat)
    requires
        s.no_duplicates(),
        forall|j: int| 0 <= j < s.len() ==> (#[trigger] s[j]) < n,
    ensures
        s.len() <= n,
{
    broadcast use vstd::seq_lib::group_seq_properties;
    broadcast use vstd::set::group_set_axioms;

    let f = |x: usize| x as int;
    let si = s.map_values(f);
    assert(si.no_duplicates()) by {
        assert forall|i: int, j: int| 0 <= i < si.len() && 0 <= j < si.len() && i != j
            implies si[i] != si[j] by {
            assert(s[i] != s[j]);
        }
    }
    si.unique_seq_to_set();
    assert(si.to_set().subset_of(vstd::set_lib::set_int_range(0, n as int))) by {
        assert forall|x: int| si.to_set().contains(x) implies vstd::set_lib::set_int_range(
            0,
            n as int,
        ).contains(x) by {
            let j = choose|j: int| 0 <= j < si.len() && si[j] == x;
            assert(s[j] < n);
        }
    }
    vstd::set_lib::lemma_int_range(0, n as int);
    vstd::set_lib::lemma_len_subset(si.to_set(), vstd::set_lib::set_int_range(0, n as int));
}

impl AssetGraph {
    /// Every asset reachable from `root`, each exactly once. The visited
    /// set makes the traversal terminate on cyclic and shared graphs.
    pub fn reachable_assets(&self, root: usize) -> (r: Vec<usize>)
        requires
            self.wf(),
            root < self.assets@.len(),
        ensures
            r@.no_duplicates(),
            forall|x: usize| r@.contains(x) <==> self.spec_reachable(root, x),
            r@.len() > 0,
    {
        broadcast use vstd::seq_lib::group_seq_properties;

        let n = self.assets.len();
        let mut visited: Vec<bool> = Vec::new();
        let mut i: usize = 0;
        while i < n
            invariant
                i <= n,
                visited@.len() == i,
                forall|j: int| 0 <= j < i ==> !visited@[j],
            decreases n - i,
        {
            visited.push(false);
            i = i + 1;
        }
        let mut order: Vec<usize> = Vec::new();
        let mut queue: Vec<usize> = Vec::new();
        visited.set(root, true);
        order.push(root);
        queue.push(root);
        proof {
            lemma_reachable_self(*self, root);
            assert(order@[0] == root && order@.len() == 1);
            assert(order@.contains(root));
            assert forall|x: usize| x < n implies (visited@[x as int] <==> order@.contains(
                x,
            )) by {
                if order@.contains(x) {
                    let j = choose|j: int| 0 <= j < order@.len() && order@[j] == x;
                    assert(x == root);
                }
            }
        }
        while queue.len() > 0
            invariant
                self.wf(),
                root < n,
                n == self.assets@.len(),
                visited@.len() == n,
                order@.len() <= n,
                order@.no_duplicates(),
                order@.contains(root),
                forall|j: int| 0 <= j < order@.len() ==> (#[trigger] order@[j]) < n,
                forall|x: usize| x < n ==> (visited@[x as int] <==> order@.contains(x)),
                forall|j: int| 0 <= j < queue@.len() ==> order@.contains(#[trigger] queue@[j]),
                forall|j: int|
                    0 <= j < order@.len() ==> self.spec_reachable(root, #[trigger] order@[j]),
                forall|v: usize, b: usize|
                    order@.contains(v) && !queue@.contains(v) && #[trigger] self.spec_edge(v, b)
                        ==> order@.contains(b),
            decreases n - order@.len(), queue@.len(),
        {
            broadcast use vstd::seq_lib::group_seq_properties;

            let ghost order_at_pop = order@;
            let ghost queue_before = queue@;
            let popped = queue.pop();
            let v = match popped {
                Some(v) => v,
                None => {
                    proof {
                        assert(false);
                    }
                    root
                },
            };
            let ghost queue_after_pop = queue@;
            proof {
                assert(queue_before.contains(v));
                assert(order@.contains(v));
                assert forall|w: usize, b: usize|
                    order@.contains(w) && !queue@.contains(w) && w != v && #[trigger] self
                        .spec_edge(w, b) implies order@.contains(b) by {
                    if queue_before.contains(w) {
                        let k = choose|k: int|
                            0 <= k < queue_before.len() && queue_before[k] == w;
                        if k < queue_before.len() - 1 {
                            assert(queue@[k] == w);
                        }
                        assert(false);
                    }
                }
            }
            let edge_count = self.assets[v].references.len();
            let mut e: usize = 0;
            while e < edge_count
                invariant
                    self.wf(),
                    root < n,
                    n == self.assets@.len(),
                    v < n,
                    edge_count == self.assets@[v as int].references@.len(),
                    e <= edge_count,
                    visited@.len() == n,
                    order@.len() <= n,
                    order@.no_duplicates(),
                    order@.contains(root),
                    order@.contains(v),
                    forall|j: int| 0 <= j < order@.len() ==> (#[trigger] order@[j]) < n,
                    forall|x: usize| x < n ==> (visited@[x as int] <==> order@.contains(x)),
                    forall|j: int|
                        0 <= j < queue@.len() ==> order@.contains(#[trigger] queue@[j]),
                    forall|j: int|
                        0 <= j < order@.len() ==> self.spec_reachable(
                            root,
                            #[trigger] order@[j],
                        ),
                    forall|w: usize, b: usize|
                        order@.contains(w) && !queue@.contains(w) && w != v
                            && #[trigger] self.spec_edge(w, b) ==> order@.contains(b),
                    forall|j: int|
                        0 <= j < e ==> order@.contains(
                            #[trigger] self.assets@[v as int].references@[j],
                        ),
                    order_at_pop.len() <= order@.len(),
                    order@.len() - order_at_pop.len() == queue@.len() - queue_after_pop.len(),
                    queue_after_pop.len() <= queue@.len(),
                decreases edge_count - e,
            {
                broadcast use vstd::seq_lib::group_seq_properties;

                let b = self.assets[v].references[e];
                assert(self.spec_edge(v, b)) by {
                    assert(self.assets@[v as int].references@[e as int] == b);
                }
                if !visited[b] {
                    visited.set(b, true);
                    order.push(b);
                    queue.push(b);
                    proof {
                        lemma_reachable_step(*self, root, v, b);
                        lemma_bounded_distinct_len(order@, n as nat);
                    }
                }
                e = e + 1;
            }
            proof {
                if order@.len() == order_at_pop.len() {
                    assert(queue@.len() == queue_after_pop.len());
                    assert(queue@.len() < queue_before.len());
                }
            }
        }
        proof {
            assert forall|x: usize| self.spec_reachable(root, x) implies order@.contains(
                x,
            ) by {
                let w = choose|w: Seq<usize>|
                    self.is_walk(w) && w.first() == root && w.last() == x;
                lemma_closed_set_holds_walks(*self, order@, w);
            }
        }
        order
    }
}

/// A node of the aggregated hierarchy: a single asset at the bottom, or
/// an ordered pair of subhierarchies.
#[derive(Debug, PartialEq, Eq)]
pub enum AggregatedGraphNode {
    Asset(usize),
    Children(Box<AggregatedGraphNode>, Box<AggregatedGraphNode>),
}

impl AggregatedGraphNode {
    /// The assets at the bottom of this hierarchy, left to right.
    pub open spec fn leaves(self) -> Seq<usize>
        decreases self,
    {
        match self {
            AggregatedGraphNode::Asset(a) => seq![a],
            AggregatedGraphNode::Children(l, r) => (*l).leaves() + (*r).leaves(),
        }
    }
}

/// A balanced hierarchy over `ids[lo..hi]`, leaves in order.
fn build_tree(ids: &Vec<usize>, lo: usize, hi: usize) -> (t: AggregatedGraphNode)
    requires
        lo < hi <= ids@.len(),
    ensures
        t.leaves() == ids@.subrange(lo as int, hi as int),
    decreases hi - lo,
{
    if hi - lo == 1 {
        let t = AggregatedGraphNode::Asset(ids[lo]);
        assert(t.leaves() =~= ids@.subrange(lo as int, hi as int));
        t
    } else {
        let mid = lo + (hi - lo) / 2;
        let left = build_tree(ids, lo, mid);
        let right = build_tree(ids, mid, hi);
        let t = AggregatedGraphNode::Children(Box::new(left), Box::new(right));
        assert(t.leaves() =~= ids@.subrange(lo as int, hi as int)) by {
            assert(ids@.subrange(lo as int, mid as int) + ids@.subrange(mid as int, hi as int)
                =~= ids@.subrange(lo as int, hi as int));
        }
        t
    }
}

/// Aggregates the reference graph rooted at `root` into a hierarchy whose
/// leaves are exactly the assets reachable from `root`, each exactly
/// once, however many paths reach them and whatever cycles the graph
/// holds.
pub fn aggregate(g: &AssetGraph, root: usize) -> (t: AggregatedGraphNode)
    requires
        g.wf(),
        root < g.assets@.len(),
    ensures
        t.leaves().no_duplicates(),
        forall|x: usize| t.leaves().contains(x) <==> g.spec_reachable(root, x),
        forall|x: usize| t.leaves().contains(x) ==> x < g.assets@.len(),
{
    let ids = g.reachable_assets(root);
    let t = build_tree(&ids, 0, ids.len());
    proof {
        assert(ids@.subrange(0, ids@.len() as int) =~= ids@);
    }
    t
}

} // verus!
