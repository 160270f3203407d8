use bundler_core::paths::FsPath;
use bundler_core::graph::AggregatedGraphNode;
use bundler_core::graph::AssetGraph;
use bundler_core::graph::AssetNode;
use bundler_core::graph::aggregate;
use bundler_core::references::ReferencesEntry;
use bundler_core::references::ReferencesList;
use bundler_core::references::compute_back_references;
use bundler_core::references::most_referenced;
use bundler_core::references::top_references;

fn node(path_seed: u64, references: Vec<usize>) -> AssetNode {
    AssetNode {
        path: FsPath::from_segments(vec![path_seed]),
        content: path_seed,
        references,
    }
}

fn leaves_of(tree: &AggregatedGraphNode, out: &mut Vec<usize>) {
    match tree {
        AggregatedGraphNode::Asset(a) => out.push(*a),
        AggregatedGraphNode::Children(l, r) => {
            leaves_of(l, out);
            leaves_of(r, out);
        }
    }
}

#[test]
fn diamond_aggregation_reaches_each_asset_once() {
    // 0 -> 1, 2; 1 -> 3; 2 -> 3: two paths share asset 3.
    let g = AssetGraph {
        assets: vec![
            node(10, vec![1, 2]),
            node(11, vec![3]),
            node(12, vec![3]),
            node(13, vec![]),
        ],
    };
    let tree = aggregate(&g, 0);
    let mut leaves = Vec::new();
    leaves_of(&tree, &mut leaves);
    leaves.sort();
    assert_eq!(leaves, vec![0, 1, 2, 3]);
}

#[test]
fn aggregation_skips_unreachable_assets() {
    let g = AssetGraph {
        assets: vec![node(10, vec![1]), node(11, vec![]), node(12, vec![])],
    };
    let tree = aggregate(&g, 0);
    let mut leaves = Vec::new();
    leaves_of(&tree, &mut leaves);
    leaves.sort();
    assert_eq!(leaves, vec![0, 1]);
}

#[test]
fn cyclic_graph_aggregation_terminates() {
    // 0 -> 1 -> 0: a cycle must fold, not recurse forever.
    let g = AssetGraph { assets: vec![node(10, vec![1]), node(11, vec![0])] };
    let tree = aggregate(&g, 0);
    let mut leaves = Vec::new();
    leaves_of(&tree, &mut leaves);
    leaves.sort();
    assert_eq!(leaves, vec![0, 1]);
}

fn referrers_of(list: &ReferencesList, asset: usize) -> Option<Vec<usize>> {
    for e in &list.entries {
        if e.asset == asset {
            let mut r = e.referrers.clone();
            r.sort();
            return Some(r);
        }
    }
    None
}

#[test]
fn back_references_union_shared_target() {
    // 0 references 1 and 2; 3 also references 1: the map for 1 is {0, 3}.
    let g = AssetGraph {
        assets: vec![
            node(10, vec![1, 2]),
            node(11, vec![]),
            node(12, vec![]),
            node(13, vec![1]),
        ],
    };
    let tree = AggregatedGraphNode::Children(
        Box::new(AggregatedGraphNode::Asset(0)),
        Box::new(AggregatedGraphNode::Asset(3)),
    );
    let list = compute_back_references(&g, &tree);
    assert_eq!(referrers_of(&list, 1), Some(vec![0, 3]));
    assert_eq!(referrers_of(&list, 2), Some(vec![0]));
    assert_eq!(referrers_of(&list, 0), None);
}

#[test]
fn back_references_of_a_leaf() {
    let g = AssetGraph { assets: vec![node(10, vec![1, 2]), node(11, vec![]), node(12, vec![])] };
    let list = compute_back_references(&g, &AggregatedGraphNode::Asset(0));
    assert_eq!(referrers_of(&list, 1), Some(vec![0]));
    assert_eq!(referrers_of(&list, 2), Some(vec![0]));
}

fn entry(asset: usize, referrers: Vec<usize>) -> ReferencesEntry {
    ReferencesEntry { asset, referrers }
}

fn sizes(list: &ReferencesList) -> Vec<(usize, usize)> {
    let mut v: Vec<(usize, usize)> = list
        .entries
        .iter()
        .map(|e| (e.asset, e.referrers.len()))
        .collect();
    v.sort();
    v
}

#[test]
fn top_references_keeps_the_five_largest() {
    // Seven assets with pairwise distinct referrer counts 1..=7.
    let mut rows = Vec::new();
    for t in 0..7usize {
        let referrers: Vec<usize> = (100..100 + t + 1).collect();
        rows.push(entry(t, referrers));
    }
    let expected: Vec<(usize, usize)> = vec![(2, 3), (3, 4), (4, 5), (5, 6), (6, 7)];

    let forward = ReferencesList { entries: rows.clone() };
    assert_eq!(sizes(&top_references(&forward)), expected);

    rows.reverse();
    let backward = ReferencesList { entries: rows };
    assert_eq!(sizes(&top_references(&backward)), expected);
}

#[test]
fn top_references_keeps_everything_when_few() {
    let list = ReferencesList {
        entries: vec![entry(1, vec![10]), entry(2, vec![10, 11])],
    };
    assert_eq!(sizes(&top_references(&list)), vec![(1, 1), (2, 2)]);
}

#[test]
fn most_referenced_reports_shared_asset() {
    // Both 1 and 2 reference 3; only 0 references 1 and 2.
    let g = AssetGraph {
        assets: vec![
            node(10, vec![1, 2]),
            node(11, vec![3]),
            node(12, vec![3]),
            node(13, vec![]),
        ],
    };
    let report = most_referenced(&g, 0);
    assert_eq!(referrers_of(&report, 3), Some(vec![1, 2]));
}
