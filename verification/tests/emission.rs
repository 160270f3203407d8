use bundler_core::paths::FsPath;
use bundler_core::graph::AssetGraph;
use bundler_core::graph::AssetNode;
use bundler_core::emit::emit;
use bundler_core::emit::emit_asset;
use bundler_core::emit::emit_asset_into_dir;
use bundler_core::emit::emit_with_completion;

// Path segment names used below: 1 = "out", 2 = "a.js", 3 = "tmp",
// 4 = "b.js".

fn path(segments: Vec<u64>) -> FsPath {
    FsPath::from_segments(segments)
}

fn two_asset_graph() -> AssetGraph {
    AssetGraph {
        assets: vec![
            AssetNode { path: path(vec![1, 2]), content: 100, references: vec![1] },
            AssetNode { path: path(vec![3, 4]), content: 101, references: vec![] },
        ],
    }
}

#[test]
fn scoped_emission_writes_only_inside_the_output_directory() {
    let g = two_asset_graph();
    let plan = emit_with_completion(&g, 0, &path(vec![1]));
    assert_eq!(plan, vec![0]);
}

#[test]
fn full_emission_writes_every_reachable_asset() {
    let g = two_asset_graph();
    let mut plan = emit(&g, 0);
    plan.sort();
    assert_eq!(plan, vec![0, 1]);
}

#[test]
fn cyclic_emission_writes_each_asset_once() {
    let g = AssetGraph {
        assets: vec![
            AssetNode { path: path(vec![1, 2]), content: 1, references: vec![1] },
            AssetNode { path: path(vec![1, 4]), content: 2, references: vec![0] },
        ],
    };
    let mut plan = emit(&g, 0);
    plan.sort();
    assert_eq!(plan, vec![0, 1]);
}

#[test]
fn emit_asset_writes_content_to_its_own_path() {
    let g = two_asset_graph();
    let action = emit_asset(&g, 1);
    assert_eq!(action.path, path(vec![3, 4]));
    assert_eq!(action.content, 101);
}

#[test]
fn emit_asset_into_dir_skips_outside_paths() {
    let g = two_asset_graph();
    let kept = emit_asset_into_dir(&g, 0, &path(vec![1]));
    assert!(kept.is_some());
    assert_eq!(kept.unwrap().content, 100);
    let skipped = emit_asset_into_dir(&g, 1, &path(vec![1]));
    assert!(skipped.is_none());
}

#[test]
fn root_path_parent_stays_root() {
    let root = path(vec![]);
    assert_eq!(root.parent(), path(vec![]));
    let file = path(vec![1, 2]);
    assert_eq!(file.parent(), path(vec![1]));
}

#[test]
fn containment_is_strict() {
    let dir = path(vec![1]);
    assert!(path(vec![1, 2]).is_inside(&dir));
    assert!(!path(vec![1]).is_inside(&dir));
    assert!(!path(vec![2, 1]).is_inside(&dir));
    assert!(path(vec![1, 2, 3]).is_inside(&dir));
}
