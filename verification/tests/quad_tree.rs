use world_scene::quad_tree::QuadTree;
use world_scene::terrain::ChunkCoord;

fn leaves(tree: &QuadTree) -> Vec<ChunkCoord> {
    let mut out = Vec::new();
    for id in 0..tree.len() {
        let n = tree.node(id).unwrap();
        if n.is_leaf {
            out.push(n.chunk_coord.unwrap());
        }
    }
    out
}

#[test]
fn single_chunk_is_a_leaf() {
    let tree = QuadTree::from_chunk_grid(1, 1);
    assert_eq!(tree.len(), 1);
    let root = tree.node(tree.root_id()).unwrap();
    assert!(root.is_leaf);
    assert_eq!(root.chunk_coord, Some(ChunkCoord { x: 0, y: 0 }));
    assert_eq!(tree.max_level(), 0);
}

#[test]
fn two_by_two_grid() {
    let tree = QuadTree::from_chunk_grid(2, 2);
    assert_eq!(tree.len(), 5);
    assert_eq!(tree.root_id(), 4);
    let root = tree.node(4).unwrap();
    assert!(!root.is_leaf);
    assert_eq!(root.chunk_coord, None);
    assert_eq!(root.children, [Some(0), Some(1), Some(2), Some(3)]);
    // Top-left, top-right, bottom-left, bottom-right.
    assert_eq!(tree.node(0).unwrap().chunk_coord, Some(ChunkCoord { x: 0, y: 1 }));
    assert_eq!(tree.node(1).unwrap().chunk_coord, Some(ChunkCoord { x: 1, y: 1 }));
    assert_eq!(tree.node(2).unwrap().chunk_coord, Some(ChunkCoord { x: 0, y: 0 }));
    assert_eq!(tree.node(3).unwrap().chunk_coord, Some(ChunkCoord { x: 1, y: 0 }));
    assert_eq!(tree.node(0).unwrap().level, 1);
    assert_eq!(tree.max_level(), 1);
    assert!(tree.node(5).is_none());
}

#[test]
fn every_chunk_has_a_leaf() {
    let tree = QuadTree::from_chunk_grid(5, 3);
    let l = leaves(&tree);
    for y in 0..3 {
        for x in 0..5 {
            assert!(l.contains(&ChunkCoord { x, y }));
        }
    }
    assert!(tree.max_level() >= 3);
}

#[test]
fn thin_grid_repeats_edge_leaves() {
    let tree = QuadTree::from_chunk_grid(2, 1);
    let l = leaves(&tree);
    assert_eq!(l.len(), 4);
    assert_eq!(l.iter().filter(|c| **c == ChunkCoord { x: 0, y: 0 }).count(), 2);
}

#[test]
fn frustum_walk_visits_parents_before_quadrants() {
    let tree = QuadTree::from_chunk_grid(2, 2);
    assert_eq!(tree.with_nodes_in_frustum(&vec![true; 5]), vec![4, 0, 1, 2, 3]);
    assert_eq!(tree.with_nodes_in_frustum(&vec![false, false, true, false, true]), vec![4, 2]);
}

#[test]
fn frustum_walk_skips_subtree_of_hidden_node() {
    let tree = QuadTree::from_chunk_grid(2, 2);
    assert_eq!(tree.with_nodes_in_frustum(&vec![true, true, true, true, false]), Vec::<usize>::new());
    // Ids past the end of the flags count as outside the frustum.
    assert_eq!(tree.with_nodes_in_frustum(&vec![true; 3]), Vec::<usize>::new());
}

#[test]
fn frustum_walk_of_deeper_tree() {
    let tree = QuadTree::from_chunk_grid(4, 4);
    let all = tree.with_nodes_in_frustum(&vec![true; tree.len()]);
    assert_eq!(all.len(), tree.len());
    assert_eq!(all[0], tree.root_id());
}

#[test]
fn node_ids_are_dense() {
    let tree = QuadTree::from_chunk_grid(3, 5);
    for id in 0..tree.len() {
        assert!(tree.node(id).is_some());
    }
    assert!(tree.node(tree.len()).is_none());
}
