use world_scene::batches::build_batches;
use world_scene::capacity::{grown_capacity, next_pow2, InstanceCapacities};
use world_scene::gizmos::{EntityGizmos, GizmoRenderSnapshot, GizmosBatch};
use world_scene::height_map::{GridSize, HeightMap, Resolution};
use world_scene::node_grid::NodeGrid;
use world_scene::pcx::Data;
use world_scene::storage::Storage;
use world_scene::terrain::ChunkCoord;

#[test]
fn batches_group_runs() {
    let batches = build_batches(&vec![3, 3, 5, 7, 7, 7, 3]);
    let got: Vec<(usize, u32, u32)> =
        batches.iter().map(|b| (b.render_model, b.range.start, b.range.end)).collect();
    assert_eq!(got, vec![(3, 0, 2), (5, 2, 3), (7, 3, 6), (3, 6, 7)]);
    assert!(build_batches(&vec![]).is_empty());
}

#[test]
fn capacity_grows_to_power_of_two() {
    assert_eq!(next_pow2(1), 1);
    assert_eq!(next_pow2(129), 256);
    assert_eq!(next_pow2(256), 256);
    assert_eq!(grown_capacity(128, 100), None);
    assert_eq!(grown_capacity(128, 128), None);
    assert_eq!(grown_capacity(128, 129), Some(256));
    let mut caps = InstanceCapacities::new();
    assert_eq!(caps.ensure_terrain_chunk_instance_capacity(300), Some(512));
    assert_eq!(caps.terrain_chunk_instances, 512);
    assert_eq!(caps.ensure_terrain_chunk_instance_capacity(300), None);
    assert_eq!(caps.ensure_strata_instance_capacity(5), None);
    assert_eq!(caps.ensure_gizmo_vertices_capacity(1025), Some(2048));
    assert_eq!(caps.strata_instances, 128);
}

#[test]
fn storage_hands_out_handles_in_order() {
    let mut s: Storage<&str> = Storage::new();
    let a = s.insert("a");
    let b = s.insert("b");
    assert_eq!(a.index(), 0);
    assert_eq!(b.index(), 1);
    assert_eq!(s.get(a), Some(&"a"));
    assert_eq!(s.get(b), Some(&"b"));
    *s.get_mut(a).unwrap() = "c";
    assert_eq!(s.get(a), Some(&"c"));
    assert_eq!(s.get(b), Some(&"b"));
    assert_eq!(s.len(), 2);
    let missing = world_scene::storage::Handle::<&str>::from_index(5);
    assert_eq!(s.get(missing), None);
    assert!(s.get_mut(missing).is_none());
}

#[test]
fn gizmos_batch_take_empties() {
    let mut g: EntityGizmos<u32> = EntityGizmos::new();
    g.push(1);
    g.push(2);
    assert!(!g.is_empty());
    let mut batch: GizmosBatch<u32> = GizmosBatch::new();
    batch.extend(g.vertices().iter().map(|v| v * 10).collect());
    g.clear();
    assert!(g.is_empty());
    batch.extend(vec![3]);
    assert_eq!(batch.take(), vec![10, 20, 3]);
    assert_eq!(batch.take(), Vec::<u32>::new());
}

#[test]
fn height_map_grid() {
    let map = HeightMap::from_data(Data { width: 17, height: 9, data: (0..153u32).collect() });
    assert_eq!(map.chunks(), GridSize { x: 2, y: 1 });
    assert_eq!(map.node_index(3, 2), 37);
    assert_eq!(map.node_index(40, 40), 152);
    assert_eq!(map.elevation(3, 2), 37);
    assert_eq!(HeightMap::chunk_origin(2, 3), GridSize { x: 16, y: 24 });
}

#[test]
fn chunk_mesh_at_each_resolution() {
    let m = HeightMap::generate_chunk(GridSize { x: 8, y: 16 }, Resolution::Zero);
    assert_eq!(
        m.vertices,
        vec![
            GridSize { x: 8, y: 16 },
            GridSize { x: 16, y: 16 },
            GridSize { x: 8, y: 24 },
            GridSize { x: 16, y: 24 }
        ]
    );
    assert_eq!(m.indices, vec![0, 1, 2, 1, 3, 2]);
    let m = HeightMap::generate_chunk(GridSize { x: 0, y: 0 }, Resolution::Three);
    assert_eq!(m.vertices.len(), 81);
    assert_eq!(m.indices.len(), 384);
    assert_eq!(&m.indices[6..12], &[1, 2, 10, 2, 11, 10]);
    assert!(m.indices.iter().all(|&i| i < 81));
    let m = HeightMap::generate_chunk(GridSize { x: 0, y: 0 }, Resolution::One);
    assert_eq!(m.vertices[2], GridSize { x: 8, y: 0 });
    assert_eq!(m.indices.len(), 24);
}

#[test]
fn node_grid_clamps_and_finds_edges() {
    let g = NodeGrid { size_x: 4, size_y: 3 };
    assert_eq!(g.node_index(ChunkCoord { x: -2, y: 1 }), 4);
    assert_eq!(g.node_index(ChunkCoord { x: 9, y: 9 }), 11);
    assert!(g.is_edge(0, 1));
    assert!(g.is_edge(3, 1));
    assert!(!g.is_edge(1, 1));
    let n = g.neighbors(1, 1);
    assert_eq!(n[0], ChunkCoord { x: 1, y: 2 });
    assert_eq!(n[1], ChunkCoord { x: 0, y: 1 });
    assert_eq!(n[2], ChunkCoord { x: 1, y: 0 });
    assert_eq!(n[3], ChunkCoord { x: 2, y: 1 });
}

#[test]
fn gizmo_snapshot_starts_empty() {
    let mut snapshot: GizmoRenderSnapshot<u32> = GizmoRenderSnapshot::default();
    assert!(snapshot.vertices.is_empty());
    let mut batch: GizmosBatch<u32> = GizmosBatch::new();
    batch.extend(vec![7, 8]);
    snapshot.vertices = batch.take();
    assert_eq!(snapshot.vertices, vec![7, 8]);
    assert!(batch.take().is_empty());
}
