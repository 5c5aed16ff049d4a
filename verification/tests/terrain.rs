use world_scene::terrain_indices::index_ranges;
use world_scene::terrain::{
    build_draw_commands, build_terrain_snapshot, ChunkCoord, TerrainChunk, VisibleChunk,
};
use world_scene::terrain_indices::{
    generate_strata_indices, generate_strata_vertices, strata_draw_range, ChunkIndices,
};

fn c(x: i32, y: i32) -> ChunkCoord {
    ChunkCoord { x, y }
}

fn visible(x: i32, y: i32, lod: u32, n: [Option<u32>; 4]) -> VisibleChunk {
    VisibleChunk { coord: c(x, y), lod, neighbor_lods: n }
}

#[test]
fn chunk_indices_layout() {
    let ci = ChunkIndices::generate();
    assert_eq!(ci.indices.len(), 510);
    assert_eq!(ci.wireframe_indices.len(), 680);
    assert_eq!(&ci.indices[0..6], &[0, 1, 10, 10, 9, 0]);
    assert_eq!(&ci.wireframe_indices[0..8], &[0, 1, 1, 10, 10, 9, 9, 0]);
    // Level 1 starts at 384 with a cell of the same node stride.
    assert_eq!(&ci.indices[384..390], &[0, 1, 10, 10, 9, 0]);
    // Last level: a single cell.
    assert_eq!(&ci.indices[504..510], &[0, 1, 10, 10, 9, 0]);
    assert!(ci.indices.iter().all(|&i| i < 81));
    // Second cell of the first row of level 0.
    assert_eq!(&ci.indices[6..12], &[1, 2, 11, 11, 10, 1]);
}

#[test]
fn strata_indices_layout() {
    let s = generate_strata_indices();
    assert_eq!(s.len(), 152);
    assert_eq!(&s[0..4], &[0, 1, 2, 3]);
    assert_eq!(&s[16..18], &[16, 17]);
    assert_eq!(&s[18..20], &[18, 19]);
    // lod 1 starts at 72 with steps of 4.
    assert_eq!(&s[72..82], &[0, 1, 4, 5, 8, 9, 12, 13, 16, 17]);
    // lod 3, side 3.
    assert_eq!(&s[148..152], &[54, 55, 70, 71]);
}

#[test]
fn strata_draw_ranges() {
    assert_eq!(strata_draw_range(0, 0), 0..18);
    assert_eq!(strata_draw_range(0, 3), 54..72);
    assert_eq!(strata_draw_range(1, 1), 82..92);
    assert_eq!(strata_draw_range(2, 2), 124..130);
    assert_eq!(strata_draw_range(3, 3), 148..152);
    let s = generate_strata_indices();
    let r = strata_draw_range(1, 2);
    assert_eq!(&s[r.start as usize..r.end as usize], &[36, 37, 40, 41, 44, 45, 48, 49, 52, 53]);
}

#[test]
fn strata_vertices() {
    let v = generate_strata_vertices();
    assert_eq!(v.len(), 72);
    assert_eq!((v[0].side, v[0].node_x, v[0].node_y), (0, 0, 0));
    assert_eq!((v[3].side, v[3].node_x, v[3].node_y), (0, 1, 0));
    assert_eq!((v[18].side, v[18].node_x, v[18].node_y), (1, 8, 0));
    assert_eq!((v[36].side, v[36].node_x, v[36].node_y), (2, 8, 8));
    assert_eq!((v[71].side, v[71].node_x, v[71].node_y), (3, 0, 0));
}

#[test]
fn snapshot_flags_and_strata() {
    let vis = vec![
        visible(0, 0, 2, [Some(3), Some(1), None, Some(2)]),
        visible(1, 1, 0, [None, Some(1), None, Some(0)]),
        visible(3, 3, 1, [None, None, Some(2), None]),
    ];
    let highlighted = vec![c(1, 1)];
    let snap = build_terrain_snapshot(&vis, &highlighted, 4, 4);
    let lods: Vec<u32> = snap.chunks.iter().map(|ch| ch.lod).collect();
    assert_eq!(lods, vec![0, 1, 2]);
    assert_eq!(snap.chunks[0], TerrainChunk { coord: c(1, 1), lod: 0, flags: 0x8000 | 0b10 });
    assert_eq!(snap.chunks[1], TerrainChunk { coord: c(3, 3), lod: 1, flags: 0b100 });
    assert_eq!(snap.chunks[2], TerrainChunk { coord: c(0, 0), lod: 2, flags: 0b1 });
    // (0, 0): east and south; (3, 3): west and north.
    assert_eq!(snap.strata_side_count, [1, 1, 1, 1]);
    let sides: Vec<u32> = snap.strata.iter().map(|s| (s.flags >> 8) & 3).collect();
    assert_eq!(sides, vec![0, 1, 2, 3]);
    assert_eq!(snap.strata[0], TerrainChunk { coord: c(0, 0), lod: 2, flags: 0b1 });
    assert_eq!(snap.strata[3], TerrainChunk { coord: c(0, 0), lod: 2, flags: 0b1 | (3 << 8) });
    assert_eq!(snap.strata[1].coord, c(3, 3));
    assert_eq!(snap.strata[1].flags, 0b100 | (1 << 8));
}

#[test]
fn snapshot_of_nothing() {
    let snap = build_terrain_snapshot(&vec![], &vec![], 4, 4);
    assert!(snap.chunks.is_empty());
    assert!(snap.strata.is_empty());
    assert_eq!(snap.strata_side_count, [0; 4]);
}

#[test]
fn draw_commands_per_level() {
    let chunk = |lod| TerrainChunk { coord: c(0, 0), lod, flags: 0 };
    let chunks = vec![chunk(0), chunk(0), chunk(2), chunk(3), chunk(7)];
    let ranges = [0..384, 384..480, 480..504, 504..510];
    let cmds = build_draw_commands(&chunks, &ranges);
    assert_eq!(cmds[0], (0..384, 0..2));
    assert_eq!(cmds[1], (384..480, 2..2));
    assert_eq!(cmds[2], (480..504, 2..3));
    assert_eq!(cmds[3], (504..510, 3..5));
}

#[test]
fn index_ranges_follow_the_level_layout() {
    assert_eq!(index_ranges(false), [0..384, 384..480, 480..504, 504..510]);
    assert_eq!(index_ranges(true), [0..512, 512..640, 640..672, 672..680]);
}
