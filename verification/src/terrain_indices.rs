//! Index layouts shared by every terrain chunk: the triangle and wireframe lists
//! of each level of detail, the strata skirts around the terrain edge, and the
//! draw ranges into them.
use vstd::prelude::*;

verus! {

/// Amount of cells along one side of a chunk.
pub const CELLS_PER_CHUNK: u32 = 8;
/// Amount of nodes along one side of a chunk.
pub const NODES_PER_CHUNK: u32 = 9;
/// Highest (coarsest) level of detail.
pub const LOD_MAX: u32 = 3;
/// Number of levels of detail.
pub const LOD_COUNT: usize = 4;

/// Start of the triangle indices of each level of detail in the chunk index list.
pub open spec fn index_range_start(level: int) -> int {
    if level == 0 { 0 } else if level == 1 { 384 } else if level == 2 { 480 } else if level == 3 { 504 } else { 510 }
}

/// Start of the wireframe indices of each level of detail in the wireframe list.
pub open spec fn wireframe_range_start(level: int) -> int {
    if level == 0 { 0 } else if level == 1 { 512 } else if level == 2 { 640 } else if level == 3 { 672 } else { 680 }
}

/// The index range of each level of detail in the chunk index list (or, with
/// `wire`, in the wireframe list): level `l` spans from its start to the next
/// level's start.
pub fn index_ranges(wire: bool) -> (r: [core::ops::Range<u32>; 4])
    ensures
        forall|l: int| 0 <= l < 4 ==> {
            &&& (#[trigger] r@[l]).start == if wire { wireframe_range_start(l) } else { index_range_start(l) }
            &&& r@[l].end == if wire { wireframe_range_start(l + 1) } else { index_range_start(l + 1) }
        },
{
    if wire {
        [0..512, 512..640, 640..672, 672..680]
    } else {
        [0..384, 384..480, 480..504, 504..510]
    }
}

/// Node index of `(x, y)` in the chunk's node grid.
pub open spec fn node(x: int, y: int) -> u32 {
    (y * NODES_PER_CHUNK + x) as u32
}

/// The two triangles of the cell at `(x, y)`.
pub open spec fn cell_triangles(x: int, y: int) -> Seq<u32> {
    seq![node(x, y), node(x + 1, y), node(x + 1, y + 1), node(x + 1, y + 1), node(x, y + 1), node(x, y)]
}

/// The four edges of the cell at `(x, y)` as line pairs.
pub open spec fn cell_wireframe(x: int, y: int) -> Seq<u32> {
    seq![
        node(x, y), node(x + 1, y),
        node(x + 1, y), node(x + 1, y + 1),
        node(x + 1, y + 1), node(x, y + 1),
        node(x, y + 1), node(x, y),
    ]
}

/// The cells `0..x` of row `y`, each expanded by `cell`.
pub open spec fn row_cells(y: int, x: int, wire: bool) -> Seq<u32>
    decreases x,
{
    if x <= 0 {
        seq![]
    } else {
        row_cells(y, x - 1, wire) + if wire { cell_wireframe(x - 1, y) } else { cell_triangles(x - 1, y) }
    }
}

/// The rows `0..y` of a grid of `count x count` cells.
pub open spec fn grid_cells(count: int, y: int, wire: bool) -> Seq<u32>
    decreases y,
{
    if y <= 0 {
        seq![]
    } else {
        grid_cells(count, y - 1, wire) + row_cells(y - 1, count, wire)
    }
}

/// Cells along one side of a chunk at `level`.
pub open spec fn level_cells(level: int) -> int {
    if level == 0 { 8 } else if level == 1 { 4 } else if level == 2 { 2 } else { 1 }
}

/// The lists of the levels `0..level`, one after the other.
pub open spec fn levels(level: int, wire: bool) -> Seq<u32>
    decreases level,
{
    if level <= 0 {
        seq![]
    } else {
        levels(level - 1, wire) + grid_cells(level_cells(level - 1), level_cells(level - 1), wire)
    }
}

/// The triangle and wireframe index lists of a chunk at every level of detail.
pub struct ChunkIndices {
    pub indices: Vec<u32>,
    pub wireframe_indices: Vec<u32>,
}

proof fn lemma_row_len(y: int, x: int, wire: bool)
    requires
        x >= 0,
    ensures
        row_cells(y, x, wire).len() == if wire { 8 * x } else { 6 * x },
    decreases x,
{
    if x > 0 {
        lemma_row_len(y, x - 1, wire);
    }
}

proof fn lemma_grid_len(count: int, y: int, wire: bool)
    requires
        count >= 0,
        y >= 0,
    ensures
        grid_cells(count, y, wire).len() == if wire { 8 * count * y } else { 6 * count * y },
    decreases y,
{
    if y > 0 {
        lemma_grid_len(count, y - 1, wire);
        lemma_row_len(y - 1, count, wire);
        assert(8 * count * (y - 1) + 8 * count == 8 * count * y) by (nonlinear_arith);
        assert(6 * count * (y - 1) + 6 * count == 6 * count * y) by (nonlinear_arith);
    }
}

/// Each level of detail starts where the draw ranges of the renderer expect it.
pub proof fn lemma_level_offsets(level: int)
    requires
        0 <= level <= 4,
    ensures
        levels(level, false).len() == index_range_start(level),
        levels(level, true).len() == wireframe_range_start(level),
    decreases level,
{
    if level > 0 {
        lemma_level_offsets(level - 1);
        let c = level_cells(level - 1);
        lemma_grid_len(c, c, false);
        lemma_grid_len(c, c, true);
        assert(c == 8 || c == 4 || c == 2 || c == 1);
        if c == 8 {
            assert(6 * c * c == 384 && 8 * c * c == 512);
        } else if c == 4 {
            assert(6 * c * c == 96 && 8 * c * c == 128);
        } else if c == 2 {
            assert(6 * c * c == 24 && 8 * c * c == 32);
        } else {
            assert(6 * c * c == 6 && 8 * c * c == 8);
        }
    }
}

/// All values of `s` are node indices of a chunk.
pub open spec fn all_in_chunk(s: Seq<u32>) -> bool {
    forall|i: int| 0 <= i < s.len() ==> #[trigger] s[i] < NODES_PER_CHUNK * NODES_PER_CHUNK
}

proof fn lemma_concat_in_chunk(a: Seq<u32>, b: Seq<u32>)
    requires
        all_in_chunk(a),
        all_in_chunk(b),
    ensures
        all_in_chunk(a + b),
{
    assert forall|i: int| 0 <= i < (a + b).len() implies #[trigger] (a + b)[i] < NODES_PER_CHUNK
        * NODES_PER_CHUNK by {
        if i < a.len() {
            assert((a + b)[i] == a[i]);
        } else {
            assert((a + b)[i] == b[i - a.len()]);
        }
    }
}

proof fn lemma_row_in_grid(y: int, x: int, wire: bool)
    requires
        0 <= y < CELLS_PER_CHUNK,
        0 <= x <= CELLS_PER_CHUNK,
    ensures
        all_in_chunk(row_cells(y, x, wire)),
    decreases x,
{
    if x > 0 {
        lemma_row_in_grid(y, x - 1, wire);
        assert((y + 1) * 9 + x <= 80) by (nonlinear_arith)
            requires
                0 <= y < 8,
                0 < x <= 8,
        ;
        assert(0 <= y * 9 + (x - 1)) by (nonlinear_arith)
            requires
                0 <= y < 8,
                0 < x <= 8,
        ;
        let c = if wire { cell_wireframe(x - 1, y) } else { cell_triangles(x - 1, y) };
        assert(all_in_chunk(c));
        lemma_concat_in_chunk(row_cells(y, x - 1, wire), c);
    }
}

proof fn lemma_grid_in_chunk(count: int, y: int, wire: bool)
    requires
        0 <= y <= count <= CELLS_PER_CHUNK,
    ensures
        all_in_chunk(grid_cells(count, y, wire)),
    decreases y,
{
    if y > 0 {
        lemma_grid_in_chunk(count, y - 1, wire);
        lemma_row_in_grid(y - 1, count, wire);
        lemma_concat_in_chunk(grid_cells(count, y - 1, wire), row_cells(y - 1, count, wire));
    }
}

/// Every index of every level refers to one of the 9 x 9 nodes of a chunk.
pub proof fn lemma_levels_in_chunk(level: int, wire: bool)
    requires
        0 <= level <= 4,
    ensures
        all_in_chunk(levels(level, wire)),
    decreases level,
{
    if level > 0 {
        lemma_levels_in_chunk(level - 1, wire);
        lemma_grid_in_chunk(level_cells(level - 1), level_cells(level - 1), wire);
        lemma_concat_in_chunk(
            levels(level - 1, wire),
            grid_cells(level_cells(level - 1), level_cells(level - 1), wire),
        );
    }
}

impl ChunkIndices {
    /// Build the triangle and wireframe lists of all levels of detail.
    pub fn generate() -> (r: Self)
        ensures
            r.indices@ == levels(4, false),
            r.wireframe_indices@ == levels(4, true),
    {
        let mut indices: Vec<u32> = Vec::new();
        let mut wireframe_indices: Vec<u32> = Vec::new();
        let mut level: u32 = 0;
        while level <= LOD_MAX
            invariant
                level <= LOD_MAX + 1,
                indices@ == levels(level as int, false),
                wireframe_indices@ == levels(level as int, true),
            decreases LOD_MAX + 1 - level,
        {
            let cell_count = CELLS_PER_CHUNK >> level;
            assert(cell_count == level_cells(level as int)) by {
                assert(8u32 >> 0u32 == 8u32) by (bit_vector);
                assert(8u32 >> 1u32 == 4u32) by (bit_vector);
                assert(8u32 >> 2u32 == 2u32) by (bit_vector);
                assert(8u32 >> 3u32 == 1u32) by (bit_vector);
            }
            let ghost base = indices@;
            let ghost wbase = wireframe_indices@;
            let mut y: u32 = 0;
            while y < cell_count
                invariant
                    cell_count == level_cells(level as int),
                    y <= cell_count,
                    indices@ == base + grid_cells(cell_count as int, y as int, false),
                    wireframe_indices@ == wbase + grid_cells(cell_count as int, y as int, true),
                decreases cell_count - y,
            {
                let ghost rbase = indices@;
                let ghost wrbase = wireframe_indices@;
                let mut x: u32 = 0;
                while x < cell_count
                    invariant
                        cell_count == level_cells(level as int),
                        y < cell_count,
                        x <= cell_count,
                        indices@ == rbase + row_cells(y as int, x as int, false),
                        wireframe_indices@ == wrbase + row_cells(y as int, x as int, true),
                    decreases cell_count - x,
                {
                    let i0 = y * NODES_PER_CHUNK + x;
                    let i1 = y * NODES_PER_CHUNK + (x + 1);
                    let i2 = (y + 1) * NODES_PER_CHUNK + (x + 1);
                    let i3 = (y + 1) * NODES_PER_CHUNK + x;
                    indices.push(i0);
                    indices.push(i1);
                    indices.push(i2);
                    indices.push(i2);
                    indices.push(i3);
                    indices.push(i0);
                    wireframe_indices.push(i0);
                    wireframe_indices.push(i1);
                    wireframe_indices.push(i1);
                    wireframe_indices.push(i2);
                    wireframe_indices.push(i2);
                    wireframe_indices.push(i3);
                    wireframe_indices.push(i3);
                    wireframe_indices.push(i0);
                    assert(indices@ =~= rbase + row_cells(y as int, x + 1, false));
                    assert(wireframe_indices@ =~= wrbase + row_cells(y as int, x + 1, true));
                    x += 1;
                }
                assert(indices@ =~= base + grid_cells(cell_count as int, y + 1, false));
                assert(wireframe_indices@ =~= wbase + grid_cells(cell_count as int, y + 1, true));
                y += 1;
            }
            assert(indices@ =~= levels(level + 1, false));
            assert(wireframe_indices@ =~= levels(level + 1, true));
            level += 1;
        }
        ChunkIndices { indices, wireframe_indices }
    }
}


/// Index step of the strata skirt at `lod`: `2 << lod`.
pub open spec fn strata_step(lod: int) -> int {
    if lod == 0 { 2 } else if lod == 1 { 4 } else if lod == 2 { 8 } else { 16 }
}

/// Number of indices one strata side uses at `lod`: `2 + (16 >> lod)`.
pub open spec fn strata_stride(lod: int) -> int {
    if lod == 0 { 18 } else if lod == 1 { 10 } else if lod == 2 { 6 } else { 4 }
}

/// Start of the strata indices of `lod` (all four sides).
pub open spec fn strata_lod_start(lod: int) -> int {
    if lod == 0 { 0 } else if lod == 1 { 72 } else if lod == 2 { 112 } else if lod == 3 { 136 } else { 152 }
}

/// The vertex pairs `i, i + 1` for every `step`-th `i` in `i..end`.
pub open spec fn strata_run(i: int, end: int, step: int) -> Seq<u32>
    decreases if end > i { end - i } else { 0 },
{
    if step <= 0 || i >= end {
        seq![]
    } else {
        seq![i as u32, (i + 1) as u32] + strata_run(i + step, end, step)
    }
}

/// The strata indices of one side at one level of detail.
pub open spec fn strata_block(lod: int, side: int) -> Seq<u32> {
    strata_run(side * 18, side * 18 + 18, strata_step(lod))
}

/// The first `t` blocks, ordered by level of detail, then by side.
pub open spec fn strata_blocks(t: int) -> Seq<u32>
    decreases t,
{
    if t <= 0 {
        seq![]
    } else {
        strata_blocks(t - 1) + strata_block((t - 1) / 4, (t - 1) % 4)
    }
}

/// The whole strata index list.
pub open spec fn strata_indices() -> Seq<u32> {
    strata_blocks(16)
}

/// First index of the strata draw call for `side` at `lod`.
pub open spec fn strata_draw_start(lod: int, side: int) -> int {
    strata_lod_start(lod) + strata_stride(lod) * side
}

/// Build the strata index list: for every level of detail and side, pairs of
/// vertices along the 18 vertices of that side, skipping by `2 << lod`.
pub fn generate_strata_indices() -> (r: Vec<u32>)
    ensures
        r@ == strata_indices(),
{
    let mut indices: Vec<u32> = Vec::new();
    let mut lod: u32 = 0;
    while lod < 4
        invariant
            lod <= 4,
            indices@ == strata_blocks(4 * lod as int),
        decreases 4 - lod,
    {
        let step: u32 = 2u32 << lod;
        assert(step == strata_step(lod as int)) by {
            assert(2u32 << 0u32 == 2u32) by (bit_vector);
            assert(2u32 << 1u32 == 4u32) by (bit_vector);
            assert(2u32 << 2u32 == 8u32) by (bit_vector);
            assert(2u32 << 3u32 == 16u32) by (bit_vector);
        }
        let mut side: u32 = 0;
        while side < 4
            invariant
                lod < 4,
                side <= 4,
                step == strata_step(lod as int),
                indices@ == strata_blocks(4 * lod + side),
            decreases 4 - side,
        {
            let start = side * 18;
            let end = start + 18;
            let ghost base = indices@;
            let mut i = start;
            while i < end
                invariant
                    end == side * 18 + 18 <= 72,
                    i <= end + 16,
                    lod < 4,
                    step == strata_step(lod as int),
                    indices@ + strata_run(i as int, end as int, step as int) == base + strata_block(lod as int, side as int),
                decreases end + 16 - i,
            {
                let ghost before = indices@;
                indices.push(i);
                indices.push(i + 1);
                assert(strata_run(i as int, end as int, step as int) == seq![i, (i + 1) as u32] + strata_run(i + step, end as int, step as int));
                assert(indices@ + strata_run(i + step, end as int, step as int) =~= before + strata_run(i as int, end as int, step as int));
                i += step;
            }
            assert(indices@ =~= base + strata_block(lod as int, side as int));
            assert((4 * lod + side + 1 - 1) / 4 == lod as int && (4 * lod + side + 1 - 1) % 4 == side as int);
            assert(indices@ =~= strata_blocks(4 * lod + side + 1));
            side += 1;
        }
        lod += 1;
    }
    indices
}

/// The index range of the strata draw call for one `side` at `lod`.
pub fn strata_draw_range(lod: u32, side: u32) -> (r: core::ops::Range<u32>)
    requires
        lod < 4,
        side < 4,
    ensures
        r.start == strata_draw_start(lod as int, side as int),
        r.end == r.start + strata_stride(lod as int),
{
    let index_start: [u32; 4] = [0, 72, 112, 136];
    let shifted = (CELLS_PER_CHUNK * 2) >> lod;
    assert(shifted + 2 == strata_stride(lod as int)) by {
        assert(16u32 >> 0u32 == 16u32) by (bit_vector);
        assert(16u32 >> 1u32 == 8u32) by (bit_vector);
        assert(16u32 >> 2u32 == 4u32) by (bit_vector);
        assert(16u32 >> 3u32 == 2u32) by (bit_vector);
    }
    let stride = 2 + shifted;
    let start = index_start[lod as usize] + stride * side;
    start..(start + stride)
}

proof fn lemma_strata_run_shift(i: int, end: int, step: int, d: int)
    requires
        step > 0,
    ensures
        strata_run(i + d, end + d, step).len() == strata_run(i, end, step).len(),
    decreases if end > i { end - i } else { 0 },
{
    if i < end {
        lemma_strata_run_shift(i + step, end, step, d);
    }
}

proof fn lemma_strata_block_len(lod: int, side: int)
    requires
        0 <= lod < 4,
    ensures
        strata_block(lod, side).len() == strata_stride(lod),
{
    lemma_strata_run_shift(0, 18, strata_step(lod), side * 18);
    reveal_with_fuel(strata_run, 10);
}

proof fn lemma_strata_blocks_len(t: int)
    requires
        0 <= t <= 16,
    ensures
        strata_blocks(t).len() == strata_lod_start(t / 4) + strata_stride(t / 4) * (t % 4),
    decreases t,
{
    if t > 0 {
        lemma_strata_blocks_len(t - 1);
        lemma_strata_block_len((t - 1) / 4, (t - 1) % 4);
        let l = (t - 1) / 4;
        let m = (t - 1) % 4;
        assert(0 <= l < 4 && 0 <= m < 4);
        if m == 3 {
            assert(t / 4 == l + 1 && t % 4 == 0);
        } else {
            assert(t / 4 == l && t % 4 == m + 1);
        }
        let st = strata_stride(l);
        assert(st * (m + 1) == st * m + st) by (nonlinear_arith);
        if m == 3 {
            assert(strata_lod_start(l + 1) == strata_lod_start(l) + 4 * st) by {
                if l == 0 {} else if l == 1 {} else if l == 2 {} else {}
            }
            assert(st * m + st == 4 * st);
        }
    }
}

proof fn lemma_strata_blocks_prefix(t: int, n: int)
    requires
        0 <= t <= n,
    ensures
        strata_blocks(n).subrange(0, strata_blocks(t).len() as int) == strata_blocks(t),
        strata_blocks(t).len() <= strata_blocks(n).len(),
    decreases n,
{
    if n > t {
        lemma_strata_blocks_prefix(t, n - 1);
        let a = strata_blocks(n - 1);
        assert(strata_blocks(n).subrange(0, a.len() as int) =~= a);
        assert(strata_blocks(n).subrange(0, strata_blocks(t).len() as int) =~= a.subrange(0, strata_blocks(t).len() as int));
    } else {
        assert(strata_blocks(n).subrange(0, strata_blocks(t).len() as int) =~= strata_blocks(t));
    }
}

/// The strata draw call for `side` at `lod` covers exactly the indices that
/// `generate_strata_indices` laid out for that side and level of detail.
pub proof fn lemma_strata_draw_ranges(lod: int, side: int)
    requires
        0 <= lod < 4,
        0 <= side < 4,
    ensures
        strata_indices().len() == 152,
        strata_draw_start(lod, side) + strata_stride(lod) <= strata_indices().len(),
        strata_indices().subrange(strata_draw_start(lod, side), strata_draw_start(lod, side) + strata_stride(lod))
            == strata_block(lod, side),
{
    let t = 4 * lod + side;
    lemma_strata_blocks_len(16);
    lemma_strata_blocks_len(t);
    lemma_strata_blocks_len(t + 1);
    lemma_strata_block_len(lod, side);
    assert(t / 4 == lod && t % 4 == side);
    lemma_strata_blocks_prefix(t + 1, 16);
    let pre = strata_blocks(t + 1);
    assert(pre == strata_blocks(t) + strata_block(lod, side));
    assert(strata_blocks(16).subrange(strata_draw_start(lod, side), strata_draw_start(lod, side) + strata_stride(lod))
        =~= pre.subrange(strata_draw_start(lod, side), strata_draw_start(lod, side) + strata_stride(lod)));
    assert(pre.subrange(strata_draw_start(lod, side), strata_draw_start(lod, side) + strata_stride(lod)) =~= strata_block(lod, side));
}


/// A strata vertex: the side it faces (south, west, north, east) and the chunk
/// node it hangs from. Its normal is the outward direction of the side.
#[derive(Clone, Copy, Debug, PartialEq, Eq, Structural)]
pub struct StrataVertex {
    pub side: u32,
    pub node_x: u32,
    pub node_y: u32,
}

/// The node that the `n`-th vertex pair of `side` hangs from, walking around the
/// chunk edge: south left to right, west bottom to top, north right to left,
/// east top to bottom.
pub open spec fn strata_node(side: int, n: int) -> (int, int) {
    if side == 0 {
        (n, 0)
    } else if side == 1 {
        (CELLS_PER_CHUNK as int, n)
    } else if side == 2 {
        (CELLS_PER_CHUNK - n, CELLS_PER_CHUNK as int)
    } else {
        (0, CELLS_PER_CHUNK - n)
    }
}

/// The `k`-th strata vertex: 18 per side, two for each of the side's 9 nodes.
pub open spec fn strata_vertex(k: int) -> StrataVertex {
    let side = k / 18;
    let node = strata_node(side, (k % 18) / 2);
    StrataVertex { side: side as u32, node_x: node.0 as u32, node_y: node.1 as u32 }
}

/// Build the strata vertices: a top and a bottom vertex for each node along the
/// four chunk edges.
pub fn generate_strata_vertices() -> (r: Vec<StrataVertex>)
    ensures
        r@.len() == 4 * 18,
        forall|k: int| 0 <= k < r@.len() ==> #[trigger] r@[k] == strata_vertex(k),
{
    let mut vertices: Vec<StrataVertex> = Vec::new();
    let mut side: u32 = 0;
    while side < 4
        invariant
            side <= 4,
            vertices@.len() == 18 * side,
            forall|k: int| 0 <= k < vertices@.len() ==> #[trigger] vertices@[k] == strata_vertex(k),
        decreases 4 - side,
    {
        let mut n: u32 = 0;
        while n < NODES_PER_CHUNK
            invariant
                side < 4,
                n <= NODES_PER_CHUNK,
                vertices@.len() == 18 * side + 2 * n,
                forall|k: int| 0 <= k < vertices@.len() ==> #[trigger] vertices@[k] == strata_vertex(k),
            decreases NODES_PER_CHUNK - n,
        {
            let (x, y) = if side == 0 {
                (n, 0)
            } else if side == 1 {
                (CELLS_PER_CHUNK, n)
            } else if side == 2 {
                (CELLS_PER_CHUNK - n, CELLS_PER_CHUNK)
            } else {
                (0, CELLS_PER_CHUNK - n)
            };
            let v = StrataVertex { side, node_x: x, node_y: y };
            let ghost k0 = vertices@.len() as int;
            assert(k0 / 18 == side && (k0 % 18) / 2 == n && (k0 + 1) / 18 == side && ((k0 + 1) % 18) / 2 == n);
            vertices.push(v);
            vertices.push(v);
            n += 1;
        }
        side += 1;
    }
    vertices
}

} // verus!
