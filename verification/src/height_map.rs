//! The integer side of a terrain height map: its grid, the elevation byte of
//! each node and the meshes of its chunks. Scaling to world units happens
//! where the floating point positions are built.
use vstd::prelude::*;
use crate::pcx::Data;

verus! {

/// Cells per chunk along one side (9 x 9 vertices at full resolution).
pub const CHUNK_SIZE: u32 = 8;

/// A grid extent or coordinate in nodes or chunks.
#[derive(Clone, Copy, Debug, PartialEq, Eq, Structural)]
pub struct GridSize {
    pub x: u32,
    pub y: u32,
}

/// Mesh resolution of a chunk: vertices every `8 >> resolution` nodes.
#[derive(Clone, Copy, Debug, PartialEq, Eq, Structural)]
pub enum Resolution {
    Zero,
    One,
    Two,
    Three,
}

/// Node step of a resolution.
pub open spec fn step_of(res: Resolution) -> int {
    match res {
        Resolution::Zero => 8,
        Resolution::One => 4,
        Resolution::Two => 2,
        Resolution::Three => 1,
    }
}

/// Heights of a grid of `size_x * size_y` nodes, row by row.
pub struct HeightMap {
    pub size_x: u32,
    pub size_y: u32,
    pub heights: Vec<u32>,
}

/// The triangles of the cell `(x, y)` in a grid of `c x c` cells.
pub open spec fn mesh_quad(c: int, x: int, y: int) -> Seq<u32> {
    let i = y * (c + 1) + x;
    seq![i as u32, (i + 1) as u32, (i + c + 1) as u32, (i + 1) as u32, (i + c + 2) as u32, (i + c + 1) as u32]
}

/// The cells `0..x` of row `y`.
pub open spec fn mesh_row(c: int, y: int, x: int) -> Seq<u32>
    decreases x,
{
    if x <= 0 { seq![] } else { mesh_row(c, y, x - 1) + mesh_quad(c, x - 1, y) }
}

/// The rows `0..y`.
pub open spec fn mesh_rows(c: int, y: int) -> Seq<u32>
    decreases y,
{
    if y <= 0 { seq![] } else { mesh_rows(c, y - 1) + mesh_row(c, y - 1, c) }
}

/// Node coordinates of row `y` of a chunk mesh, columns `0..x`.
pub open spec fn vertex_row(ox: int, oy: int, step: int, y: int, x: int) -> Seq<GridSize>
    decreases x,
{
    if x <= 0 {
        seq![]
    } else {
        vertex_row(ox, oy, step, y, x - 1).push(GridSize { x: (ox + (x - 1) * step) as u32, y: (oy + y * step) as u32 })
    }
}

/// Node coordinates of rows `0..y` of a chunk mesh with `n` vertices per row.
pub open spec fn vertex_rows(ox: int, oy: int, step: int, n: int, y: int) -> Seq<GridSize>
    decreases y,
{
    if y <= 0 { seq![] } else { vertex_rows(ox, oy, step, n, y - 1) + vertex_row(ox, oy, step, y - 1, n) }
}

/// The mesh of a chunk: node coordinates of its vertices and triangle indices.
pub struct ChunkMesh {
    pub vertices: Vec<GridSize>,
    pub indices: Vec<u32>,
}

impl HeightMap {
    /// Take the grid of a decoded height map.
    pub fn from_data(data: Data) -> (r: Self)
        ensures
            r.size_x == data.width,
            r.size_y == data.height,
            r.heights@ == data.data@,
    {
        HeightMap { size_x: data.width, size_y: data.height, heights: data.data }
    }

    /// Every node has a height.
    pub open spec fn wf(&self) -> bool {
        self.heights@.len() >= self.size_x * self.size_y
    }

    /// Number of whole chunks along each side.
    pub fn chunks(&self) -> (r: GridSize)
        ensures
            r.x == self.size_x / CHUNK_SIZE,
            r.y == self.size_y / CHUNK_SIZE,
    {
        GridSize { x: self.size_x / CHUNK_SIZE, y: self.size_y / CHUNK_SIZE }
    }

    /// Index of node `(x, y)` in `heights`, after clamping to the grid.
    pub fn node_index(&self, x: u32, y: u32) -> (r: usize)
        requires
            self.wf(),
            self.size_x > 0,
            self.size_y > 0,
        ensures
            r == (if y < self.size_y { y as int } else { self.size_y - 1 }) * self.size_x
                + (if x < self.size_x { x as int } else { self.size_x - 1 }),
            r < self.heights@.len(),
    {
        let x = if x < self.size_x - 1 { x } else { self.size_x - 1 };
        let y = if y < self.size_y - 1 { y } else { self.size_y - 1 };
        assert(y * self.size_x + x < self.size_x * self.size_y) by (nonlinear_arith)
            requires
                x < self.size_x,
                y < self.size_y,
        ;
        assert((y as int) * (self.size_x as int) + (x as int) < self.heights@.len());
        assert((y as int) * (self.size_x as int) <= (y as int) * (self.size_x as int) + (x as int));
        let n = self.heights.len();
        let yy = y as usize;
        let sx = self.size_x as usize;
        assert(yy * sx < n);
        let row: usize = yy * sx;
        row + x as usize
    }

    /// The elevation byte of node `(x, y)` (clamped to the grid): the low 8 bits
    /// of its height.
    pub fn elevation(&self, x: u32, y: u32) -> (r: u32)
        requires
            self.wf(),
            self.size_x > 0,
            self.size_y > 0,
        ensures
            r == self.heights@[(if y < self.size_y { y as int } else { self.size_y - 1 }) * self.size_x
                + (if x < self.size_x { x as int } else { self.size_x - 1 })] & 0xFFu32,
            r <= 0xFF,
    {
        let index = self.node_index(x, y);
        let h = self.heights[index];
        assert(h & 0xFFu32 <= 0xFF) by (bit_vector);
        h & 0xFF
    }

    /// The first node of chunk `(x, y)`.
    pub fn chunk_origin(x: u32, y: u32) -> (r: GridSize)
        requires
            x * CHUNK_SIZE <= u32::MAX,
            y * CHUNK_SIZE <= u32::MAX,
        ensures
            r.x == x * CHUNK_SIZE,
            r.y == y * CHUNK_SIZE,
    {
        GridSize { x: x * CHUNK_SIZE, y: y * CHUNK_SIZE }
    }

    /// The mesh of the chunk starting at node `offset` at resolution `res`:
    /// vertices every `8 >> res` nodes across the chunk's 9 x 9 nodes, row by
    /// row, and two triangles per cell.
    pub fn generate_chunk(offset: GridSize, res: Resolution) -> (r: ChunkMesh)
        requires
            offset.x + CHUNK_SIZE <= u32::MAX,
            offset.y + CHUNK_SIZE <= u32::MAX,
        ensures
            ({
                let step = step_of(res);
                let cells = 8int / step;
                &&& r.vertices@ == vertex_rows(offset.x as int, offset.y as int, step, cells + 1, cells + 1)
                &&& r.indices@ == mesh_rows(cells, cells)
                &&& forall|x: int, y: int, t: int| 0 <= x < cells && 0 <= y < cells && 0 <= t < 6 ==> {
                    &&& corner_slot(cells, x, y, t) < r.indices@.len()
                    &&& (#[trigger] r.indices@[corner_slot(cells, x, y, t)]) < r.vertices@.len()
                    &&& r.vertices@[r.indices@[corner_slot(cells, x, y, t)] as int]
                        == corner_node(offset.x as int, offset.y as int, step, x, y, t)
                }
            }),
    {
        let step: u32 = match res {
            Resolution::Zero => 8,
            Resolution::One => 4,
            Resolution::Two => 2,
            Resolution::Three => 1,
        };
        let cells = CHUNK_SIZE / step;
        assert(cells * step == 8 && cells <= 8) by {
            assert(step == 8 || step == 4 || step == 2 || step == 1);
        }
        let mut vertices: Vec<GridSize> = Vec::new();
        let mut y: u32 = 0;
        while y <= cells
            invariant
                cells * step == 8,
                1 <= step <= 8,
                cells <= 8,
                y <= cells + 1,
                offset.x + 8 <= u32::MAX,
                offset.y + 8 <= u32::MAX,
                vertices@ == vertex_rows(offset.x as int, offset.y as int, step as int, cells + 1, y as int),
            decreases cells + 1 - y,
        {
            let ghost base = vertices@;
            let mut x: u32 = 0;
            while x <= cells
                invariant
                    cells * step == 8,
                    1 <= step <= 8,
                    cells <= 8,
                    y <= cells,
                    x <= cells + 1,
                    offset.x + 8 <= u32::MAX,
                    offset.y + 8 <= u32::MAX,
                    vertices@ == base + vertex_row(offset.x as int, offset.y as int, step as int, y as int, x as int),
                decreases cells + 1 - x,
            {
                assert(x * step <= 8 && y * step <= 8) by (nonlinear_arith)
                    requires
                        x <= cells,
                        y <= cells,
                        cells * step == 8,
                        step >= 1,
                ;
                vertices.push(GridSize { x: offset.x + x * step, y: offset.y + y * step });
                assert(vertices@ =~= base + vertex_row(offset.x as int, offset.y as int, step as int, y as int, x + 1));
                x += 1;
            }
            assert(vertices@ =~= vertex_rows(offset.x as int, offset.y as int, step as int, cells + 1, y + 1));
            y += 1;
        }

        let mut indices: Vec<u32> = Vec::new();
        let mut y: u32 = 0;
        while y < cells
            invariant
                cells <= 8,
                y <= cells,
                indices@ == mesh_rows(cells as int, y as int),
            decreases cells - y,
        {
            let ghost base = indices@;
            let mut x: u32 = 0;
            while x < cells
                invariant
                    cells <= 8,
                    y < cells,
                    x <= cells,
                    indices@ == base + mesh_row(cells as int, y as int, x as int),
                decreases cells - x,
            {
                assert(y * (cells + 1) + x + cells + 2 <= 81) by (nonlinear_arith)
                    requires
                        y < cells,
                        x < cells,
                        cells <= 8,
                ;
                let index = y * (cells + 1) + x;
                let f0 = index;
                let f1 = index + 1;
                let f2 = index + (cells + 1);
                let f3 = index + (cells + 1) + 1;
                indices.push(f0);
                indices.push(f1);
                indices.push(f2);
                indices.push(f1);
                indices.push(f3);
                indices.push(f2);
                assert(indices@ =~= base + mesh_row(cells as int, y as int, x + 1));
                x += 1;
            }
            assert(indices@ =~= mesh_rows(cells as int, y + 1));
            y += 1;
        }
        proof {
            let c = cells as int;
            assert(step as int == step_of(res) && c == 8int / step_of(res));
            assert forall|x: int, y: int, t: int| 0 <= x < c && 0 <= y < c && 0 <= t < 6 implies {
                &&& corner_slot(c, x, y, t) < indices@.len()
                &&& (#[trigger] indices@[corner_slot(c, x, y, t)]) < vertices@.len()
                &&& vertices@[indices@[corner_slot(c, x, y, t)] as int]
                    == corner_node(offset.x as int, offset.y as int, step as int, x, y, t)
            } by {
                lemma_cells_use_their_corners(offset.x as int, offset.y as int, res, x, y, t);
            }
        }
        ChunkMesh { vertices, indices }
    }
}


/// All values of `s` are below `bound`.
pub open spec fn all_below(s: Seq<u32>, bound: int) -> bool {
    forall|i: int| 0 <= i < s.len() ==> #[trigger] s[i] < bound
}

proof fn lemma_concat_below(a: Seq<u32>, b: Seq<u32>, bound: int)
    requires
        all_below(a, bound),
        all_below(b, bound),
    ensures
        all_below(a + b, bound),
{
    assert forall|i: int| 0 <= i < (a + b).len() implies #[trigger] (a + b)[i] < bound by {
        if i < a.len() {
            assert((a + b)[i] == a[i]);
        } else {
            assert((a + b)[i] == b[i - a.len()]);
        }
    }
}

proof fn lemma_mesh_row_below(c: int, y: int, x: int)
    requires
        1 <= c <= 8,
        0 <= y < c,
        0 <= x <= c,
    ensures
        all_below(mesh_row(c, y, x), (c + 1) * (c + 1)),
        mesh_row(c, y, x).len() == 6 * x,
    decreases x,
{
    if x > 0 {
        lemma_mesh_row_below(c, y, x - 1);
        assert(y * (c + 1) + (x - 1) + c + 2 < (c + 1) * (c + 1)) by (nonlinear_arith)
            requires
                0 <= y < c,
                0 < x <= c,
        ;
        assert(0 <= y * (c + 1) + (x - 1)) by (nonlinear_arith)
            requires
                0 <= y < c,
                0 < x <= c,
        ;
        lemma_concat_below(mesh_row(c, y, x - 1), mesh_quad(c, x - 1, y), (c + 1) * (c + 1));
    }
}

proof fn lemma_mesh_rows_below(c: int, y: int)
    requires
        1 <= c <= 8,
        0 <= y <= c,
    ensures
        all_below(mesh_rows(c, y), (c + 1) * (c + 1)),
        mesh_rows(c, y).len() == 6 * c * y,
    decreases y,
{
    if y > 0 {
        lemma_mesh_rows_below(c, y - 1);
        lemma_mesh_row_below(c, y - 1, c);
        lemma_concat_below(mesh_rows(c, y - 1), mesh_row(c, y - 1, c), (c + 1) * (c + 1));
        assert(6 * c * (y - 1) + 6 * c == 6 * c * y) by (nonlinear_arith);
    } else {
        assert(6 * c * y == 0) by (nonlinear_arith)
            requires
                y == 0,
        ;
    }
}

proof fn lemma_vertex_rows_len(ox: int, oy: int, step: int, n: int, y: int)
    requires
        n >= 0,
        y >= 0,
    ensures
        vertex_rows(ox, oy, step, n, y).len() == n * y,
    decreases y,
{
    if y > 0 {
        lemma_vertex_rows_len(ox, oy, step, n, y - 1);
        lemma_vertex_row_len(ox, oy, step, y - 1, n);
        assert(n * (y - 1) + n == n * y) by (nonlinear_arith);
    } else {
        assert(n * y == 0) by (nonlinear_arith)
            requires
                y == 0,
        ;
    }
}

proof fn lemma_vertex_row_len(ox: int, oy: int, step: int, y: int, x: int)
    requires
        x >= 0,
    ensures
        vertex_row(ox, oy, step, y, x).len() == x,
    decreases x,
{
    if x > 0 {
        lemma_vertex_row_len(ox, oy, step, y, x - 1);
    }
}

/// A chunk mesh has `(cells + 1)^2` vertices and two triangles per cell, and every
/// triangle index names one of its vertices.
pub proof fn lemma_chunk_mesh_indices_in_range(ox: int, oy: int, res: Resolution)
    ensures
        ({
            let step = step_of(res);
            let c = 8int / step;
            &&& 1 <= c <= 8
            &&& vertex_rows(ox, oy, step, c + 1, c + 1).len() == (c + 1) * (c + 1)
            &&& mesh_rows(c, c).len() == 6 * c * c
            &&& all_below(mesh_rows(c, c), (c + 1) * (c + 1))
        }),
{
    let step = step_of(res);
    let c = 8int / step;
    assert(1 <= c <= 8);
    lemma_mesh_rows_below(c, c);
    lemma_vertex_rows_len(ox, oy, step, c + 1, c + 1);
}

/// Horizontal offset of corner `t` of a cell's two triangles: the first is
/// `(x, y), (x + 1, y), (x, y + 1)`, the second `(x + 1, y), (x + 1, y + 1), (x, y + 1)`.
pub open spec fn corner_dx(t: int) -> int {
    if t == 1 || t == 3 || t == 4 { 1 } else { 0 }
}

/// Vertical offset of corner `t` of a cell's two triangles.
pub open spec fn corner_dy(t: int) -> int {
    if t == 2 || t == 4 || t == 5 { 1 } else { 0 }
}

/// Position in the index list of corner `t` of cell `(x, y)` in a grid of `c x c`
/// cells: six indices per cell, cells row by row.
pub open spec fn corner_slot(c: int, x: int, y: int, t: int) -> int {
    6 * (y * c + x) + t
}

/// The grid node of corner `t` of cell `(x, y)` of a chunk at `(ox, oy)` whose
/// cells are `step` nodes wide.
pub open spec fn corner_node(ox: int, oy: int, step: int, x: int, y: int, t: int) -> GridSize {
    GridSize { x: (ox + (x + corner_dx(t)) * step) as u32, y: (oy + (y + corner_dy(t)) * step) as u32 }
}

proof fn lemma_vertex_row_at(ox: int, oy: int, step: int, y: int, x: int, i: int)
    requires
        0 <= i < x,
    ensures
        vertex_row(ox, oy, step, y, x)[i] == (GridSize { x: (ox + i * step) as u32, y: (oy + y * step) as u32 }),
    decreases x,
{
    lemma_vertex_row_len(ox, oy, step, y, x - 1);
    if i < x - 1 {
        lemma_vertex_row_at(ox, oy, step, y, x - 1, i);
    }
}

proof fn lemma_vertex_rows_at(ox: int, oy: int, step: int, n: int, m: int, j: int, i: int)
    requires
        0 <= j < m,
        0 <= i < n,
    ensures
        vertex_rows(ox, oy, step, n, m).len() == n * m,
        vertex_rows(ox, oy, step, n, m)[j * n + i] == (GridSize { x: (ox + i * step) as u32, y: (oy + j * step) as u32 }),
    decreases m,
{
    lemma_vertex_rows_len(ox, oy, step, n, m);
    lemma_vertex_rows_len(ox, oy, step, n, m - 1);
    lemma_vertex_row_len(ox, oy, step, m - 1, n);
    if j < m - 1 {
        assert(j * n + i < (m - 1) * n) by (nonlinear_arith)
            requires
                0 <= j < m - 1,
                0 <= i < n,
        ;
        assert(0 <= j * n + i) by (nonlinear_arith)
            requires
                0 <= j,
                0 <= i,
                0 < n,
        ;
        lemma_vertex_rows_at(ox, oy, step, n, m - 1, j, i);
    } else {
        assert(j * n + i - n * (m - 1) == i) by (nonlinear_arith)
            requires
                j == m - 1,
        ;
        lemma_vertex_row_at(ox, oy, step, m - 1, n, i);
    }
}

proof fn lemma_mesh_row_len(c: int, y: int, x: int)
    requires
        x >= 0,
    ensures
        mesh_row(c, y, x).len() == 6 * x,
    decreases x,
{
    if x > 0 {
        lemma_mesh_row_len(c, y, x - 1);
    }
}

proof fn lemma_mesh_row_at(c: int, y: int, x: int, i: int, t: int)
    requires
        0 <= i < x,
        0 <= t < 6,
    ensures
        mesh_row(c, y, x)[6 * i + t] == mesh_quad(c, i, y)[t],
    decreases x,
{
    lemma_mesh_row_len(c, y, x - 1);
    if i < x - 1 {
        lemma_mesh_row_at(c, y, x - 1, i, t);
    }
}

proof fn lemma_mesh_rows_at(c: int, m: int, j: int, i: int, t: int)
    requires
        0 <= j < m,
        0 <= i < c,
        0 <= t < 6,
    ensures
        mesh_rows(c, m).len() == 6 * c * m,
        mesh_rows(c, m)[corner_slot(c, i, j, t)] == mesh_quad(c, i, j)[t],
    decreases m,
{
    lemma_mesh_rows_len(c, m);
    lemma_mesh_rows_len(c, m - 1);
    lemma_mesh_row_len(c, m - 1, c);
    if j < m - 1 {
        assert(corner_slot(c, i, j, t) < 6 * c * (m - 1)) by (nonlinear_arith)
            requires
                0 <= j < m - 1,
                0 <= i < c,
                0 <= t < 6,
        ;
        lemma_mesh_rows_at(c, m - 1, j, i, t);
    } else {
        assert(corner_slot(c, i, j, t) - 6 * c * (m - 1) == 6 * i + t) by (nonlinear_arith)
            requires
                j == m - 1,
        ;
        lemma_mesh_row_at(c, m - 1, c, i, t);
    }
}

proof fn lemma_mesh_rows_len(c: int, y: int)
    requires
        c >= 0,
        y >= 0,
    ensures
        mesh_rows(c, y).len() == 6 * c * y,
    decreases y,
{
    if y > 0 {
        lemma_mesh_rows_len(c, y - 1);
        lemma_mesh_row_len(c, y - 1, c);
        assert(6 * c * (y - 1) + 6 * c == 6 * c * y) by (nonlinear_arith);
    } else {
        assert(6 * c * y == 0) by (nonlinear_arith)
            requires
                y == 0,
        ;
    }
}

/// Every cell of a chunk mesh is drawn by two triangles over its own four
/// corners: corner `t` of cell `(x, y)` names the vertex at grid node
/// `(x + dx, y + dy)` of the chunk, so the triangles of neighboring cells meet
/// along shared edges and every vertex of the grid is used.
pub proof fn lemma_cells_use_their_corners(ox: int, oy: int, res: Resolution, x: int, y: int, t: int)
    requires
        0 <= x < 8int / step_of(res),
        0 <= y < 8int / step_of(res),
        0 <= t < 6,
    ensures
        ({
            let step = step_of(res);
            let c = 8int / step;
            let verts = vertex_rows(ox, oy, step, c + 1, c + 1);
            let k = mesh_rows(c, c)[corner_slot(c, x, y, t)];
            &&& 0 <= corner_slot(c, x, y, t) < mesh_rows(c, c).len()
            &&& k < verts.len()
            &&& verts[k as int] == corner_node(ox, oy, step, x, y, t)
        }),
{
    let step = step_of(res);
    let c = 8int / step;
    assert(1 <= c <= 8 && step >= 1);
    lemma_mesh_rows_at(c, c, y, x, t);
    let dx = corner_dx(t);
    let dy = corner_dy(t);
    let base = y * (c + 1) + x;
    assert(0 <= base && base + c + 2 < (c + 1) * (c + 1)) by (nonlinear_arith)
        requires
            0 <= x < c,
            0 <= y < c,
            base == y * (c + 1) + x,
    ;
    assert((y + dy) * (c + 1) + (x + dx) == base + dy * (c + 1) + dx) by (nonlinear_arith)
        requires
            base == y * (c + 1) + x,
    ;
    assert((c + 1) * (c + 1) <= 81) by (nonlinear_arith)
        requires
            1 <= c <= 8,
    ;
    let q = mesh_quad(c, x, y);
    assert(q[t] == base + dy * (c + 1) + dx) by {
        assert(base == y * (c + 1) + x);
        assert(0 <= base < 81 && base + c + 2 < 82);
        assert(q[0] == base);
        assert(q[1] == base + 1);
        assert(q[2] == base + c + 1);
        assert(q[3] == base + 1);
        assert(q[4] == base + c + 2);
        assert(q[5] == base + c + 1);
    }
    lemma_vertex_rows_at(ox, oy, step, c + 1, c + 1, y + dy, x + dx);
    let verts = vertex_rows(ox, oy, step, c + 1, c + 1);
    let k = mesh_rows(c, c)[corner_slot(c, x, y, t)];
    assert(k == (y + dy) * (c + 1) + (x + dx));
    assert(k < verts.len());
    assert(verts[k as int] == corner_node(ox, oy, step, x, y, t));
    assert(corner_slot(c, x, y, t) < 6 * c * c) by (nonlinear_arith)
        requires
            0 <= x < c,
            0 <= y < c,
            0 <= t < 6,
    ;
}

} // verus!
