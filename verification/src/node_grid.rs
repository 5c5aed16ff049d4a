//! Addressing of the nodes of the terrain height map by integer coordinate:
//! clamped lookups, the edge nodes whose normals point straight up, and the
//! four neighbors used to compute the normal of an inner node.
use vstd::prelude::*;
use crate::terrain::ChunkCoord;

verus! {

/// Number of nodes of a height map along each side.
#[derive(Clone, Copy, Debug, PartialEq, Eq, Structural)]
pub struct NodeGrid {
    pub size_x: u32,
    pub size_y: u32,
}

/// `v` clamped to `0..=hi`.
pub open spec fn clamp(v: int, hi: int) -> int {
    if v < 0 { 0 } else if v > hi { hi } else { v }
}

impl NodeGrid {
    /// The grid has nodes and its sides fit an `i32` coordinate.
    pub open spec fn valid(&self) -> bool {
        1 <= self.size_x <= i32::MAX && 1 <= self.size_y <= i32::MAX
    }

    /// Index of the node nearest to `coord` (clamped to the grid), row by row.
    pub fn node_index(&self, coord: ChunkCoord) -> (r: usize)
        requires
            self.valid(),
            self.size_x * self.size_y <= usize::MAX,
        ensures
            r == clamp(coord.y as int, self.size_y - 1) * self.size_x + clamp(coord.x as int, self.size_x - 1),
            r < self.size_x * self.size_y,
    {
        let max_x = self.size_x as i32 - 1;
        let max_y = self.size_y as i32 - 1;
        let x = if coord.x < 0 { 0 } else if coord.x > max_x { max_x } else { coord.x };
        let y = if coord.y < 0 { 0 } else if coord.y > max_y { max_y } else { coord.y };
        assert(y * self.size_x + x < self.size_x * self.size_y) by (nonlinear_arith)
            requires
                0 <= x < self.size_x,
                0 <= y < self.size_y,
        ;
        assert((y as int) * (self.size_x as int) <= (y as int) * (self.size_x as int) + (x as int));
        let row: usize = y as usize * self.size_x as usize;
        row + x as usize
    }

    /// The node lies on the border of the grid.
    pub fn is_edge(&self, x: i32, y: i32) -> (r: bool)
        requires
            self.valid(),
        ensures
            r == (x == 0 || y == 0 || x == self.size_x - 1 || y == self.size_y - 1),
    {
        x == 0 || y == 0 || x == self.size_x as i32 - 1 || y == self.size_y as i32 - 1
    }

    /// The neighbors of an inner node, in the order the normal is built from:
    /// north `(x, y + 1)`, then `(x - 1, y)`, south `(x, y - 1)`, then `(x + 1, y)`.
    pub fn neighbors(&self, x: i32, y: i32) -> (r: [ChunkCoord; 4])
        requires
            self.valid(),
            0 < x < self.size_x - 1,
            0 < y < self.size_y - 1,
        ensures
            r@[0] == (ChunkCoord { x, y: (y + 1) as i32 }),
            r@[1] == (ChunkCoord { x: (x - 1) as i32, y }),
            r@[2] == (ChunkCoord { x, y: (y - 1) as i32 }),
            r@[3] == (ChunkCoord { x: (x + 1) as i32, y }),
            forall|i: int| 0 <= i < 4 ==> 0 <= (#[trigger] r@[i]).x < self.size_x && 0 <= r@[i].y < self.size_y,
    {
        [
            ChunkCoord { x, y: y + 1 },
            ChunkCoord { x: x - 1, y },
            ChunkCoord { x, y: y - 1 },
            ChunkCoord { x: x + 1, y },
        ]
    }
}

} // verus!
