//! What the terrain renderer draws each frame: one instance per visible chunk,
//! with flags for coarser neighbors and highlighting, plus strata skirts along
//! the edges of the terrain, and the per-level draw ranges over them.
use vstd::prelude::*;
use crate::terrain_indices::{LOD_COUNT, LOD_MAX};

verus! {

broadcast use vstd::seq_lib::group_to_multiset_ensures;

/// Coordinate of a chunk in the terrain's chunk grid.
#[derive(Clone, Copy, Debug, PartialEq, Eq, Structural)]
pub struct ChunkCoord {
    pub x: i32,
    pub y: i32,
}

/// One instance to draw: a chunk (or one strata side of it) at a level of detail.
#[derive(Clone, Copy, Debug, PartialEq, Eq, Structural)]
pub struct TerrainChunk {
    pub coord: ChunkCoord,
    pub lod: u32,
    /// Bits 0..4: the neighbor to the north, west, south, east is coarser.
    /// Bit 15: the chunk is highlighted. Bits 8..10 of a strata instance: its side.
    pub flags: u32,
}

/// A visible chunk with the level of detail of itself and of its four neighbors
/// (north, west, south, east); `None` where a neighbor has no level of detail.
#[derive(Clone, Copy, Debug)]
pub struct VisibleChunk {
    pub coord: ChunkCoord,
    pub lod: u32,
    pub neighbor_lods: [Option<u32>; 4],
}

/// The instances of one frame.
pub struct TerrainSnapshot {
    /// One instance per visible chunk, ordered by level of detail.
    pub chunks: Vec<TerrainChunk>,
    /// Strata instances of the visible edge chunks, ordered by side.
    pub strata: Vec<TerrainChunk>,
    /// Number of strata instances per side: south, west, north, east.
    pub strata_side_count: [u32; 4],
}

/// The four neighbors of chunk `c`: north, west, south and east, the order of
/// a visible chunk's `neighbor_lods`.
pub open spec fn neighbors_of(c: ChunkCoord) -> Seq<ChunkCoord> {
    seq![
        ChunkCoord { x: c.x, y: (c.y + 1) as i32 },
        ChunkCoord { x: (c.x - 1) as i32, y: c.y },
        ChunkCoord { x: c.x, y: (c.y - 1) as i32 },
        ChunkCoord { x: (c.x + 1) as i32, y: c.y },
    ]
}

/// The coordinates whose levels of detail fill a visible chunk's `neighbor_lods`.
pub fn neighbor_coords(c: ChunkCoord) -> (r: [ChunkCoord; 4])
    requires
        i32::MIN < c.x < i32::MAX,
        i32::MIN < c.y < i32::MAX,
    ensures
        r@ == neighbors_of(c),
{
    let r = [
        ChunkCoord { x: c.x, y: c.y + 1 },
        ChunkCoord { x: c.x - 1, y: c.y },
        ChunkCoord { x: c.x, y: c.y - 1 },
        ChunkCoord { x: c.x + 1, y: c.y },
    ];
    assert(r@ =~= neighbors_of(c));
    r
}

/// Strata side of the southern edge.
pub const SOUTH: u32 = 0;
/// Strata side of the western edge.
pub const WEST: u32 = 1;
/// Strata side of the northern edge.
pub const NORTH: u32 = 2;
/// Strata side of the eastern edge.
pub const EAST: u32 = 3;
/// Flag of a highlighted chunk.
pub const HIGHLIGHT: u32 = 0x8000;

/// The neighbor `i` is drawn coarser than the chunk (a missing neighbor counts
/// as the chunk's own level).
pub open spec fn coarser_neighbor(v: VisibleChunk, i: int) -> bool {
    match v.neighbor_lods@[i] {
        Some(l) => l > v.lod,
        None => false,
    }
}

/// The flags of a visible chunk.
pub open spec fn chunk_flags(v: VisibleChunk, highlighted: bool) -> u32 {
    ((if coarser_neighbor(v, 0) { 1int } else { 0 }) + (if coarser_neighbor(v, 1) { 2int } else { 0 })
        + (if coarser_neighbor(v, 2) { 4int } else { 0 }) + (if coarser_neighbor(v, 3) { 8int } else { 0 })
        + (if highlighted { 0x8000int } else { 0 })) as u32
}

/// The instance of a visible chunk.
pub open spec fn chunk_instance(v: VisibleChunk, highlighted: Seq<ChunkCoord>) -> TerrainChunk {
    TerrainChunk { coord: v.coord, lod: v.lod, flags: chunk_flags(v, highlighted.contains(v.coord)) }
}

/// The instance `c` tagged as strata of `side`.
pub open spec fn with_side(c: TerrainChunk, side: u32) -> TerrainChunk {
    TerrainChunk { flags: (c.flags + side * 256) as u32, ..c }
}

/// The strata side stored in flags.
pub open spec fn side_of(flags: u32) -> int {
    ((flags / 256) % 4) as int
}

/// The strata instances of one visible chunk: east or west on the first or last
/// column, then south or north on the first or last row.
pub open spec fn strata_of(c: TerrainChunk, dim_x: u32, dim_y: u32) -> Seq<TerrainChunk> {
    let xs = if c.coord.x == 0 {
        seq![with_side(c, EAST)]
    } else if c.coord.x == dim_x - 1 {
        seq![with_side(c, WEST)]
    } else {
        seq![]
    };
    let ys = if c.coord.y == 0 {
        seq![with_side(c, SOUTH)]
    } else if c.coord.y == dim_y - 1 {
        seq![with_side(c, NORTH)]
    } else {
        seq![]
    };
    xs + ys
}

/// Chunk instances of the first `n` visible chunks, in visiting order.
pub open spec fn chunks_in_order(vs: Seq<VisibleChunk>, highlighted: Seq<ChunkCoord>, n: int) -> Seq<TerrainChunk>
    decreases n,
{
    if n <= 0 {
        seq![]
    } else {
        chunks_in_order(vs, highlighted, n - 1).push(chunk_instance(vs[n - 1], highlighted))
    }
}

/// Strata instances of the first `n` visible chunks, in visiting order.
pub open spec fn strata_in_order(vs: Seq<VisibleChunk>, highlighted: Seq<ChunkCoord>, dim_x: u32, dim_y: u32, n: int) -> Seq<TerrainChunk>
    decreases n,
{
    if n <= 0 {
        seq![]
    } else {
        strata_in_order(vs, highlighted, dim_x, dim_y, n - 1) + strata_of(chunk_instance(vs[n - 1], highlighted), dim_x, dim_y)
    }
}

/// Number of instances in `s` on strata side `side`.
pub open spec fn count_side(s: Seq<TerrainChunk>, side: int) -> nat
    decreases s.len(),
{
    if s.len() == 0 {
        0
    } else {
        count_side(s.drop_last(), side) + if side_of(s.last().flags) == side { 1nat } else { 0nat }
    }
}

/// The sort key: the strata side, or the level of detail.
pub open spec fn sort_key(c: TerrainChunk, by_side: bool) -> int {
    if by_side { side_of(c.flags) } else { c.lod as int }
}

/// `s` is ordered by the sort key.
pub open spec fn sorted_by_key(s: Seq<TerrainChunk>, by_side: bool) -> bool {
    forall|i: int, j: int| 0 <= i < j < s.len() ==> sort_key(s[i], by_side) <= sort_key(s[j], by_side)
}

fn key_of(c: &TerrainChunk, by_side: bool) -> (r: u32)
    ensures
        r == sort_key(*c, by_side),
{
    if by_side {
        let f = c.flags;
        assert((f >> 8u32) & 3u32 == (f / 256) % 4) by (bit_vector);
        (c.flags >> 8) & 3
    } else {
        c.lod
    }
}

/// Order `items` by the sort key, keeping equal keys in their order.
fn sort_by_key(items: &Vec<TerrainChunk>, by_side: bool) -> (r: Vec<TerrainChunk>)
    ensures
        r@.to_multiset() == items@.to_multiset(),
        sorted_by_key(r@, by_side),
{
    let mut out: Vec<TerrainChunk> = Vec::new();
    let mut i: usize = 0;
    while i < items.len()
        invariant
            i <= items.len(),
            out@.to_multiset() == items@.subrange(0, i as int).to_multiset(),
            sorted_by_key(out@, by_side),
        decreases items.len() - i,
    {
        let item = items[i];
        let k = key_of(&item, by_side);
        let mut p = out.len();
        while p > 0 && key_of(&out[p - 1], by_side) > k
            invariant
                p <= out.len(),
                sorted_by_key(out@, by_side),
                k == sort_key(item, by_side),
                forall|j: int| p <= j < out.len() ==> sort_key(#[trigger] out@[j], by_side) > k,
            decreases p,
        {
            p -= 1;
        }
        let ghost before = out@;
        proof {
            if p > 0 {
                assert(sort_key(out@[p - 1], by_side) <= k);
            }
            assert forall|j: int| 0 <= j < p implies sort_key(#[trigger] out@[j], by_side) <= k by {
                if p > 0 && j < p - 1 {
                    assert(sort_key(out@[j], by_side) <= sort_key(out@[p - 1], by_side));
                }
            }
        }
        out.insert(p, item);
        proof {
            assert(items@.subrange(0, i + 1) =~= items@.subrange(0, i as int).push(item));
            assert(before.insert(p as int, item).to_multiset() == before.to_multiset().insert(item));
            assert forall|a: int, b: int| 0 <= a < b < out@.len() implies sort_key(out@[a], by_side) <= sort_key(out@[b], by_side) by {
                if a < p && b < p {
                    assert(out@[a] == before[a] && out@[b] == before[b]);
                } else if a < p && b == p {
                    assert(out@[a] == before[a]);
                } else if a < p {
                    assert(out@[a] == before[a] && out@[b] == before[b - 1]);
                } else if a == p {
                    assert(out@[b] == before[b - 1]);
                } else {
                    assert(out@[a] == before[a - 1] && out@[b] == before[b - 1]);
                }
            }
        }
        i += 1;
    }
    assert(items@.subrange(0, items.len() as int) =~= items@);
    out
}

proof fn lemma_count_side_concat(a: Seq<TerrainChunk>, b: Seq<TerrainChunk>)
    ensures
        forall|s: int| #[trigger] count_side(a + b, s) == count_side(a, s) + count_side(b, s),
    decreases b.len(),
{
    if b.len() == 0 {
        assert(a + b =~= a);
    } else {
        lemma_count_side_concat(a, b.drop_last());
        assert((a + b).drop_last() =~= a + b.drop_last());
        assert((a + b).last() == b.last());
        assert forall|s: int| #[trigger] count_side(a + b, s) == count_side(a, s) + count_side(b, s) by {
            assert(count_side(a + b, s) == count_side(a + b.drop_last(), s) + if side_of(b.last().flags) == s { 1nat } else { 0nat });
        }
    }
}

proof fn lemma_side_of_tagged(flags: u32, side: u32)
    requires
        flags < 16 || (0x8000 <= flags < 0x8000 + 16),
        side < 4,
    ensures
        side_of((flags + side * 256) as u32) == side,
{
}

/// The strata of one chunk add at most one instance to each side.
proof fn lemma_strata_of_sides(c: TerrainChunk, dim_x: u32, dim_y: u32)
    requires
        c.flags < 16 || (0x8000 <= c.flags < 0x8000 + 16),
    ensures
        forall|s: int| 0 <= s < 4 ==> #[trigger] count_side(strata_of(c, dim_x, dim_y), s) <= 1,
        strata_of(c, dim_x, dim_y).len() <= 2,
{
    lemma_side_of_tagged(c.flags, EAST);
    lemma_side_of_tagged(c.flags, WEST);
    lemma_side_of_tagged(c.flags, SOUTH);
    lemma_side_of_tagged(c.flags, NORTH);
    let st = strata_of(c, dim_x, dim_y);
    assert forall|s: int| 0 <= s < 4 implies #[trigger] count_side(st, s) <= 1 by {
        reveal_with_fuel(count_side, 3);
        if st.len() == 2 {
            assert(st.drop_last().drop_last() =~= Seq::<TerrainChunk>::empty());
        } else if st.len() == 1 {
            assert(st.drop_last() =~= Seq::<TerrainChunk>::empty());
        }
    }
}

/// `coord` occurs in `list`.
fn contains_coord(list: &Vec<ChunkCoord>, coord: ChunkCoord) -> (r: bool)
    ensures
        r == list@.contains(coord),
{
    let mut i: usize = 0;
    while i < list.len()
        invariant
            i <= list.len(),
            forall|j: int| 0 <= j < i ==> list@[j] != coord,
        decreases list.len() - i,
    {
        if list[i].x == coord.x && list[i].y == coord.y {
            assert(list@[i as int] == coord);
            return true;
        }
        i += 1;
    }
    false
}

/// The instance of one visible chunk.
fn chunk_of_visible(v: &VisibleChunk, highlighted: &Vec<ChunkCoord>) -> (r: TerrainChunk)
    ensures
        r == chunk_instance(*v, highlighted@),
        r.flags < 16 || (0x8000 <= r.flags < 0x8000 + 16),
{
    let center = v.lod;
    let mut flags: u32 = 0;
    let mut n: usize = 0;
    while n < 4
        invariant
            n <= 4,
            center == v.lod,
            flags == (if n > 0 && coarser_neighbor(*v, 0) { 1int } else { 0 })
                + (if n > 1 && coarser_neighbor(*v, 1) { 2int } else { 0 })
                + (if n > 2 && coarser_neighbor(*v, 2) { 4int } else { 0 })
                + (if n > 3 && coarser_neighbor(*v, 3) { 8int } else { 0 }),
        decreases 4 - n,
    {
        let neighbor = match v.neighbor_lods[n] {
            Some(l) => l,
            None => center,
        };
        if neighbor > center {
            let bit: u32 = if n == 0 { 1 } else if n == 1 { 2 } else if n == 2 { 4 } else { 8 };
            flags = flags + bit;
        }
        n += 1;
    }
    if contains_coord(highlighted, v.coord) {
        flags = flags + HIGHLIGHT;
    }
    TerrainChunk { coord: v.coord, lod: center, flags }
}

/// Append the strata instances of `chunk` and count them per side.
fn push_strata(
    strata: &mut Vec<TerrainChunk>,
    counts: &mut [u32; 4],
    chunk: TerrainChunk,
    last_x: i32,
    last_y: i32,
    Ghost(dim_x): Ghost<u32>,
    Ghost(dim_y): Ghost<u32>,
)
    requires
        last_x == dim_x - 1,
        last_y == dim_y - 1,
        chunk.flags < 16 || (0x8000 <= chunk.flags < 0x8000 + 16),
        forall|s: int| 0 <= s < 4 ==> old(counts)@[s] < u32::MAX,
    ensures
        final(strata)@ == old(strata)@ + strata_of(chunk, dim_x, dim_y),
        forall|s: int| 0 <= s < 4 ==> #[trigger] final(counts)@[s] == old(counts)@[s] + count_side(strata_of(chunk, dim_x, dim_y), s),
{
    proof {
        lemma_side_of_tagged(chunk.flags, EAST);
        lemma_side_of_tagged(chunk.flags, WEST);
        lemma_side_of_tagged(chunk.flags, SOUTH);
        lemma_side_of_tagged(chunk.flags, NORTH);
    }
    let ghost st = strata_of(chunk, dim_x, dim_y);
    let ghost old_counts = counts@;
    if chunk.coord.x == 0 {
        strata.push(TerrainChunk { flags: chunk.flags + EAST * 256, ..chunk });
        counts[3] = counts[3] + 1;
    } else if chunk.coord.x == last_x {
        strata.push(TerrainChunk { flags: chunk.flags + WEST * 256, ..chunk });
        counts[1] = counts[1] + 1;
    }
    if chunk.coord.y == 0 {
        strata.push(TerrainChunk { flags: chunk.flags + SOUTH * 256, ..chunk });
        counts[0] = counts[0] + 1;
    } else if chunk.coord.y == last_y {
        strata.push(TerrainChunk { flags: chunk.flags + NORTH * 256, ..chunk });
        counts[2] = counts[2] + 1;
    }
    assert(final(strata)@ =~= old(strata)@ + st);
    assert forall|s: int| 0 <= s < 4 implies #[trigger] counts@[s] == old_counts[s] + count_side(st, s) by {
        reveal_with_fuel(count_side, 3);
        if st.len() == 2 {
            assert(st.drop_last().drop_last() =~= Seq::<TerrainChunk>::empty());
        } else if st.len() == 1 {
            assert(st.drop_last() =~= Seq::<TerrainChunk>::empty());
        } else {
            assert(st =~= Seq::<TerrainChunk>::empty());
        }
    }
}

/// Build the instances of one frame from the visible chunks. The side count, the
/// strata and the chunk instances are those of the visiting order; the two lists
/// are then ordered by side and by level of detail.
pub fn build_terrain_snapshot(
    visible: &Vec<VisibleChunk>,
    highlighted: &Vec<ChunkCoord>,
    dim_x: u32,
    dim_y: u32,
) -> (r: TerrainSnapshot)
    requires
        dim_x <= i32::MAX,
        dim_y <= i32::MAX,
        visible@.len() <= u32::MAX,
    ensures
        r.chunks@.to_multiset() == chunks_in_order(visible@, highlighted@, visible@.len() as int).to_multiset(),
        sorted_by_key(r.chunks@, false),
        r.strata@.to_multiset() == strata_in_order(visible@, highlighted@, dim_x, dim_y, visible@.len() as int).to_multiset(),
        sorted_by_key(r.strata@, true),
        forall|s: int| 0 <= s < 4 ==> r.strata_side_count@[s] == count_side(
            strata_in_order(visible@, highlighted@, dim_x, dim_y, visible@.len() as int),
            s,
        ),
{
    let mut chunks: Vec<TerrainChunk> = Vec::new();
    let mut strata: Vec<TerrainChunk> = Vec::new();
    let mut counts: [u32; 4] = [0, 0, 0, 0];
    let last_x: i32 = dim_x as i32 - 1;
    let last_y: i32 = dim_y as i32 - 1;
    let mut i: usize = 0;
    while i < visible.len()
        invariant
            i <= visible@.len() <= u32::MAX,
            last_x == dim_x - 1,
            last_y == dim_y - 1,
            chunks@ == chunks_in_order(visible@, highlighted@, i as int),
            strata@ == strata_in_order(visible@, highlighted@, dim_x, dim_y, i as int),
            strata@.len() <= 2 * i,
            forall|s: int| 0 <= s < 4 ==> counts@[s] == count_side(strata@, s),
            forall|s: int| 0 <= s < 4 ==> counts@[s] <= i,
        decreases visible@.len() - i,
    {
        let chunk = chunk_of_visible(&visible[i], highlighted);
        assert(chunk == chunk_instance(visible@[i as int], highlighted@));
        chunks.push(chunk);
        let ghost before = strata@;
        push_strata(&mut strata, &mut counts, chunk, last_x, last_y, Ghost(dim_x), Ghost(dim_y));
        proof {
            lemma_count_side_concat(before, strata_of(chunk, dim_x, dim_y));
            lemma_strata_of_sides(chunk, dim_x, dim_y);
        }
        i += 1;
    }
    let chunks = sort_by_key(&chunks, false);
    let strata_sorted = sort_by_key(&strata, true);
    TerrainSnapshot { chunks, strata: strata_sorted, strata_side_count: counts }
}


/// The level of detail an instance is drawn at: its own, at most `LOD_MAX`.
pub open spec fn drawn_lod(c: TerrainChunk) -> int {
    if c.lod > LOD_MAX { LOD_MAX as int } else { c.lod as int }
}

/// Number of instances of `s` drawn at a level below `level`.
pub open spec fn count_below(s: Seq<TerrainChunk>, level: int) -> nat
    decreases s.len(),
{
    if s.len() == 0 {
        0
    } else {
        count_below(s.drop_last(), level) + if drawn_lod(s.last()) < level { 1nat } else { 0nat }
    }
}

proof fn lemma_count_below_bounds(s: Seq<TerrainChunk>, level: int)
    ensures
        count_below(s, level) <= s.len(),
        level > LOD_MAX ==> count_below(s, level) == s.len(),
        level <= 0 ==> count_below(s, level) == 0,
    decreases s.len(),
{
    if s.len() > 0 {
        lemma_count_below_bounds(s.drop_last(), level);
    }
}

proof fn lemma_count_below_mono(s: Seq<TerrainChunk>, a: int, b: int)
    requires
        a <= b,
    ensures
        count_below(s, a) <= count_below(s, b),
    decreases s.len(),
{
    if s.len() > 0 {
        lemma_count_below_mono(s.drop_last(), a, b);
    }
}

/// In a list ordered by level of detail, the instances drawn below `level` are
/// exactly the first `count_below(s, level)` ones.
pub proof fn lemma_sorted_levels_are_prefixes(s: Seq<TerrainChunk>, level: int)
    requires
        sorted_by_key(s, false),
    ensures
        forall|i: int| 0 <= i < s.len() ==> (i < count_below(s, level) <==> drawn_lod(#[trigger] s[i]) < level),
    decreases s.len(),
{
    if s.len() > 0 {
        let t = s.drop_last();
        assert(sorted_by_key(t, false));
        lemma_sorted_levels_are_prefixes(t, level);
        lemma_count_below_bounds(t, level);
        let e = s.last();
        assert forall|i: int| 0 <= i < s.len() implies (i < count_below(s, level) <==> drawn_lod(#[trigger] s[i]) < level) by {
            if drawn_lod(e) < level {
                assert forall|j: int| 0 <= j < t.len() implies drawn_lod(#[trigger] t[j]) < level by {
                    assert(sort_key(s[j], false) <= sort_key(s[s.len() - 1], false));
                    assert(t[j] == s[j]);
                }
                if t.len() > 0 {
                    assert(drawn_lod(t[t.len() - 1]) < level);
                }
                assert(count_below(t, level) == t.len());
            }
            if i < t.len() {
                assert(s[i] == t[i]);
            }
        }
    }
}

/// The draw commands of one frame: for each level of detail, the index range of
/// that level and the range of instances drawn with it.
pub fn build_draw_commands(
    chunk_instances: &Vec<TerrainChunk>,
    ranges: &[core::ops::Range<u32>],
) -> (r: [(core::ops::Range<u32>, core::ops::Range<u32>); 4])
    requires
        ranges@.len() >= LOD_COUNT,
        chunk_instances@.len() <= u32::MAX,
    ensures
        forall|l: int| 0 <= l < LOD_COUNT ==> {
            &&& (#[trigger] r@[l]).0.start == ranges@[l].start
            &&& r@[l].0.end == ranges@[l].end
            &&& r@[l].1.start == count_below(chunk_instances@, l)
            &&& r@[l].1.end == count_below(chunk_instances@, l + 1)
        },
{
    let mut counts: [u32; 4] = [0, 0, 0, 0];
    let mut i: usize = 0;
    while i < chunk_instances.len()
        invariant
            i <= chunk_instances@.len() <= u32::MAX,
            forall|l: int| 0 <= l < 4 ==> #[trigger] counts@[l] == count_below(chunk_instances@.subrange(0, i as int), l + 1)
                - count_below(chunk_instances@.subrange(0, i as int), l),
            forall|l: int| 0 <= l < 4 ==> #[trigger] counts@[l] <= i,
        decreases chunk_instances@.len() - i,
    {
        let lod = if chunk_instances[i].lod > LOD_MAX { LOD_MAX } else { chunk_instances[i].lod };
        counts[lod as usize] = counts[lod as usize] + 1;
        proof {
            let pre = chunk_instances@.subrange(0, i as int);
            let post = chunk_instances@.subrange(0, i + 1);
            assert(post.drop_last() =~= pre);
            assert(post.last() == chunk_instances@[i as int]);
            assert forall|l: int| 0 <= l < 4 implies #[trigger] counts@[l] <= i + 1 by {}
        }
        i += 1;
    }
    assert(chunk_instances@.subrange(0, i as int) =~= chunk_instances@);
    let ghost s = chunk_instances@;
    proof {
        lemma_count_below_bounds(s, 0);
        lemma_count_below_bounds(s, 4);
        lemma_count_below_mono(s, 0, 1);
        lemma_count_below_mono(s, 1, 2);
        lemma_count_below_mono(s, 2, 3);
        lemma_count_below_mono(s, 3, 4);
    }
    let o0: u32 = 0;
    let o1: u32 = o0 + counts[0];
    let o2: u32 = o1 + counts[1];
    let o3: u32 = o2 + counts[2];
    let r = [
        (ranges[0].start..ranges[0].end, o0..(o0 + counts[0])),
        (ranges[1].start..ranges[1].end, o1..(o1 + counts[1])),
        (ranges[2].start..ranges[2].end, o2..(o2 + counts[2])),
        (ranges[3].start..ranges[3].end, o3..(o3 + counts[3])),
    ];
    r
}


/// A strata instance sits on the edge its side names: east on the first column,
/// west on the last, south on the first row, north on the last.
pub open spec fn on_its_edge(c: TerrainChunk, dim_x: u32, dim_y: u32) -> bool {
    let side = side_of(c.flags);
    &&& 0 <= side < 4
    &&& side == EAST ==> c.coord.x == 0
    &&& side == WEST ==> c.coord.x == dim_x - 1
    &&& side == SOUTH ==> c.coord.y == 0
    &&& side == NORTH ==> c.coord.y == dim_y - 1
}

proof fn lemma_strata_in_order_on_edges(vs: Seq<VisibleChunk>, highlighted: Seq<ChunkCoord>, dim_x: u32, dim_y: u32, n: int)
    requires
        0 <= n <= vs.len(),
    ensures
        forall|i: int| 0 <= i < strata_in_order(vs, highlighted, dim_x, dim_y, n).len()
            ==> on_its_edge(#[trigger] strata_in_order(vs, highlighted, dim_x, dim_y, n)[i], dim_x, dim_y),
    decreases n,
{
    if n > 0 {
        lemma_strata_in_order_on_edges(vs, highlighted, dim_x, dim_y, n - 1);
        let prev = strata_in_order(vs, highlighted, dim_x, dim_y, n - 1);
        let c = chunk_instance(vs[n - 1], highlighted);
        let add = strata_of(c, dim_x, dim_y);
        assert(c.flags < 16 || (0x8000 <= c.flags < 0x8000 + 16));
        lemma_side_of_tagged(c.flags, EAST);
        lemma_side_of_tagged(c.flags, WEST);
        lemma_side_of_tagged(c.flags, SOUTH);
        lemma_side_of_tagged(c.flags, NORTH);
        let all = prev + add;
        assert forall|i: int| 0 <= i < all.len() implies on_its_edge(#[trigger] all[i], dim_x, dim_y) by {
            if i < prev.len() {
                assert(all[i] == prev[i]);
            } else {
                assert(all[i] == add[i - prev.len()]);
            }
        }
    }
}

/// Every strata instance of a snapshot sits on the terrain edge its side names,
/// whatever order the instances were sorted into.
pub proof fn lemma_strata_on_edges(
    vs: Seq<VisibleChunk>,
    highlighted: Seq<ChunkCoord>,
    dim_x: u32,
    dim_y: u32,
    strata: Seq<TerrainChunk>,
)
    requires
        strata.to_multiset() == strata_in_order(vs, highlighted, dim_x, dim_y, vs.len() as int).to_multiset(),
    ensures
        forall|i: int| 0 <= i < strata.len() ==> on_its_edge(#[trigger] strata[i], dim_x, dim_y),
{
    let src = strata_in_order(vs, highlighted, dim_x, dim_y, vs.len() as int);
    lemma_strata_in_order_on_edges(vs, highlighted, dim_x, dim_y, vs.len() as int);
    assert forall|i: int| 0 <= i < strata.len() implies on_its_edge(#[trigger] strata[i], dim_x, dim_y) by {
        assert(strata.to_multiset().contains(strata[i]));
        assert(src.to_multiset().contains(strata[i]));
        assert(src.contains(strata[i]));
        let j = choose|j: int| 0 <= j < src.len() && src[j] == strata[i];
        assert(on_its_edge(src[j], dim_x, dim_y));
    }
}

proof fn lemma_side_counts_total(s: Seq<TerrainChunk>)
    ensures
        count_side(s, 0) + count_side(s, 1) + count_side(s, 2) + count_side(s, 3) == s.len(),
    decreases s.len(),
{
    if s.len() > 0 {
        lemma_side_counts_total(s.drop_last());
    }
}

/// The per-side counts of a snapshot add up to its number of strata instances.
pub proof fn lemma_side_counts_add_up(
    vs: Seq<VisibleChunk>,
    highlighted: Seq<ChunkCoord>,
    dim_x: u32,
    dim_y: u32,
    strata: Seq<TerrainChunk>,
)
    requires
        strata.to_multiset() == strata_in_order(vs, highlighted, dim_x, dim_y, vs.len() as int).to_multiset(),
    ensures
        ({
            let src = strata_in_order(vs, highlighted, dim_x, dim_y, vs.len() as int);
            count_side(src, 0) + count_side(src, 1) + count_side(src, 2) + count_side(src, 3) == strata.len()
        }),
{
    let src = strata_in_order(vs, highlighted, dim_x, dim_y, vs.len() as int);
    lemma_side_counts_total(src);
    assert(strata.to_multiset().len() == strata.len());
    assert(src.to_multiset().len() == src.len());
}

} // verus!
