//! Layout of the terrain quad tree: every node covers a rectangle of chunks and
//! splits it into four quadrants until a node covers a single chunk. The
//! bounds and objects of the nodes are kept beside this layout, by node id.
use slab::Slab;
use vstd::prelude::*;
use crate::terrain::ChunkCoord;

verus! {

/// The slab type of the `slab` crate: a vector of occupied and vacant entries
/// handing out the key of a vacant entry on each insertion.
#[verifier::external_type_specification]
#[verifier::external_body]
#[verifier::reject_recursive_types(T)]
pub struct ExSlab<T>(Slab<T>);

/// The nodes a slab of quad tree nodes holds, by key.
pub uninterp spec fn slab_nodes(s: Slab<QuadNode>) -> Map<usize, QuadNode>;

/// The number of entries of a slab of quad tree nodes, occupied or vacant (the
/// length of its entry vector).
pub uninterp spec fn slab_entry_count(s: Slab<QuadNode>) -> nat;

/// `Slab::new`: a slab with no entries.
#[verifier::external_body]
fn slab_new() -> (r: Slab<QuadNode>)
    ensures
        slab_nodes(r).dom().is_empty(),
        slab_entry_count(r) == 0,
{
    Slab::new()
}

/// `Slab::insert`: stores `node` under the slab's next vacant key (a key that
/// holds no node) and returns that key; the other entries stay as they were.
/// When no entry is vacant (as many entries as nodes), that key is the number
/// of entries and the node is pushed as a new last entry.
#[verifier::external_body]
fn slab_insert(s: &mut Slab<QuadNode>, node: QuadNode) -> (key: usize)
    ensures
        !slab_nodes(*old(s)).contains_key(key),
        slab_nodes(*final(s)) == slab_nodes(*old(s)).insert(key, node),
        slab_entry_count(*old(s)) == slab_nodes(*old(s)).len() ==> {
            &&& key == slab_entry_count(*old(s))
            &&& slab_entry_count(*final(s)) == slab_entry_count(*old(s)) + 1
        },
{
    s.insert(node)
}

/// `Slab::get`: the node stored under `key`, if any.
#[verifier::external_body]
fn slab_get(s: &Slab<QuadNode>, key: usize) -> (r: Option<&QuadNode>)
    ensures
        slab_nodes(*s).contains_key(key) ==> r == Some(&slab_nodes(*s)[key]),
        !slab_nodes(*s).contains_key(key) ==> r is None,
{
    s.get(key)
}

/// `Slab::len`: the number of stored nodes.
#[verifier::external_body]
fn slab_len(s: &Slab<QuadNode>) -> (r: usize)
    requires
        slab_nodes(*s).dom().finite(),
    ensures
        r == slab_nodes(*s).len(),
{
    s.len()
}

/// Largest chunk coordinate the tree can be built over.
pub const MAX_CHUNK_COORD: i32 = 0x1000_0000;

/// One node of the tree.
#[derive(Clone, Copy, Debug)]
pub struct QuadNode {
    /// First chunk of the rectangle the node was built over.
    pub chunk_min: ChunkCoord,
    /// One past the last chunk of that rectangle.
    pub chunk_max: ChunkCoord,
    /// The node has no children.
    pub is_leaf: bool,
    /// Depth of the node; the root is at level 0.
    pub level: usize,
    /// Ids of the four quadrants: top-left, top-right, bottom-left, bottom-right.
    pub children: [Option<usize>; 4],
    /// The chunk a leaf stands for.
    pub chunk_coord: Option<ChunkCoord>,
}

/// The quad tree over a terrain's chunk grid.
pub struct QuadTree {
    nodes: Slab<QuadNode>,
    root: usize,
    max_level: usize,
}

/// Extent of a rectangle along one axis, counted as at least one chunk.
pub open spec fn span(lo: int, hi: int) -> int {
    if hi - lo > 1 { hi - lo } else { 1 }
}

/// Measure that shrinks from a node to each of its quadrants.
pub open spec fn measure(min: ChunkCoord, max: ChunkCoord) -> int {
    span(min.x as int, max.x as int) + span(min.y as int, max.y as int)
}

/// A node over this rectangle is a leaf.
pub open spec fn is_leaf_rect(min: ChunkCoord, max: ChunkCoord) -> bool {
    span(min.x as int, max.x as int) == 1 && span(min.y as int, max.y as int) == 1
}

/// The rectangle is inside the coordinate range the tree supports.
pub open spec fn rect_ok(min: ChunkCoord, max: ChunkCoord) -> bool {
    &&& 0 <= min.x <= max.x <= MAX_CHUNK_COORD
    &&& 0 <= min.y <= max.y <= MAX_CHUNK_COORD
}

/// The center of the rectangle, rounded down.
pub open spec fn mid(min: ChunkCoord, max: ChunkCoord) -> ChunkCoord {
    ChunkCoord { x: ((min.x + max.x) / 2) as i32, y: ((min.y + max.y) / 2) as i32 }
}

/// First chunk of quadrant `k`: top-left, top-right, bottom-left, bottom-right.
pub open spec fn quadrant_min(min: ChunkCoord, max: ChunkCoord, k: int) -> ChunkCoord {
    let m = mid(min, max);
    if k == 0 {
        ChunkCoord { x: min.x, y: m.y }
    } else if k == 1 {
        m
    } else if k == 2 {
        min
    } else {
        ChunkCoord { x: m.x, y: min.y }
    }
}

/// One past the last chunk of quadrant `k`.
pub open spec fn quadrant_max(min: ChunkCoord, max: ChunkCoord, k: int) -> ChunkCoord {
    let m = mid(min, max);
    if k == 0 {
        ChunkCoord { x: m.x, y: max.y }
    } else if k == 1 {
        max
    } else if k == 2 {
        m
    } else {
        ChunkCoord { x: max.x, y: m.y }
    }
}

/// Number of nodes of the tree over `min..max`: the node and those of its quadrants.
pub open spec fn node_count(min: ChunkCoord, max: ChunkCoord) -> nat
    decreases measure(min, max),
{
    if !rect_ok(min, max) || is_leaf_rect(min, max) {
        1
    } else {
        proof { lemma_quadrants(min, max); }
        1 + node_count(quadrant_min(min, max, 0), quadrant_max(min, max, 0))
            + node_count(quadrant_min(min, max, 1), quadrant_max(min, max, 1))
            + node_count(quadrant_min(min, max, 2), quadrant_max(min, max, 2))
            + node_count(quadrant_min(min, max, 3), quadrant_max(min, max, 3))
    }
}

/// The child of a node in quadrant `k`, taken as present.
pub open spec fn child(nodes: Map<usize, QuadNode>, id: usize, k: int) -> usize {
    nodes[id].children@[k]->Some_0
}

/// Ids of the nodes a frustum walk from `id` visits, in visiting order, given
/// for each node id whether its box meets the frustum (an id past the end of
/// `in_frustum` counts as outside). A node outside the frustum is skipped with
/// everything below it; a visited node comes first, then the walks of its
/// quadrants in child order.
pub open spec fn frustum_walk(nodes: Map<usize, QuadNode>, in_frustum: Seq<bool>, id: usize) -> Seq<usize>
    decreases measure(nodes[id].chunk_min, nodes[id].chunk_max),
    when nodes_ok(nodes) && nodes.contains_key(id)
{
    if !(id < in_frustum.len() && in_frustum[id as int]) {
        Seq::empty()
    } else if nodes[id].is_leaf {
        seq![id]
    } else {
        proof {
            assert(node_ok(nodes, id));
            lemma_quadrants(nodes[id].chunk_min, nodes[id].chunk_max);
            assert(nodes[id].children@[0] is Some);
            assert(nodes[id].children@[1] is Some);
            assert(nodes[id].children@[2] is Some);
            assert(nodes[id].children@[3] is Some);
        }
        seq![id] + frustum_walk(nodes, in_frustum, child(nodes, id, 0))
            + frustum_walk(nodes, in_frustum, child(nodes, id, 1))
            + frustum_walk(nodes, in_frustum, child(nodes, id, 2))
            + frustum_walk(nodes, in_frustum, child(nodes, id, 3))
    }
}

/// The node `id` is laid out as the tree builds it: a leaf exactly when its
/// rectangle spans one chunk each way, holding that chunk; otherwise four
/// quadrant children one level deeper.
pub open spec fn node_ok(nodes: Map<usize, QuadNode>, id: usize) -> bool {
    let n = nodes[id];
    &&& rect_ok(n.chunk_min, n.chunk_max)
    &&& n.is_leaf == is_leaf_rect(n.chunk_min, n.chunk_max)
    &&& n.is_leaf ==> {
        &&& n.chunk_coord == Some(n.chunk_min)
        &&& forall|k: int| 0 <= k < 4 ==> #[trigger] n.children@[k] is None
    }
    &&& !n.is_leaf ==> {
        &&& n.chunk_coord is None
        &&& forall|k: int| 0 <= k < 4 ==> {
            &&& #[trigger] n.children@[k] matches Some(c)
            &&& nodes.contains_key(c)
            &&& nodes[c].level == n.level + 1
            &&& nodes[c].chunk_min == quadrant_min(n.chunk_min, n.chunk_max, k)
            &&& nodes[c].chunk_max == quadrant_max(n.chunk_min, n.chunk_max, k)
        }
    }
}

/// Every node is laid out as the tree builds it.
pub open spec fn nodes_ok(nodes: Map<usize, QuadNode>) -> bool {
    &&& nodes.dom().finite()
    &&& forall|id: usize| #[trigger] nodes.contains_key(id) ==> node_ok(nodes, id)
}

/// The node ids are exactly `0..len`.
pub open spec fn ids_dense(nodes: Map<usize, QuadNode>) -> bool {
    forall|k: usize| #[trigger] nodes.contains_key(k) <==> k < nodes.len()
}

/// `b` holds every node of `a` unchanged.
pub open spec fn extends(a: Map<usize, QuadNode>, b: Map<usize, QuadNode>) -> bool {
    forall|k: usize| #[trigger] a.contains_key(k) ==> b.contains_key(k) && b[k] == a[k]
}

/// Each quadrant of a rectangle that is not a single chunk lies in range and is smaller.
pub proof fn lemma_quadrants(min: ChunkCoord, max: ChunkCoord)
    requires
        rect_ok(min, max),
        !is_leaf_rect(min, max),
    ensures
        forall|k: int| 0 <= k < 4 ==> {
            &&& rect_ok(#[trigger] quadrant_min(min, max, k), quadrant_max(min, max, k))
            &&& measure(quadrant_min(min, max, k), quadrant_max(min, max, k)) < measure(min, max)
        },
{
}

/// Adding nodes keeps every node laid out as before.
proof fn lemma_extend_keeps_ok(a: Map<usize, QuadNode>, b: Map<usize, QuadNode>, id: usize)
    requires
        extends(a, b),
        a.contains_key(id),
        node_ok(a, id),
    ensures
        node_ok(b, id),
{
    let n = a[id];
    if !n.is_leaf {
        assert forall|k: int| 0 <= k < 4 implies {
            &&& #[trigger] n.children@[k] matches Some(c)
            &&& b.contains_key(c)
            &&& b[c].level == n.level + 1
            &&& b[c].chunk_min == quadrant_min(n.chunk_min, n.chunk_max, k)
            &&& b[c].chunk_max == quadrant_max(n.chunk_min, n.chunk_max, k)
        } by {
            let c = n.children@[k]->Some_0;
            assert(a.contains_key(c));
        }
    }
}

impl QuadTree {
    /// The nodes, by id.
    pub closed spec fn nodes(&self) -> Map<usize, QuadNode> {
        slab_nodes(self.nodes)
    }

    /// Id of the root node.
    pub closed spec fn root(&self) -> usize {
        self.root
    }

    /// Deepest level of any node.
    pub closed spec fn deepest(&self) -> usize {
        self.max_level
    }

    /// No entry of the slab is vacant.
    pub closed spec fn no_vacant(&self) -> bool {
        slab_entry_count(self.nodes) == self.nodes().len()
    }

    /// The tree is laid out as `from_chunk_grid` builds it, with node ids
    /// `0..len`.
    pub open spec fn wf(&self) -> bool {
        &&& nodes_ok(self.nodes())
        &&& self.no_vacant()
        &&& ids_dense(self.nodes())
        &&& self.nodes().contains_key(self.root())
        &&& forall|id: usize| #[trigger] self.nodes().contains_key(id) ==> self.nodes()[id].level <= self.deepest()
        &&& exists|id: usize| #[trigger] self.nodes().contains_key(id) && self.nodes()[id].level == self.deepest()
    }

    /// Build the node over `chunk_min..chunk_max` (after its quadrants) and return its id.
    fn build_new_node(&mut self, chunk_min: ChunkCoord, chunk_max: ChunkCoord, level: usize) -> (id: usize)
        requires
            nodes_ok(old(self).nodes()),
            old(self).no_vacant(),
            ids_dense(old(self).nodes()),
            rect_ok(chunk_min, chunk_max),
            level + measure(chunk_min, chunk_max) < usize::MAX,
        ensures
            nodes_ok(final(self).nodes()),
            final(self).no_vacant(),
            ids_dense(final(self).nodes()),
            extends(old(self).nodes(), final(self).nodes()),
            final(self).nodes().len() == old(self).nodes().len() + node_count(chunk_min, chunk_max),
            !old(self).nodes().contains_key(id),
            final(self).nodes().contains_key(id),
            final(self).nodes()[id].chunk_min == chunk_min,
            final(self).nodes()[id].chunk_max == chunk_max,
            final(self).nodes()[id].level == level,
            final(self).root == old(self).root,
            final(self).max_level >= old(self).max_level,
            final(self).max_level >= level,
            forall|j: usize| #[trigger] final(self).nodes().contains_key(j) && !old(self).nodes().contains_key(j)
                ==> final(self).nodes()[j].level <= final(self).max_level,
            final(self).max_level == old(self).max_level || exists|j: usize|
                #[trigger] final(self).nodes().contains_key(j) && !old(self).nodes().contains_key(j)
                && final(self).nodes()[j].level == final(self).max_level,
        decreases measure(chunk_min, chunk_max),
    {
        let size_x: i32 = if chunk_max.x - chunk_min.x > 1 { chunk_max.x - chunk_min.x } else { 1 };
        let size_y: i32 = if chunk_max.y - chunk_min.y > 1 { chunk_max.y - chunk_min.y } else { 1 };
        let is_leaf = size_x == 1 && size_y == 1;
        let ghost start = self.nodes();
        let mut children: [Option<usize>; 4] = [None, None, None, None];
        if !is_leaf {
            proof { lemma_quadrants(chunk_min, chunk_max); }
            let center = ChunkCoord { x: (chunk_min.x + chunk_max.x) / 2, y: (chunk_min.y + chunk_max.y) / 2 };
            assert(center == mid(chunk_min, chunk_max));
            let rects: [(ChunkCoord, ChunkCoord); 4] = [
                (ChunkCoord { x: chunk_min.x, y: center.y }, ChunkCoord { x: center.x, y: chunk_max.y }),
                (ChunkCoord { x: center.x, y: center.y }, ChunkCoord { x: chunk_max.x, y: chunk_max.y }),
                (ChunkCoord { x: chunk_min.x, y: chunk_min.y }, ChunkCoord { x: center.x, y: center.y }),
                (ChunkCoord { x: center.x, y: chunk_min.y }, ChunkCoord { x: chunk_max.x, y: center.y }),
            ];
            let mut k: usize = 0;
            while k < 4
                invariant
                    k <= 4,
                    nodes_ok(self.nodes()),
                    self.no_vacant(),
                    ids_dense(self.nodes()),
                    !is_leaf_rect(chunk_min, chunk_max),
                    rect_ok(chunk_min, chunk_max),
                    level + measure(chunk_min, chunk_max) < usize::MAX,
                    extends(start, self.nodes()),
                    self.nodes().len() == start.len() + (if k > 0 { node_count(quadrant_min(chunk_min, chunk_max, 0), quadrant_max(chunk_min, chunk_max, 0)) } else { 0 })
                        + (if k > 1 { node_count(quadrant_min(chunk_min, chunk_max, 1), quadrant_max(chunk_min, chunk_max, 1)) } else { 0 })
                        + (if k > 2 { node_count(quadrant_min(chunk_min, chunk_max, 2), quadrant_max(chunk_min, chunk_max, 2)) } else { 0 })
                        + (if k > 3 { node_count(quadrant_min(chunk_min, chunk_max, 3), quadrant_max(chunk_min, chunk_max, 3)) } else { 0 }),
                    self.root == old(self).root,
                    self.max_level >= old(self).max_level,
                    forall|q: int| 0 <= q < 4 ==> (#[trigger] rects@[q]).0 == quadrant_min(chunk_min, chunk_max, q)
                        && rects@[q].1 == quadrant_max(chunk_min, chunk_max, q),
                    forall|q: int| 0 <= q < 4 ==> measure(#[trigger] quadrant_min(chunk_min, chunk_max, q), quadrant_max(chunk_min, chunk_max, q)) < measure(chunk_min, chunk_max),
                    forall|q: int| 0 <= q < 4 ==> rect_ok(#[trigger] quadrant_min(chunk_min, chunk_max, q), quadrant_max(chunk_min, chunk_max, q)),
                    forall|q: int| 0 <= q < k ==> {
                        &&& #[trigger] children@[q] matches Some(c)
                        &&& self.nodes().contains_key(c)
                        &&& !start.contains_key(c)
                        &&& self.nodes()[c].level == level + 1
                        &&& self.nodes()[c].chunk_min == quadrant_min(chunk_min, chunk_max, q)
                        &&& self.nodes()[c].chunk_max == quadrant_max(chunk_min, chunk_max, q)
                    },
                    forall|j: usize| #[trigger] self.nodes().contains_key(j) && !start.contains_key(j) ==> self.nodes()[j].level <= self.max_level,
                    self.max_level == old(self).max_level || exists|j: usize|
                        #[trigger] self.nodes().contains_key(j) && !start.contains_key(j) && self.nodes()[j].level == self.max_level,
                decreases 4 - k,
            {
                let (cmin, cmax) = rects[k];
                let ghost before = self.nodes();
                let ghost before_max = self.max_level;
                let child = self.build_new_node(cmin, cmax, level + 1);
                proof {
                    let after = self.nodes();
                    assert forall|q: int| 0 <= q < k implies #[trigger] children@[q] matches Some(c) && after.contains_key(c) && after[c] == before[c] by {
                        let c = children@[q]->Some_0;
                        assert(before.contains_key(c));
                    }
                    assert forall|j: usize| #[trigger] start.contains_key(j) implies after.contains_key(j) && after[j] == start[j] by {
                        assert(before.contains_key(j));
                    }
                    assert forall|j: usize| #[trigger] after.contains_key(j) && !start.contains_key(j) implies after[j].level <= self.max_level by {
                        if before.contains_key(j) {
                            assert(after[j] == before[j]);
                        }
                    }
                    if self.max_level != old(self).max_level {
                        if self.max_level == before_max {
                            let j = choose|j: usize| #[trigger] before.contains_key(j) && !start.contains_key(j) && before[j].level == before_max;
                            assert(after.contains_key(j) && after[j] == before[j]);
                        }
                    }
                }
                children[k] = Some(child);
                k += 1;
            }
        }
        let chunk_coord = if is_leaf { Some(chunk_min) } else { None };
        let node = QuadNode { chunk_min, chunk_max, is_leaf, level, children, chunk_coord };
        let ghost before = self.nodes();
        let ghost before_max = self.max_level;
        if level > self.max_level {
            self.max_level = level;
        }
        let id = slab_insert(&mut self.nodes, node);
        proof {
            let after = self.nodes();
            assert(after.dom() =~= before.dom().insert(id));
            assert(!before.dom().contains(id));
            assert(extends(before, after));
            assert forall|j: usize| #[trigger] after.contains_key(j) implies node_ok(after, j) by {
                if j != id {
                    lemma_extend_keeps_ok(before, after, j);
                } else {
                    if !is_leaf {
                        assert forall|k: int| 0 <= k < 4 implies #[trigger] node.children@[k] matches Some(c) && after.contains_key(c) && after[c] == before[c] by {
                            let c = node.children@[k]->Some_0;
                            assert(before.contains_key(c));
                        }
                    }
                }
            }
            assert forall|j: usize| #[trigger] start.contains_key(j) implies after.contains_key(j) && after[j] == start[j] by {
                assert(before.contains_key(j));
            }
            assert(!start.contains_key(id)) by {
                if start.contains_key(id) {
                    assert(before.contains_key(id));
                }
            }
            assert forall|j: usize| #[trigger] after.contains_key(j) && !start.contains_key(j) implies after[j].level <= self.max_level by {
                if j != id {
                    assert(after[j] == before[j]);
                }
            }
            if self.max_level != old(self).max_level {
                if self.max_level == level {
                    assert(after.contains_key(id) && after[id].level == self.max_level);
                } else {
                    let j = choose|j: usize| #[trigger] before.contains_key(j) && !start.contains_key(j) && before[j].level == before_max;
                    assert(after.contains_key(j) && after[j] == before[j]);
                }
            }
        }
        id
    }

    /// Build the tree over a grid of `dim_x * dim_y` chunks.
    pub fn from_chunk_grid(dim_x: u32, dim_y: u32) -> (r: Self)
        requires
            dim_x <= MAX_CHUNK_COORD,
            dim_y <= MAX_CHUNK_COORD,
        ensures
            r.wf(),
            r.nodes().len() == node_count(ChunkCoord { x: 0, y: 0 }, ChunkCoord { x: dim_x as i32, y: dim_y as i32 }),
            r.nodes()[r.root()].chunk_min == (ChunkCoord { x: 0, y: 0 }),
            r.nodes()[r.root()].chunk_max == (ChunkCoord { x: dim_x as i32, y: dim_y as i32 }),
            r.nodes()[r.root()].level == 0,
    {
        let mut tree = QuadTree { nodes: slab_new(), root: 0, max_level: 0 };
        assert(tree.nodes().dom() =~= Set::<usize>::empty());
        assert(nodes_ok(tree.nodes()));
        let max = ChunkCoord { x: dim_x as i32, y: dim_y as i32 };
        let root = tree.build_new_node(ChunkCoord { x: 0, y: 0 }, max, 0);
        tree.root = root;
        proof {
            if tree.max_level == 0 {
                assert(tree.nodes().contains_key(root) && tree.nodes()[root].level == tree.max_level);
            }
        }
        tree
    }

    /// Deepest level of any node.
    pub fn max_level(&self) -> (r: usize)
        ensures
            r == self.deepest(),
    {
        self.max_level
    }

    /// Number of nodes.
    pub fn len(&self) -> (r: usize)
        requires
            self.wf(),
        ensures
            r == self.nodes().len(),
    {
        slab_len(&self.nodes)
    }

    /// Id of the root node.
    pub fn root_id(&self) -> (r: usize)
        ensures
            r == self.root(),
    {
        self.root
    }

    /// Append to `out` the ids of the nodes a frustum walk from `id` visits.
    fn collect_visible_nodes(&self, id: usize, in_frustum: &Vec<bool>, out: &mut Vec<usize>)
        requires
            nodes_ok(self.nodes()),
            self.nodes().contains_key(id),
        ensures
            final(out)@ == old(out)@ + frustum_walk(self.nodes(), in_frustum@, id),
        decreases measure(self.nodes()[id].chunk_min, self.nodes()[id].chunk_max),
    {
        let nodes = Ghost(self.nodes());
        let node = match slab_get(&self.nodes, id) {
            Some(n) => n,
            None => {
                return;
            },
        };
        if !(id < in_frustum.len() && in_frustum[id]) {
            assert(out@ == old(out)@ + Seq::<usize>::empty());
            return;
        }
        out.push(id);
        if !node.is_leaf {
            proof {
                assert(node_ok(nodes@, id));
                lemma_quadrants(node.chunk_min, node.chunk_max);
            }
            let ghost walks = Seq::new(4, |k: int| frustum_walk(nodes@, in_frustum@, child(nodes@, id, k)));
            let mut k: usize = 0;
            while k < 4
                invariant
                    k <= 4,
                    nodes@ == self.nodes(),
                    nodes_ok(nodes@),
                    nodes@.contains_key(id),
                    *node == nodes@[id],
                    !node.is_leaf,
                    node_ok(nodes@, id),
                    forall|q: int| 0 <= q < 4 ==> measure(#[trigger] quadrant_min(node.chunk_min, node.chunk_max, q), quadrant_max(node.chunk_min, node.chunk_max, q)) < measure(node.chunk_min, node.chunk_max),
                    forall|q: int| 0 <= q < 4 ==> #[trigger] walks[q] == frustum_walk(nodes@, in_frustum@, child(nodes@, id, q)),
                    out@ == old(out)@ + seq![id] + (if k > 0 { walks[0] } else { Seq::empty() })
                        + (if k > 1 { walks[1] } else { Seq::empty() })
                        + (if k > 2 { walks[2] } else { Seq::empty() })
                        + (if k > 3 { walks[3] } else { Seq::empty() }),
                decreases 4 - k,
            {
                let c = match node.children[k] {
                    Some(c) => c,
                    None => {
                        assert(false);
                        0
                    },
                };
                assert(c == child(nodes@, id, k as int));
                assert(walks[k as int] == frustum_walk(nodes@, in_frustum@, c));
                self.collect_visible_nodes(c, in_frustum, out);
                k += 1;
            }
        } else {
            assert(out@ == old(out)@ + seq![id]);
        }
    }

    /// Ids of the nodes whose boxes meet the view frustum, in the order a walk
    /// from the root visits them, skipping each node outside the frustum with
    /// everything below it. `in_frustum[id]` says whether the box of node
    /// `id` meets the frustum.
    pub fn with_nodes_in_frustum(&self, in_frustum: &Vec<bool>) -> (r: Vec<usize>)
        requires
            self.wf(),
        ensures
            r@ == frustum_walk(self.nodes(), in_frustum@, self.root()),
    {
        let mut out: Vec<usize> = Vec::new();
        self.collect_visible_nodes(self.root, in_frustum, &mut out);
        assert(out@ == frustum_walk(self.nodes(), in_frustum@, self.root()));
        out
    }

    /// The node with id `id`, if there is one.
    pub fn node(&self, id: usize) -> (r: Option<&QuadNode>)
        ensures
            self.nodes().contains_key(id) ==> r == Some(&self.nodes()[id]),
            !self.nodes().contains_key(id) ==> r is None,
    {
        slab_get(&self.nodes, id)
    }
}

/// Following at most `depth` child links from `id` leads to a leaf that stands
/// for chunk `p`.
pub open spec fn reaches_leaf(nodes: Map<usize, QuadNode>, id: usize, p: ChunkCoord, depth: nat) -> bool
    decreases depth,
{
    &&& nodes.contains_key(id)
    &&& {
        ||| nodes[id].is_leaf && nodes[id].chunk_coord == Some(p)
        ||| depth > 0 && !nodes[id].is_leaf && exists|k: int| 0 <= k < 4 && (#[trigger] nodes[id].children@[k] matches Some(c)
            && reaches_leaf(nodes, c, p, (depth - 1) as nat))
    }
}

/// The chunk `p` lies in the rectangle `min..max`.
pub open spec fn in_rect(p: ChunkCoord, min: ChunkCoord, max: ChunkCoord) -> bool {
    min.x <= p.x < max.x && min.y <= p.y < max.y
}

/// Every chunk inside the rectangle of a node is the chunk of a leaf below it:
/// the quadrants of a node leave no chunk out.
pub proof fn lemma_every_chunk_has_leaf(nodes: Map<usize, QuadNode>, id: usize, p: ChunkCoord, depth: nat)
    requires
        nodes_ok(nodes),
        nodes.contains_key(id),
        in_rect(p, nodes[id].chunk_min, nodes[id].chunk_max),
        depth >= measure(nodes[id].chunk_min, nodes[id].chunk_max),
    ensures
        reaches_leaf(nodes, id, p, depth),
    decreases measure(nodes[id].chunk_min, nodes[id].chunk_max),
{
    let n = nodes[id];
    assert(node_ok(nodes, id));
    if n.is_leaf {
        assert(p == n.chunk_min);
    } else {
        lemma_quadrants(n.chunk_min, n.chunk_max);
        let m = mid(n.chunk_min, n.chunk_max);
        let k: int = if p.x < m.x {
            if p.y < m.y { 2 } else { 0 }
        } else {
            if p.y < m.y { 3 } else { 1 }
        };
        assert(n.children@[k] is Some);
        let c = n.children@[k]->Some_0;
        assert(in_rect(p, nodes[c].chunk_min, nodes[c].chunk_max));
        lemma_every_chunk_has_leaf(nodes, c, p, (depth - 1) as nat);
        assert(n.children@[k] matches Some(c) && reaches_leaf(nodes, c, p, (depth - 1) as nat));
    }
}

impl QuadTree {
    /// Every chunk of the grid the tree was built over is the chunk of a leaf
    /// reachable from the root.
    pub proof fn lemma_covers_grid(&self, p: ChunkCoord)
        requires
            self.wf(),
            in_rect(p, self.nodes()[self.root()].chunk_min, self.nodes()[self.root()].chunk_max),
        ensures
            reaches_leaf(
                self.nodes(),
                self.root(),
                p,
                measure(self.nodes()[self.root()].chunk_min, self.nodes()[self.root()].chunk_max) as nat,
            ),
    {
        lemma_every_chunk_has_leaf(
            self.nodes(),
            self.root(),
            p,
            measure(self.nodes()[self.root()].chunk_min, self.nodes()[self.root()].chunk_max) as nat,
        );
    }
}

/// A frustum walk only visits nodes of the tree whose boxes meet the frustum,
/// and when every box meets it, the walk visits as many nodes as the tree
/// over the node's rectangle has.
pub proof fn lemma_frustum_walk(nodes: Map<usize, QuadNode>, in_frustum: Seq<bool>, id: usize)
    requires
        nodes_ok(nodes),
        nodes.contains_key(id),
    ensures
        forall|i: int| 0 <= i < frustum_walk(nodes, in_frustum, id).len() ==> {
            let v = #[trigger] frustum_walk(nodes, in_frustum, id)[i];
            &&& nodes.contains_key(v)
            &&& v < in_frustum.len()
            &&& in_frustum[v as int]
        },
        (forall|j: usize| #[trigger] nodes.contains_key(j) ==> j < in_frustum.len() && in_frustum[j as int])
            ==> frustum_walk(nodes, in_frustum, id).len() == node_count(nodes[id].chunk_min, nodes[id].chunk_max),
    decreases measure(nodes[id].chunk_min, nodes[id].chunk_max),
{
    let n = nodes[id];
    assert(node_ok(nodes, id));
    let w = frustum_walk(nodes, in_frustum, id);
    if !(id < in_frustum.len() && in_frustum[id as int]) {
    } else if n.is_leaf {
        assert(w == seq![id]);
    } else {
        lemma_quadrants(n.chunk_min, n.chunk_max);
        let c0 = child(nodes, id, 0);
        let c1 = child(nodes, id, 1);
        let c2 = child(nodes, id, 2);
        let c3 = child(nodes, id, 3);
        assert(n.children@[0] is Some && n.children@[1] is Some && n.children@[2] is Some && n.children@[3] is Some);
        lemma_frustum_walk(nodes, in_frustum, c0);
        lemma_frustum_walk(nodes, in_frustum, c1);
        lemma_frustum_walk(nodes, in_frustum, c2);
        lemma_frustum_walk(nodes, in_frustum, c3);
        let w0 = frustum_walk(nodes, in_frustum, c0);
        let w1 = frustum_walk(nodes, in_frustum, c1);
        let w2 = frustum_walk(nodes, in_frustum, c2);
        let w3 = frustum_walk(nodes, in_frustum, c3);
        assert(w == seq![id] + w0 + w1 + w2 + w3);
        assert forall|i: int| 0 <= i < w.len() implies {
            let v = #[trigger] w[i];
            &&& nodes.contains_key(v)
            &&& v < in_frustum.len()
            &&& in_frustum[v as int]
        } by {
            let a = 1 + w0.len();
            let b = a + w1.len();
            let c = b + w2.len();
            if i == 0 {
            } else if i < a {
                assert(w[i] == w0[i - 1]);
            } else if i < b {
                assert(w[i] == w1[i - a]);
            } else if i < c {
                assert(w[i] == w2[i - b]);
            } else {
                assert(w[i] == w3[i - c]);
            }
        }
    }
}

impl QuadTree {
    /// A frustum walk of the tree visits only nodes of the tree whose boxes
    /// meet the frustum; when all do, it visits as many nodes as the tree has.
    pub proof fn lemma_walk_of_tree(&self, in_frustum: Seq<bool>)
        requires
            self.wf(),
        ensures
            forall|i: int| 0 <= i < frustum_walk(self.nodes(), in_frustum, self.root()).len() ==> {
                let v = #[trigger] frustum_walk(self.nodes(), in_frustum, self.root())[i];
                &&& self.nodes().contains_key(v)
                &&& v < in_frustum.len()
                &&& in_frustum[v as int]
            },
            (forall|j: usize| #[trigger] self.nodes().contains_key(j) ==> j < in_frustum.len() && in_frustum[j as int])
                ==> frustum_walk(self.nodes(), in_frustum, self.root()).len() == node_count(
                    self.nodes()[self.root()].chunk_min,
                    self.nodes()[self.root()].chunk_max,
                ),
    {
        lemma_frustum_walk(self.nodes(), in_frustum, self.root());
    }
}

} // verus!
