//! GPU-side layout of models: the vertices, indices and nodes of every model
//! are appended to shared buffers, and each model keeps the index range of each
//! of its meshes, sorted by how the mesh is blended.
use core::ops::Range;
use vstd::prelude::*;
use crate::storage::{Handle, Storage};
use crate::textures::BlendMode;

verus! {

/// One drawable mesh: a range in the shared index buffer and its texture.
#[derive(Debug)]
pub struct RenderMesh {
    pub index_range: Range<u32>,
    pub texture: usize,
}

/// The meshes of a model split by blend mode, and its range of nodes.
#[derive(Debug)]
pub struct RenderModel {
    pub opaque_meshes: Vec<RenderMesh>,
    pub keyed_meshes: Vec<RenderMesh>,
    pub alpha_meshes: Vec<RenderMesh>,
    pub nodes_range: Range<u32>,
}

/// A mesh of a model as loaded: its vertex count, its indices into its own
/// vertices, its texture and how that texture blends.
#[derive(Debug)]
pub struct MeshSource {
    pub vertex_count: u32,
    pub indices: Vec<u32>,
    pub texture: usize,
    pub blend_mode: BlendMode,
}

/// What to write into the shared buffers for one mesh: the range of its
/// vertices and its indices shifted to that range.
#[derive(Debug)]
pub struct MeshUpload {
    pub vertex_range: Range<u32>,
    pub indices: Vec<u32>,
}

/// Vertices of the meshes before mesh `i`.
pub open spec fn vertices_before(ms: Seq<MeshSource>, i: int) -> int
    decreases i,
{
    if i <= 0 { 0 } else { vertices_before(ms, i - 1) + ms[i - 1].vertex_count }
}

/// Indices of the meshes before mesh `i`.
pub open spec fn indices_before(ms: Seq<MeshSource>, i: int) -> int
    decreases i,
{
    if i <= 0 { 0 } else { indices_before(ms, i - 1) + ms[i - 1].indices@.len() }
}

/// Mesh `i`'s indices, shifted past the `vb` vertices already in the buffer and
/// the vertices of the meshes before it.
pub open spec fn shifted_indices(ms: Seq<MeshSource>, i: int, vb: int) -> Seq<u32> {
    ms[i].indices@.map_values(|x: u32| (x + vb + vertices_before(ms, i)) as u32)
}

/// The render mesh of mesh `i` when the index buffer held `ib` indices.
pub open spec fn render_mesh(ms: Seq<MeshSource>, i: int, ib: int) -> (Range<u32>, usize) {
    (((ib + indices_before(ms, i)) as u32)..((ib + indices_before(ms, i + 1)) as u32), ms[i].texture)
}

/// Index range and texture of a render mesh.
pub open spec fn mesh_key(m: RenderMesh) -> (Range<u32>, usize) {
    (m.index_range, m.texture)
}

/// Render meshes of the first `n` meshes blended with `mode`, in order.
pub open spec fn meshes_with(ms: Seq<MeshSource>, n: int, mode: BlendMode, ib: int) -> Seq<(Range<u32>, usize)>
    decreases n,
{
    if n <= 0 {
        seq![]
    } else if ms[n - 1].blend_mode == mode {
        meshes_with(ms, n - 1, mode, ib).push(render_mesh(ms, n - 1, ib))
    } else {
        meshes_with(ms, n - 1, mode, ib)
    }
}

/// `m` is the render model made from meshes `ms` and `node_count` nodes when the
/// shared buffers held `ib` indices and `nb` nodes: each blend mode lists the
/// index ranges and textures of its meshes in order, and the nodes follow the
/// `nb` nodes already there.
pub open spec fn model_of(m: RenderModel, ms: Seq<MeshSource>, node_count: int, ib: int, nb: int) -> bool {
    &&& m.opaque_meshes@.map_values(|x: RenderMesh| mesh_key(x)) == meshes_with(ms, ms.len() as int, BlendMode::Opaque, ib)
    &&& m.keyed_meshes@.map_values(|x: RenderMesh| mesh_key(x)) == meshes_with(ms, ms.len() as int, BlendMode::ColorKeyed, ib)
    &&& m.alpha_meshes@.map_values(|x: RenderMesh| mesh_key(x)) == meshes_with(ms, ms.len() as int, BlendMode::Alpha, ib)
    &&& m.nodes_range == ((nb as u32)..((nb + node_count) as u32))
}

/// `uploads` are what to write for meshes `ms` when the vertex buffer held `vb`
/// vertices: one per mesh, its vertex range and its shifted indices.
pub open spec fn uploads_of(uploads: Seq<MeshUpload>, ms: Seq<MeshSource>, vb: int) -> bool {
    &&& uploads.len() == ms.len()
    &&& forall|i: int| 0 <= i < ms.len() ==> {
        &&& (#[trigger] uploads[i]).vertex_range == (((vb + vertices_before(ms, i)) as u32)..((vb + vertices_before(ms, i + 1)) as u32))
        &&& uploads[i].indices@ == shifted_indices(ms, i, vb)
    }
}

/// The shared buffers `b` are `a` with the vertices, indices and nodes of one
/// model appended.
pub open spec fn counts_after(a: RenderModels, b: RenderModels, ms: Seq<MeshSource>, node_count: int) -> bool {
    &&& b.vertex_count() == a.vertex_count() + vertices_before(ms, ms.len() as int)
    &&& b.index_count() == a.index_count() + indices_before(ms, ms.len() as int)
    &&& b.node_count() == a.node_count() + node_count
}

/// The meshes and nodes of a model fit the shared buffers' `u32` offsets.
pub open spec fn fits(ms: Seq<MeshSource>, node_count: int, vb: int, ib: int, nb: int) -> bool {
    &&& vb + vertices_before(ms, ms.len() as int) <= u32::MAX
    &&& ib + indices_before(ms, ms.len() as int) <= u32::MAX
    &&& nb + node_count <= u32::MAX
    &&& forall|i: int, j: int| 0 <= i < ms.len() && 0 <= j < ms[i].indices@.len()
        ==> #[trigger] ms[i].indices@[j] + vb + vertices_before(ms, i) <= u32::MAX
}

proof fn lemma_before_mono(ms: Seq<MeshSource>, i: int, j: int)
    requires
        0 <= i <= j,
    ensures
        vertices_before(ms, i) <= vertices_before(ms, j),
        indices_before(ms, i) <= indices_before(ms, j),
    decreases j,
{
    if i < j {
        lemma_before_mono(ms, i, j - 1);
    }
}

/// The shared buffers of all models: how much of each is used, and the models.
pub struct RenderModels {
    vertices_len: u32,
    indices_len: u32,
    nodes_len: u32,
    models: Storage<RenderModel>,
}

impl RenderModels {
    /// Vertices in the shared vertex buffer.
    pub closed spec fn vertex_count(&self) -> int {
        self.vertices_len as int
    }

    /// Indices in the shared index buffer.
    pub closed spec fn index_count(&self) -> int {
        self.indices_len as int
    }

    /// Nodes in the shared node buffer.
    pub closed spec fn node_count(&self) -> int {
        self.nodes_len as int
    }

    /// The render models, by handle.
    pub closed spec fn models(&self) -> Seq<RenderModel> {
        self.models.view()
    }

    /// Empty buffers, no models.
    pub fn new() -> (r: Self)
        ensures
            r.vertex_count() == 0,
            r.index_count() == 0,
            r.node_count() == 0,
            r.models().len() == 0,
    {
        RenderModels { vertices_len: 0, indices_len: 0, nodes_len: 0, models: Storage::new() }
    }

    /// The render model of `handle`.
    pub fn get(&self, handle: Handle<RenderModel>) -> (r: Option<&RenderModel>)
        ensures
            0 <= handle.id() < self.models().len() ==> r == Some(&self.models()[handle.id()]),
            !(0 <= handle.id() < self.models().len()) ==> r is None,
    {
        self.models.get(handle)
    }

    /// Whether a model with `meshes` and `node_count` nodes fits the buffers.
    pub fn can_add(&self, meshes: &Vec<MeshSource>, node_count: u32) -> (r: bool)
        ensures
            r == fits(meshes@, node_count as int, self.vertex_count(), self.index_count(), self.node_count()),
    {
        let ghost ms = meshes@;
        let mut vcount: u64 = self.vertices_len as u64;
        let mut icount: u64 = self.indices_len as u64;
        let mut i: usize = 0;
        while i < meshes.len()
            invariant
                ms == meshes@,
                i <= ms.len(),
                vcount == self.vertices_len + vertices_before(ms, i as int),
                icount == self.indices_len + indices_before(ms, i as int),
                vcount <= u32::MAX,
                icount <= u32::MAX,
                forall|a: int, j: int| 0 <= a < i && 0 <= j < ms[a].indices@.len()
                    ==> #[trigger] ms[a].indices@[j] + self.vertices_len + vertices_before(ms, a) <= u32::MAX,
            decreases ms.len() - i,
        {
            let m = &meshes[i];
            let mut j: usize = 0;
            while j < m.indices.len()
                invariant
                    ms == meshes@,
                    i < ms.len(),
                    *m == ms[i as int],
                    j <= m.indices@.len(),
                    vcount == self.vertices_len + vertices_before(ms, i as int),
                    vcount <= u32::MAX,
                    forall|k: int| 0 <= k < j ==> #[trigger] ms[i as int].indices@[k] + self.vertices_len + vertices_before(ms, i as int) <= u32::MAX,
                decreases m.indices@.len() - j,
            {
                if m.indices[j] as u64 + vcount > u32::MAX as u64 {
                    proof {
                        lemma_before_mono(ms, i as int, ms.len() as int);
                    }
                    return false;
                }
                j += 1;
            }
            if vcount + m.vertex_count as u64 > u32::MAX as u64
                || m.indices.len() as u64 > u32::MAX as u64 - icount {
                proof {
                    lemma_before_mono(ms, i + 1, ms.len() as int);
                }
                return false;
            }
            vcount = vcount + m.vertex_count as u64;
            icount = icount + m.indices.len() as u64;
            i += 1;
        }
        self.nodes_len as u64 + node_count as u64 <= u32::MAX as u64
    }

    /// Append a model: every mesh's vertices and shifted indices go to the end of
    /// the shared buffers, its nodes after the last nodes, and the model records
    /// the index range of each mesh by blend mode (additive meshes are not drawn).
    /// Returns the model's handle, what to upload for each mesh, and its nodes.
    pub fn add(&mut self, meshes: &Vec<MeshSource>, node_count: u32) -> (r: (Handle<RenderModel>, Vec<MeshUpload>))
        requires
            fits(meshes@, node_count as int, old(self).vertex_count(), old(self).index_count(), old(self).node_count()),
        ensures
            r.0.id() == old(self).models().len(),
            final(self).models().len() == old(self).models().len() + 1,
            forall|h: int| 0 <= h < old(self).models().len() ==> #[trigger] final(self).models()[h] == old(self).models()[h],
            model_of(final(self).models()[r.0.id()], meshes@, node_count as int, old(self).index_count(), old(self).node_count()),
            uploads_of(r.1@, meshes@, old(self).vertex_count()),
            counts_after(*old(self), *final(self), meshes@, node_count as int),
    {
        let ghost ms = meshes@;
        let ghost vb = self.vertices_len as int;
        let ghost ib = self.indices_len as int;
        let mut opaque: Vec<RenderMesh> = Vec::new();
        let mut keyed: Vec<RenderMesh> = Vec::new();
        let mut alpha: Vec<RenderMesh> = Vec::new();
        let mut uploads: Vec<MeshUpload> = Vec::new();
        let mut i: usize = 0;
        while i < meshes.len()
            invariant
                ms == meshes@,
                fits(ms, node_count as int, vb, ib, old(self).node_count()),
                i <= ms.len(),
                self.vertices_len == vb + vertices_before(ms, i as int),
                self.indices_len == ib + indices_before(ms, i as int),
                self.nodes_len == old(self).nodes_len,
                self.models == old(self).models,
                opaque@.map_values(|x: RenderMesh| mesh_key(x)) == meshes_with(ms, i as int, BlendMode::Opaque, ib),
                keyed@.map_values(|x: RenderMesh| mesh_key(x)) == meshes_with(ms, i as int, BlendMode::ColorKeyed, ib),
                alpha@.map_values(|x: RenderMesh| mesh_key(x)) == meshes_with(ms, i as int, BlendMode::Alpha, ib),
                uploads@.len() == i,
                forall|k: int| 0 <= k < i ==> {
                    &&& (#[trigger] uploads@[k]).vertex_range == (((vb + vertices_before(ms, k)) as u32)..((vb + vertices_before(ms, k + 1)) as u32))
                    &&& uploads@[k].indices@ == shifted_indices(ms, k, vb)
                },
            decreases ms.len() - i,
        {
            let m = &meshes[i];
            proof {
                lemma_before_mono(ms, i + 1, ms.len() as int);
            }
            let vstart = self.vertices_len;
            let vend = vstart + m.vertex_count;
            let mut shifted: Vec<u32> = Vec::new();
            let mut j: usize = 0;
            while j < m.indices.len()
                invariant
                    ms == meshes@,
                    i < ms.len(),
                    *m == ms[i as int],
                    fits(ms, node_count as int, vb, ib, old(self).node_count()),
                    vstart == vb + vertices_before(ms, i as int),
                    j <= m.indices@.len(),
                    shifted@ == m.indices@.subrange(0, j as int).map_values(|x: u32| (x + vb + vertices_before(ms, i as int)) as u32),
                decreases m.indices@.len() - j,
            {
                assert(ms[i as int].indices@[j as int] + vb + vertices_before(ms, i as int) <= u32::MAX);
                shifted.push(m.indices[j] + vstart);
                assert(m.indices@.subrange(0, j + 1) =~= m.indices@.subrange(0, j as int).push(m.indices@[j as int]));
                j += 1;
            }
            assert(m.indices@.subrange(0, m.indices@.len() as int) =~= m.indices@);
            let istart = self.indices_len;
            let iend = istart + m.indices.len() as u32;
            self.vertices_len = vend;
            self.indices_len = iend;
            uploads.push(MeshUpload { vertex_range: vstart..vend, indices: shifted });
            let mesh = RenderMesh { index_range: istart..iend, texture: m.texture };
            assert(mesh_key(mesh) == render_mesh(ms, i as int, ib));
            match m.blend_mode {
                BlendMode::Opaque => {
                    opaque.push(mesh);
                },
                BlendMode::ColorKeyed => {
                    keyed.push(mesh);
                },
                BlendMode::Alpha => {
                    alpha.push(mesh);
                },
                BlendMode::Additive => {},
            }
            assert(opaque@.map_values(|x: RenderMesh| mesh_key(x)) =~= meshes_with(ms, i + 1, BlendMode::Opaque, ib));
            assert(keyed@.map_values(|x: RenderMesh| mesh_key(x)) =~= meshes_with(ms, i + 1, BlendMode::ColorKeyed, ib));
            assert(alpha@.map_values(|x: RenderMesh| mesh_key(x)) =~= meshes_with(ms, i + 1, BlendMode::Alpha, ib));
            i += 1;
        }
        let nstart = self.nodes_len;
        let nend = nstart + node_count;
        self.nodes_len = nend;
        let handle = self.models.insert(RenderModel {
            opaque_meshes: opaque,
            keyed_meshes: keyed,
            alpha_meshes: alpha,
            nodes_range: nstart..nend,
        });
        (handle, uploads)
    }
}


/// A mesh index that names one of the mesh's own vertices names, once shifted,
/// a vertex in the range that `add` reserved for that mesh.
pub proof fn lemma_shifted_in_vertex_range(ms: Seq<MeshSource>, i: int, j: int, vb: int, node_count: int, ib: int, nb: int)
    requires
        fits(ms, node_count, vb, ib, nb),
        0 <= vb,
        0 <= i < ms.len(),
        0 <= j < ms[i].indices@.len(),
        ms[i].indices@[j] < ms[i].vertex_count,
    ensures
        vb + vertices_before(ms, i) <= shifted_indices(ms, i, vb)[j] < vb + vertices_before(ms, i + 1),
{
    assert(ms[i].indices@[j] + vb + vertices_before(ms, i) <= u32::MAX);
    lemma_before_mono(ms, 0, i);
}

} // verus!
