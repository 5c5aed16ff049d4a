//! Which render model each model instance of a frame is drawn with: models get a
//! render model the first time they are prepared, and each frame the instances
//! are ordered by model and resolved to their render model, first node and flags.
use ahash::RandomState;
use std::collections::HashMap;
use vstd::prelude::*;
use crate::id_map::{id_map_get, id_map_insert, id_map_new};
use crate::batches::{CUSTOM_POSE, HIGHLIGHTED};
use crate::render_models::{counts_after, fits, model_of, uploads_of, MeshSource, MeshUpload, RenderModel, RenderModels};
use crate::storage::Handle;

verus! {

broadcast use vstd::seq_lib::group_to_multiset_ensures;

/// A model instance to draw: the model, whether it is highlighted, and the bone
/// count of its own pose if it has one.
#[derive(Clone, Copy, Debug, PartialEq, Eq, Structural)]
pub struct ModelToRender {
    pub model: usize,
    pub highlighted: bool,
    pub pose_bones: Option<u32>,
}

/// A resolved instance: its render model, the index of the instance it came
/// from, the index of its first node (in the model's nodes or in the frame's
/// poses) and its flags.
#[derive(Clone, Copy, Debug, PartialEq, Eq, Structural)]
pub struct RenderModelToRender {
    pub render_model: usize,
    pub source: usize,
    pub first_node_index: u32,
    pub flags: u32,
}

/// The render models and the cache from model to render model.
pub struct ModelRenderRegistry {
    models: RenderModels,
    model_to_render_model: HashMap<usize, usize, RandomState>,
}

/// The flags of an instance.
pub open spec fn instance_flags(m: ModelToRender) -> u32 {
    ((if m.highlighted { HIGHLIGHTED as int } else { 0 }) + (if m.pose_bones is Some { CUSTOM_POSE as int } else { 0 })) as u32
}

/// The instances `order[0..k]` resolved, with the number of pose bones used so far.
pub open spec fn resolved(
    ms: Seq<ModelToRender>,
    order: Seq<usize>,
    cache: Map<usize, usize>,
    rms: Seq<RenderModel>,
    k: int,
) -> (Seq<RenderModelToRender>, int)
    decreases k,
{
    if k <= 0 {
        (seq![], 0)
    } else {
        let (prev, poses) = resolved(ms, order, cache, rms, k - 1);
        let src = order[k - 1];
        let m = ms[src as int];
        if !cache.contains_key(m.model) || cache[m.model] >= rms.len() {
            (prev, poses)
        } else {
            let h = cache[m.model];
            let first = match m.pose_bones { Some(_) => poses, None => rms[h as int].nodes_range.start as int };
            let used = match m.pose_bones { Some(b) => b as int, None => 0 };
            (
                prev.push(RenderModelToRender { render_model: h, source: src, first_node_index: first as u32, flags: instance_flags(m) }),
                poses + used,
            )
        }
    }
}

/// Bones of an instance's own pose, or none without one.
pub open spec fn bones_of(m: ModelToRender) -> int {
    match m.pose_bones {
        Some(b) => b as int,
        None => 0,
    }
}

/// Pose bones used by the first `i` resolved instances `es` of `ms`.
pub open spec fn pose_bones_before(es: Seq<RenderModelToRender>, ms: Seq<ModelToRender>, i: int) -> int
    decreases i,
{
    if i <= 0 {
        0
    } else {
        pose_bones_before(es, ms, i - 1) + bones_of(ms[es[i - 1].source as int])
    }
}

/// A resolved instance `e` of `ms` draws the render model cached for its
/// source's model with its source's flags; it starts at that render model's
/// first node, or, with its own pose, after the `poses_before` pose bones of the
/// instances resolved before it.
pub open spec fn entry_of(
    e: RenderModelToRender,
    ms: Seq<ModelToRender>,
    cache: Map<usize, usize>,
    rms: Seq<RenderModel>,
    poses_before: int,
) -> bool {
    let m = ms[e.source as int];
    &&& e.source < ms.len()
    &&& cache.contains_key(m.model)
    &&& e.render_model == cache[m.model]
    &&& e.render_model < rms.len()
    &&& e.flags == instance_flags(m)
    &&& m.pose_bones is None ==> e.first_node_index == rms[e.render_model as int].nodes_range.start
    &&& m.pose_bones is Some ==> e.first_node_index == poses_before as u32
}

proof fn lemma_pose_bones_prefix(es: Seq<RenderModelToRender>, e: RenderModelToRender, ms: Seq<ModelToRender>, i: int)
    requires
        0 <= i <= es.len(),
    ensures
        pose_bones_before(es.push(e), ms, i) == pose_bones_before(es, ms, i),
    decreases i,
{
    if i > 0 {
        lemma_pose_bones_prefix(es, e, ms, i - 1);
        assert(es.push(e)[i - 1] == es[i - 1]);
    }
}

/// Instance `v` of `ms` has a render model: its model is cached with a render
/// model that exists.
pub open spec fn resolvable(ms: Seq<ModelToRender>, cache: Map<usize, usize>, rms: Seq<RenderModel>, v: int) -> bool {
    &&& cache.contains_key(ms[v].model)
    &&& cache[ms[v].model] < rms.len()
}

/// `resolvable` as a predicate on instance indices.
pub open spec fn resolvable_pred(ms: Seq<ModelToRender>, cache: Map<usize, usize>, rms: Seq<RenderModel>) -> spec_fn(usize) -> bool {
    |u: usize| resolvable(ms, cache, rms, u as int)
}

/// The source instances of resolved instances, in order.
pub open spec fn sources(es: Seq<RenderModelToRender>) -> Seq<usize> {
    es.map_values(|e: RenderModelToRender| e.source)
}

proof fn lemma_resolved_sources(
    ms: Seq<ModelToRender>,
    order: Seq<usize>,
    cache: Map<usize, usize>,
    rms: Seq<RenderModel>,
    k: int,
)
    requires
        0 <= k <= order.len(),
    ensures
        sources(resolved(ms, order, cache, rms, k).0) == order.take(k).filter(resolvable_pred(ms, cache, rms)),
    decreases k,
{
    reveal(Seq::filter);
    let pred = resolvable_pred(ms, cache, rms);
    if k == 0 {
        assert(order.take(0) =~= Seq::<usize>::empty());
        assert(sources(resolved(ms, order, cache, rms, 0).0) =~= Seq::<usize>::empty());
    } else {
        lemma_resolved_sources(ms, order, cache, rms, k - 1);
        assert(order.take(k).drop_last() =~= order.take(k - 1));
        assert(order.take(k).last() == order[k - 1]);
        let prev = resolved(ms, order, cache, rms, k - 1).0;
        let es = resolved(ms, order, cache, rms, k).0;
        if pred(order[k - 1]) {
            assert(sources(es) =~= sources(prev).push(order[k - 1]));
        } else {
            assert(sources(es) =~= sources(prev));
        }
    }
}

proof fn lemma_filter_keeps_order(ms: Seq<ModelToRender>, s: Seq<usize>, p: spec_fn(usize) -> bool)
    requires
        forall|i: int, j: int| 0 <= i < j < s.len() ==> s[i] != s[j],
        forall|i: int, j: int| 0 <= i < j < s.len() ==> ms[s[i] as int].model <= ms[s[j] as int].model,
    ensures
        forall|i: int| 0 <= i < s.filter(p).len() ==> #[trigger] lists(s, s.filter(p)[i] as int),
        forall|i: int, j: int| 0 <= i < j < s.filter(p).len() ==> s.filter(p)[i] != s.filter(p)[j],
        forall|i: int, j: int| 0 <= i < j < s.filter(p).len()
            ==> ms[s.filter(p)[i] as int].model <= ms[s.filter(p)[j] as int].model,
    decreases s.len(),
{
    reveal(Seq::filter);
    if s.len() > 0 {
        let t = s.drop_last();
        let x = s.last();
        lemma_filter_keeps_order(ms, t, p);
        let ft = t.filter(p);
        let f = s.filter(p);
        assert forall|i: int| 0 <= i < ft.len() implies #[trigger] lists(s, ft[i] as int) by {
            assert(lists(t, ft[i] as int));
            let a = choose|a: int| 0 <= a < t.len() && t[a] == ft[i];
            assert(s[a] == ft[i]);
        }
        if p(x) {
            assert(f == ft.push(x));
            assert forall|i: int| 0 <= i < ft.len() implies ft[i] != x && ms[ft[i] as int].model <= ms[x as int].model by {
                assert(lists(t, ft[i] as int));
                let a = choose|a: int| 0 <= a < t.len() && t[a] == ft[i];
                assert(s[a] == ft[i] && s[s.len() - 1] == x);
            }
            assert(lists(s, x as int)) by {
                assert(s[s.len() - 1] == x);
            }
            assert forall|i: int| 0 <= i < f.len() implies #[trigger] lists(s, f[i] as int) by {
                if i < ft.len() {
                    assert(f[i] == ft[i]);
                }
            }
        } else {
            assert(f == ft);
        }
    }
}

/// The resolved instances are the instances that have a render model, each
/// once, ordered by model.
pub proof fn lemma_resolved_sources_by_model(
    ms: Seq<ModelToRender>,
    order: Seq<usize>,
    cache: Map<usize, usize>,
    rms: Seq<RenderModel>,
)
    requires
        is_model_order(ms, order),
    ensures
        ({
            let es = resolved(ms, order, cache, rms, order.len() as int).0;
            &&& forall|i: int, j: int| 0 <= i < j < es.len() ==> es[i].source != es[j].source
            &&& forall|i: int, j: int| 0 <= i < j < es.len()
                ==> ms[es[i].source as int].model <= ms[es[j].source as int].model
            &&& forall|v: int| 0 <= v < ms.len() && resolvable(ms, cache, rms, v) ==> #[trigger] lists(sources(es), v)
        }),
{
    let k = order.len() as int;
    let pred = resolvable_pred(ms, cache, rms);
    lemma_resolved_sources(ms, order, cache, rms, k);
    assert(order.take(k) =~= order);
    lemma_filter_keeps_order(ms, order, pred);
    let es = resolved(ms, order, cache, rms, k).0;
    let f = order.filter(pred);
    assert(sources(es) == f);
    assert forall|i: int, j: int| 0 <= i < j < es.len() implies es[i].source != es[j].source
        && ms[es[i].source as int].model <= ms[es[j].source as int].model by {
        assert(sources(es)[i] == es[i].source && sources(es)[j] == es[j].source);
    }
    assert forall|v: int| 0 <= v < ms.len() && resolvable(ms, cache, rms, v) implies #[trigger] lists(sources(es), v) by {
        assert(lists(order, v));
        let a = choose|a: int| 0 <= a < order.len() && order[a] == v;
        assert(pred(order[a]));
        order.lemma_filter_contains(pred, a);
        let b = choose|b: int| 0 <= b < f.len() && f[b] == order[a];
        assert(sources(es)[b] == v);
    }
}

/// Every resolved instance draws its source's cached render model with its
/// source's flags, from that model's first node or, with its own pose, from
/// the pose bones of the instances before it; the bones used are those of all
/// resolved instances with a pose.
pub proof fn lemma_resolved_entries(
    ms: Seq<ModelToRender>,
    order: Seq<usize>,
    cache: Map<usize, usize>,
    rms: Seq<RenderModel>,
    k: int,
)
    requires
        0 <= k <= order.len(),
        forall|i: int| 0 <= i < order.len() ==> #[trigger] order[i] < ms.len(),
    ensures
        ({
            let (es, poses) = resolved(ms, order, cache, rms, k);
            &&& poses == pose_bones_before(es, ms, es.len() as int)
            &&& forall|i: int| 0 <= i < es.len() ==> entry_of(#[trigger] es[i], ms, cache, rms, pose_bones_before(es, ms, i))
        }),
    decreases k,
{
    if k > 0 {
        lemma_resolved_entries(ms, order, cache, rms, k - 1);
        let (prev, poses) = resolved(ms, order, cache, rms, k - 1);
        let src = order[k - 1];
        let m = ms[src as int];
        if cache.contains_key(m.model) && cache[m.model] < rms.len() {
            let (es, p2) = resolved(ms, order, cache, rms, k);
            let e = es[es.len() - 1];
            assert(es == prev.push(e));
            assert forall|i: int| 0 <= i <= prev.len() implies #[trigger] pose_bones_before(es, ms, i) == pose_bones_before(prev, ms, i) by {
                lemma_pose_bones_prefix(prev, e, ms, i);
            }
            assert forall|i: int| 0 <= i < es.len() implies entry_of(#[trigger] es[i], ms, cache, rms, pose_bones_before(es, ms, i)) by {
                if i < prev.len() {
                    assert(es[i] == prev[i]);
                }
            }
            assert(pose_bones_before(es, ms, es.len() as int) == pose_bones_before(prev, ms, prev.len() as int) + bones_of(m));
        }
    }
}

/// `v` occurs in `s`.
pub open spec fn lists(s: Seq<usize>, v: int) -> bool {
    exists|i: int| 0 <= i < s.len() && s[i] == v
}

/// `order` lists every instance of `ms` once, by model.
pub open spec fn is_model_order(ms: Seq<ModelToRender>, order: Seq<usize>) -> bool {
    &&& order.to_multiset() == Seq::new(ms.len(), |i: int| i as usize).to_multiset()
    &&& forall|i: int| 0 <= i < order.len() ==> #[trigger] order[i] < ms.len()
    &&& forall|i: int, j: int| 0 <= i < j < order.len() ==> ms[order[i] as int].model <= ms[order[j] as int].model
    &&& forall|i: int, j: int| 0 <= i < j < order.len() ==> order[i] != order[j]
    &&& forall|v: int| 0 <= v < ms.len() ==> #[trigger] lists(order, v)
}

/// The indices of `ms`, ordered by model (equal models keep their order).
fn order_by_model(ms: &Vec<ModelToRender>) -> (r: Vec<usize>)
    ensures
        is_model_order(ms@, r@),
        r@.len() == ms@.len(),
{
    let mut out: Vec<usize> = Vec::new();
    let mut i: usize = 0;
    while i < ms.len()
        invariant
            i <= ms@.len(),
            out@.len() == i,
            out@.to_multiset() == Seq::new(i as nat, |k: int| k as usize).to_multiset(),
            forall|a: int| 0 <= a < out@.len() ==> #[trigger] out@[a] < i,
            forall|a: int, b: int| 0 <= a < b < out@.len() ==> ms@[out@[a] as int].model <= ms@[out@[b] as int].model,
            forall|a: int, b: int| 0 <= a < b < out@.len() ==> out@[a] != out@[b],
            forall|v: int| 0 <= v < i ==> #[trigger] lists(out@, v),
        decreases ms@.len() - i,
    {
        let key = ms[i].model;
        let mut p = out.len();
        while p > 0 && ms[out[p - 1]].model > key
            invariant
                p <= out@.len(),
                out@.len() == i,
                i < ms@.len(),
                key == ms@[i as int].model,
                forall|a: int| 0 <= a < out@.len() ==> #[trigger] out@[a] < i,
                forall|a: int, b: int| 0 <= a < b < out@.len() ==> ms@[out@[a] as int].model <= ms@[out@[b] as int].model,
                forall|j: int| p <= j < out@.len() ==> ms@[#[trigger] out@[j] as int].model > key,
            decreases p,
        {
            p -= 1;
        }
        let ghost before = out@;
        proof {
            assert forall|j: int| 0 <= j < p implies ms@[#[trigger] before[j] as int].model <= key by {
                if j < p - 1 {
                    assert(ms@[before[j] as int].model <= ms@[before[p - 1] as int].model);
                }
            }
        }
        out.insert(p, i);
        proof {
            assert(Seq::new((i + 1) as nat, |k: int| k as usize) =~= Seq::new(i as nat, |k: int| k as usize).push(i));
            assert(before.insert(p as int, i).to_multiset() == before.to_multiset().insert(i));
            assert forall|a: int, b: int| 0 <= a < b < out@.len() implies ms@[out@[a] as int].model <= ms@[out@[b] as int].model by {
                if a < p && b < p {
                    assert(out@[a] == before[a] && out@[b] == before[b]);
                } else if a < p && b == p {
                    assert(out@[a] == before[a]);
                } else if a < p {
                    assert(out@[a] == before[a] && out@[b] == before[b - 1]);
                } else if a == p {
                    assert(out@[b] == before[b - 1]);
                } else {
                    assert(out@[a] == before[a - 1] && out@[b] == before[b - 1]);
                }
            }
            assert forall|a: int| 0 <= a < out@.len() implies #[trigger] out@[a] < i + 1 by {
                if a < p {
                    assert(out@[a] == before[a]);
                } else if a > p {
                    assert(out@[a] == before[a - 1]);
                }
            }
            assert forall|a: int, b: int| 0 <= a < b < out@.len() implies out@[a] != out@[b] by {
                if a < p && b < p {
                    assert(out@[a] == before[a] && out@[b] == before[b]);
                } else if a < p && b == p {
                    assert(out@[a] == before[a] && before[a] < i);
                } else if a < p {
                    assert(out@[a] == before[a] && out@[b] == before[b - 1]);
                } else if a == p {
                    assert(out@[b] == before[b - 1] && before[b - 1] < i);
                } else {
                    assert(out@[a] == before[a - 1] && out@[b] == before[b - 1]);
                }
            }
            assert forall|v: int| 0 <= v < i + 1 implies #[trigger] lists(out@, v) by {
                if v == i {
                    assert(out@[p as int] == v);
                } else {
                    assert(lists(before, v));
                    let a = choose|a: int| 0 <= a < before.len() && before[a] == v;
                    if a < p {
                        assert(out@[a] == v);
                    } else {
                        assert(out@[a + 1] == v);
                    }
                }
            }
        }
        i += 1;
    }
    out
}

/// The textures of a render model's meshes: opaque, then color keyed, then alpha.
pub open spec fn model_textures(m: RenderModel) -> Seq<usize> {
    m.opaque_meshes@.map_values(|x: crate::render_models::RenderMesh| x.texture)
        + m.keyed_meshes@.map_values(|x: crate::render_models::RenderMesh| x.texture)
        + m.alpha_meshes@.map_values(|x: crate::render_models::RenderMesh| x.texture)
}

fn push_textures(out: &mut Vec<usize>, meshes: &Vec<crate::render_models::RenderMesh>)
    ensures
        final(out)@ == old(out)@ + meshes@.map_values(|x: crate::render_models::RenderMesh| x.texture),
{
    let ghost start = out@;
    let mut i: usize = 0;
    while i < meshes.len()
        invariant
            i <= meshes@.len(),
            out@ == start + meshes@.subrange(0, i as int).map_values(|x: crate::render_models::RenderMesh| x.texture),
        decreases meshes@.len() - i,
    {
        out.push(meshes[i].texture);
        assert(meshes@.subrange(0, i + 1) =~= meshes@.subrange(0, i as int).push(meshes@[i as int]));
        i += 1;
    }
    assert(meshes@.subrange(0, meshes@.len() as int) =~= meshes@);
}

impl ModelRenderRegistry {
    /// The render models, by handle.
    pub closed spec fn render_models(&self) -> Seq<RenderModel> {
        self.models.models()
    }

    /// The shared buffers the render models live in.
    pub closed spec fn buffers(&self) -> RenderModels {
        self.models
    }

    /// The cache from model to render model handle.
    pub closed spec fn cache(&self) -> Map<usize, usize> {
        self.model_to_render_model@
    }

    /// Every cached render model exists.
    pub closed spec fn wf(&self) -> bool {
        forall|m: usize| #[trigger] self.cache().contains_key(m) ==> self.cache()[m] < self.render_models().len()
    }

    /// No render models yet.
    pub fn new() -> (r: Self)
        ensures
            r.wf(),
            r.render_models().len() == 0,
            r.cache() == Map::<usize, usize>::empty(),
            r.buffers().vertex_count() == 0,
            r.buffers().index_count() == 0,
            r.buffers().node_count() == 0,
    {
        let r = ModelRenderRegistry { models: RenderModels::new(), model_to_render_model: id_map_new() };
        assert(r.cache() =~= Map::<usize, usize>::empty());
        r
    }

    /// The render model of `model`, if it was prepared.
    pub fn render_model_for_model(&self, model: usize) -> (r: Option<usize>)
        ensures
            r == (if self.cache().contains_key(model) { Some(self.cache()[model]) } else { None::<usize> }),
    {
        match id_map_get(&self.model_to_render_model, model) {
            Some(h) => Some(h),
            None => None,
        }
    }

    /// The render model of `handle`.
    pub fn get(&self, handle: usize) -> (r: Option<&RenderModel>)
        ensures
            handle < self.render_models().len() ==> r == Some(&self.render_models()[handle as int]),
            handle >= self.render_models().len() ==> r is None,
    {
        self.models.get(Handle::from_index(handle))
    }

    /// The render model of `model`: the cached one, or a new one made from
    /// `meshes` and `node_count` nodes. A new one also gives what to upload for
    /// each mesh and the textures its meshes use.
    pub fn get_or_create_render_model(
        &mut self,
        model: usize,
        meshes: &Vec<MeshSource>,
        node_count: u32,
    ) -> (r: (usize, Option<(Vec<MeshUpload>, Vec<usize>)>))
        requires
            old(self).wf(),
            old(self).cache().contains_key(model) || fits(
                meshes@,
                node_count as int,
                old(self).buffers().vertex_count(),
                old(self).buffers().index_count(),
                old(self).buffers().node_count(),
            ),
        ensures
            final(self).wf(),
            final(self).cache().contains_key(model),
            r.0 == final(self).cache()[model],
            old(self).cache().contains_key(model) ==> {
                &&& r.0 == old(self).cache()[model]
                &&& r.1 is None
                &&& final(self).cache() == old(self).cache()
                &&& final(self).render_models() == old(self).render_models()
                &&& final(self).buffers().vertex_count() == old(self).buffers().vertex_count()
                &&& final(self).buffers().index_count() == old(self).buffers().index_count()
                &&& final(self).buffers().node_count() == old(self).buffers().node_count()
            },
            !old(self).cache().contains_key(model) ==> {
                &&& r.0 == old(self).render_models().len()
                &&& final(self).render_models().len() == old(self).render_models().len() + 1
                &&& forall|h: int| 0 <= h < old(self).render_models().len() ==> #[trigger] final(self).render_models()[h] == old(self).render_models()[h]
                &&& final(self).cache() == old(self).cache().insert(model, r.0)
                &&& model_of(
                    final(self).render_models()[r.0 as int],
                    meshes@,
                    node_count as int,
                    old(self).buffers().index_count(),
                    old(self).buffers().node_count(),
                )
                &&& counts_after(old(self).buffers(), final(self).buffers(), meshes@, node_count as int)
                &&& r.1 matches Some((uploads, textures)) && uploads_of(uploads@, meshes@, old(self).buffers().vertex_count())
                    && textures@ == model_textures(final(self).render_models()[r.0 as int])
            },
    {
        if let Some(h) = id_map_get(&self.model_to_render_model, model) {
            return (h, None);
        }
        let (handle, uploads) = self.models.add(meshes, node_count);
        let index = handle.index();
        let mut textures: Vec<usize> = Vec::new();
        match self.models.get(handle) {
            Some(m) => {
                push_textures(&mut textures, &m.opaque_meshes);
                push_textures(&mut textures, &m.keyed_meshes);
                push_textures(&mut textures, &m.alpha_meshes);
            },
            None => {},
        }
        id_map_insert(&mut self.model_to_render_model, model, index);
        proof {
            assert forall|m: usize| #[trigger] self.cache().contains_key(m) implies self.cache()[m] < self.render_models().len() by {
                if m != model {
                    assert(old(self).cache().contains_key(m));
                }
            }
        }
        (index, Some((uploads, textures)))
    }

    /// Resolve the instances of a frame: ordered by model, each instance whose
    /// model has a render model becomes one instance of it; an instance with its
    /// own pose takes the next bones of the frame's poses as its nodes. Returns
    /// the instances and the number of pose bones used.
    pub fn resolve_instances(&self, models: &Vec<ModelToRender>) -> (r: (Vec<RenderModelToRender>, u64))
        requires
            self.wf(),
            models@.len() <= u32::MAX,
        ensures
            exists|order: Seq<usize>| {
                &&& is_model_order(models@, order)
                &&& order.len() == models@.len()
                &&& #[trigger] resolved(models@, order, self.cache(), self.render_models(), order.len() as int) == (r.0@, r.1 as int)
            },
            r.1 == pose_bones_before(r.0@, models@, r.0@.len() as int),
            forall|i: int, j: int| 0 <= i < j < r.0@.len() ==> r.0@[i].source != r.0@[j].source,
            forall|i: int, j: int| 0 <= i < j < r.0@.len()
                ==> models@[r.0@[i].source as int].model <= models@[r.0@[j].source as int].model,
            forall|v: int| 0 <= v < models@.len() && resolvable(models@, self.cache(), self.render_models(), v)
                ==> #[trigger] lists(sources(r.0@), v),
            forall|i: int| 0 <= i < r.0@.len() ==> entry_of(
                #[trigger] r.0@[i],
                models@,
                self.cache(),
                self.render_models(),
                pose_bones_before(r.0@, models@, i),
            ),
    {
        let order = order_by_model(models);
        let ghost cache = self.cache();
        let ghost rms = self.render_models();
        let mut out: Vec<RenderModelToRender> = Vec::new();
        let mut poses: u64 = 0;
        let mut k: usize = 0;
        while k < order.len()
            invariant
                k <= order@.len() == models@.len() <= u32::MAX,
                is_model_order(models@, order@),
                cache == self.cache(),
                rms == self.render_models(),
                self.wf(),
                poses <= k * 0xFFFF_FFFFu64,
                resolved(models@, order@, cache, rms, k as int) == (out@, poses as int),
            decreases order@.len() - k,
        {
            let src = order[k];
            assert(order@[k as int] < models@.len());
            let m = models[src];
            proof {
                assert(k * 0xFFFF_FFFFu64 + 0xFFFF_FFFFu64 == (k + 1) * 0xFFFF_FFFFu64) by (nonlinear_arith);
                assert((k + 1) * 0xFFFF_FFFFu64 <= 0x1_0000_0000u64 * 0xFFFF_FFFFu64) by (nonlinear_arith)
                    requires
                        k < 0x1_0000_0000u64,
                ;
            }
            match self.render_model_for_model(m.model) {
                Some(h) => {
                    match self.get(h) {
                        Some(rm) => {
                            let highlighted: u32 = if m.highlighted { HIGHLIGHTED } else { 0 };
                            let (first, flags, used) = match m.pose_bones {
                                Some(bones) => (poses as u32, highlighted + CUSTOM_POSE, bones as u64),
                                None => (rm.nodes_range.start, highlighted, 0u64),
                            };
                            out.push(RenderModelToRender { render_model: h, source: src, first_node_index: first, flags });
                            poses = poses + used;
                        },
                        None => {},
                    }
                },
                None => {},
            }
            k += 1;
        }
        proof {
            lemma_resolved_entries(models@, order@, cache, rms, order@.len() as int);
            lemma_resolved_sources_by_model(models@, order@, cache, rms);
        }
        (out, poses)
    }
}

} // verus!
