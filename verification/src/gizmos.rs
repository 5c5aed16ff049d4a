//! Gizmo line vertices: each entity collects its own, and once per frame they
//! are moved into one batch for the renderer.
use vstd::prelude::*;

verus! {

/// Gizmo vertices of one entity, in its local space.
pub struct EntityGizmos<V> {
    vertices: Vec<V>,
}

impl<V> EntityGizmos<V> {
    /// The vertices, in the order they were added.
    pub closed spec fn view(&self) -> Seq<V> {
        self.vertices@
    }

    /// No vertices.
    pub fn new() -> (r: Self)
        ensures
            r.view() == Seq::<V>::empty(),
    {
        EntityGizmos { vertices: Vec::new() }
    }

    /// Add one vertex.
    pub fn push(&mut self, vertex: V)
        ensures
            final(self).view() == old(self).view().push(vertex),
    {
        self.vertices.push(vertex);
    }

    /// The vertices.
    pub fn vertices(&self) -> (r: &Vec<V>)
        ensures
            r@ == self.view(),
    {
        &self.vertices
    }

    /// There are no vertices.
    pub fn is_empty(&self) -> (r: bool)
        ensures
            r == (self.view().len() == 0),
    {
        self.vertices.len() == 0
    }

    /// Remove all vertices.
    pub fn clear(&mut self)
        ensures
            final(self).view() == Seq::<V>::empty(),
    {
        self.vertices.clear();
    }
}

/// The gizmo vertices of all entities for one frame, in world space.
pub struct GizmosBatch<V> {
    vertices: Vec<V>,
}

impl<V> GizmosBatch<V> {
    /// The vertices, in the order they were added.
    pub closed spec fn view(&self) -> Seq<V> {
        self.vertices@
    }

    /// An empty batch.
    pub fn new() -> (r: Self)
        ensures
            r.view() == Seq::<V>::empty(),
    {
        GizmosBatch { vertices: Vec::new() }
    }

    /// Append vertices at the end of the batch.
    pub fn extend(&mut self, vertices: Vec<V>)
        ensures
            final(self).view() == old(self).view() + vertices@,
    {
        let mut vertices = vertices;
        self.vertices.append(&mut vertices);
    }

    /// Take all vertices out of the batch, leaving it empty.
    pub fn take(&mut self) -> (r: Vec<V>)
        ensures
            r@ == old(self).view(),
            final(self).view() == Seq::<V>::empty(),
    {
        let mut vertices: Vec<V> = Vec::new();
        core::mem::swap(&mut self.vertices, &mut vertices);
        vertices
    }
}

/// The gizmo vertices the renderer draws in one frame.
pub struct GizmoRenderSnapshot<V> {
    pub vertices: Vec<V>,
}

impl<V> Default for GizmoRenderSnapshot<V> {
    /// A snapshot with no vertices.
    fn default() -> (r: Self)
        ensures
            r.vertices@ == Seq::<V>::empty(),
    {
        GizmoRenderSnapshot { vertices: Vec::new() }
    }
}

} // verus!
