//! Capacities of the per-frame instance buffers. A buffer that is too small is
//! replaced by one whose capacity is the next power of two of what is needed.
use vstd::prelude::*;
use crate::textures::{ceil_log2, two_to, lemma_ceil_log2, lemma_two_to_mono};

verus! {

/// The smallest power of two that is at least `m`.
pub open spec fn next_power_of_two(m: int) -> int {
    two_to(ceil_log2(m)) as int
}

proof fn lemma_exponent_unique(m: int, k: nat)
    requires
        m >= 1,
        two_to(k) >= m,
        k == 0 || two_to((k - 1) as nat) < m,
    ensures
        k == ceil_log2(m),
{
    lemma_ceil_log2(m);
    let p = ceil_log2(m);
    if k < p {
        lemma_two_to_mono(k, (p - 1) as nat);
    } else if k > p {
        lemma_two_to_mono(p, (k - 1) as nat);
    }
}

/// The smallest power of two that is at least `m`.
pub fn next_pow2(m: u32) -> (r: u32)
    requires
        1 <= m <= 0x8000_0000,
    ensures
        r == next_power_of_two(m as int),
        r >= m,
{
    let mut size: u32 = 1;
    let ghost mut k: nat = 0;
    while size < m
        invariant
            1 <= m <= 0x8000_0000,
            size == two_to(k),
            k == 0 || two_to((k - 1) as nat) < m,
            size <= 0x8000_0000,
        decreases 0x8000_0000 - size,
    {
        assert(two_to(k + 1) == 2 * two_to(k));
        proof {
            assert(two_to(31) == 0x8000_0000 && two_to(30) == 0x4000_0000) by {
                reveal_with_fuel(two_to, 32);
            }
            if k >= 31 {
                lemma_two_to_mono(31, k);
            }
            lemma_two_to_mono(k, 30);
        }
        size = size * 2;
        proof { k = k + 1; }
    }
    proof { lemma_exponent_unique(m as int, k); }
    size
}

/// The capacity a buffer must grow to so that it holds `required` items, or
/// `None` when `current` is enough.
pub fn grown_capacity(current: u32, required: u32) -> (r: Option<u32>)
    requires
        required <= 0x8000_0000,
    ensures
        current >= required ==> r is None,
        current < required ==> r == Some(next_power_of_two(required as int) as u32),
{
    if current < required {
        Some(next_pow2(required))
    } else {
        None
    }
}

/// Capacities of the instance buffers of one render world.
pub struct InstanceCapacities {
    pub terrain_chunk_instances: u32,
    pub strata_instances: u32,
    pub gizmo_vertices: u32,
}

impl InstanceCapacities {
    /// The capacities a render world starts with.
    pub fn new() -> (r: Self)
        ensures
            r.terrain_chunk_instances == 128,
            r.strata_instances == 128,
            r.gizmo_vertices == 1024,
    {
        assert(1u32 << 7u32 == 128u32) by (bit_vector);
        InstanceCapacities { terrain_chunk_instances: 1 << 7, strata_instances: 1 << 7, gizmo_vertices: 1024 }
    }

    /// Make room for `capacity` terrain chunk instances; returns the new capacity
    /// when the buffer has to be replaced.
    pub fn ensure_terrain_chunk_instance_capacity(&mut self, capacity: u32) -> (r: Option<u32>)
        requires
            capacity <= 0x8000_0000,
        ensures
            r == grown(old(self).terrain_chunk_instances, capacity),
            final(self).terrain_chunk_instances == grown_to(old(self).terrain_chunk_instances, capacity),
            final(self).strata_instances == old(self).strata_instances,
            final(self).gizmo_vertices == old(self).gizmo_vertices,
    {
        let r = grown_capacity(self.terrain_chunk_instances, capacity);
        if let Some(size) = r {
            self.terrain_chunk_instances = size;
        }
        r
    }

    /// Make room for `capacity` strata instances; returns the new capacity when
    /// the buffer has to be replaced.
    pub fn ensure_strata_instance_capacity(&mut self, capacity: u32) -> (r: Option<u32>)
        requires
            capacity <= 0x8000_0000,
        ensures
            r == grown(old(self).strata_instances, capacity),
            final(self).strata_instances == grown_to(old(self).strata_instances, capacity),
            final(self).terrain_chunk_instances == old(self).terrain_chunk_instances,
            final(self).gizmo_vertices == old(self).gizmo_vertices,
    {
        let r = grown_capacity(self.strata_instances, capacity);
        if let Some(size) = r {
            self.strata_instances = size;
        }
        r
    }

    /// Make room for `capacity` gizmo vertices; returns the new capacity when the
    /// buffer has to be replaced.
    pub fn ensure_gizmo_vertices_capacity(&mut self, capacity: u32) -> (r: Option<u32>)
        requires
            capacity <= 0x8000_0000,
        ensures
            r == grown(old(self).gizmo_vertices, capacity),
            final(self).gizmo_vertices == grown_to(old(self).gizmo_vertices, capacity),
            final(self).terrain_chunk_instances == old(self).terrain_chunk_instances,
            final(self).strata_instances == old(self).strata_instances,
    {
        let r = grown_capacity(self.gizmo_vertices, capacity);
        if let Some(size) = r {
            self.gizmo_vertices = size;
        }
        r
    }
}

/// The new capacity of a buffer of `current` that must hold `required`, if it grows.
pub open spec fn grown(current: u32, required: u32) -> Option<u32> {
    if current < required { Some(next_power_of_two(required as int) as u32) } else { None }
}

/// The capacity of that buffer afterwards.
pub open spec fn grown_to(current: u32, required: u32) -> u32 {
    if current < required { next_power_of_two(required as int) as u32 } else { current }
}

/// After making room, a buffer holds what was required, never shrinks, and a
/// replaced buffer has a power-of-two capacity below twice what was required.
pub proof fn lemma_grown_capacity(current: u32, required: u32)
    requires
        1 <= required <= 0x8000_0000,
    ensures
        grown_to(current, required) >= required,
        grown_to(current, required) >= current,
        current < required ==> {
            &&& grown_to(current, required) == two_to(ceil_log2(required as int))
            &&& grown_to(current, required) < 2 * required
        },
{
    lemma_ceil_log2(required as int);
    assert(two_to(31) == 0x8000_0000) by {
        reveal_with_fuel(two_to, 32);
    }
    let p = ceil_log2(required as int);
    if p > 31 {
        lemma_two_to_mono(31, (p - 1) as nat);
    }
    lemma_two_to_mono(p, 31);
    if p > 0 {
        assert(two_to(p) == 2 * two_to((p - 1) as nat));
    }
}

} // verus!
