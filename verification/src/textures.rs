//! Placement of model textures: every texture goes into a layer of the bucket
//! whose size is the next power of two of the texture's larger side, and gets
//! a slot in the texture data buffer that tells shaders where it lives.
use ahash::RandomState;
use std::collections::HashMap;
use vstd::prelude::*;
use crate::id_map::{id_map_get, id_map_insert, id_map_new};
use crate::storage::{Handle, Storage};

verus! {

/// How a texture is blended.
#[derive(Clone, Copy, Debug, PartialEq, Eq, Structural)]
pub enum BlendMode {
    Opaque,
    ColorKeyed,
    Alpha,
    Additive,
}

/// Width and height of an image, in pixels.
#[derive(Clone, Copy, Debug, PartialEq, Eq, Structural)]
pub struct ImageSize {
    pub x: u32,
    pub y: u32,
}

impl ImageSize {
    /// A square size.
    pub fn splat(v: u32) -> (r: Self)
        ensures
            r.x == v && r.y == v,
    {
        ImageSize { x: v, y: v }
    }
}

/// A texture that can be used for rendering.
#[derive(Clone, Copy, Debug, PartialEq, Eq, Structural)]
pub struct RenderTexture {
    pub blend_mode: BlendMode,
    pub texture_data_index: u32,
}

/// Where a texture lives: its bucket and the layer in that bucket.
#[derive(Clone, Copy, Debug, PartialEq, Eq, Structural)]
pub struct TextureData {
    pub bucket: u32,
    pub layer: u32,
}

/// `2` to the power of `e`.
pub open spec fn two_to(e: nat) -> nat
    decreases e,
{
    if e == 0 { 1 } else { 2 * two_to((e - 1) as nat) }
}

/// Exponent of the smallest power of two that is at least `m`.
pub open spec fn ceil_log2(m: int) -> nat
    decreases m,
{
    if m <= 1 { 0 } else { 1 + ceil_log2((m + 1) / 2) }
}

/// Exponent of the smallest bucket size.
pub const FIRST_POW: u32 = 4;
/// Exponent of the largest bucket size.
pub const MAX_POW: u32 = 9;
/// Number of buckets: sizes 16 up to 512.
pub const BUCKET_COUNT: usize = 6;
/// Number of layers of each bucket.
pub const INITIAL_LAYER_COUNT: u32 = 256;

/// The bucket a texture of `size` goes to.
pub open spec fn bucket_of(size: ImageSize) -> int {
    let m = if size.x > size.y { size.x } else { size.y };
    let p = ceil_log2(m as int);
    let c = if p < FIRST_POW { FIRST_POW as int } else if p > MAX_POW { MAX_POW as int } else { p as int };
    c - FIRST_POW
}

/// `ceil_log2` names the smallest power of two that reaches `m`.
pub proof fn lemma_ceil_log2(m: int)
    requires
        m >= 1,
    ensures
        two_to(ceil_log2(m)) >= m,
        ceil_log2(m) == 0 || two_to((ceil_log2(m) - 1) as nat) < m,
    decreases m,
{
    if m > 1 {
        lemma_ceil_log2((m + 1) / 2);
        let e = ceil_log2((m + 1) / 2);
        if e > 0 {
            assert(two_to(e) == 2 * two_to((e - 1) as nat));
        }
    }
}

/// A bucket of equally sized texture layers.
pub struct Bucket {
    size: u32,
    layer_capacity: u32,
    next_layer: u32,
}

impl Bucket {
    /// Size of the textures in the bucket.
    pub closed spec fn spec_size(&self) -> u32 {
        self.size
    }

    /// Number of layers in the bucket.
    pub closed spec fn capacity(&self) -> u32 {
        self.layer_capacity
    }

    /// The next free layer; the layers below it are taken.
    pub closed spec fn used(&self) -> u32 {
        self.next_layer
    }

    /// An empty bucket for textures of `size`.
    pub fn new(size: u32) -> (r: Self)
        ensures
            r.spec_size() == size,
            r.capacity() == INITIAL_LAYER_COUNT,
            r.used() == 0,
    {
        Bucket { size, layer_capacity: INITIAL_LAYER_COUNT, next_layer: 0 }
    }

    /// A free layer is left.
    pub fn has_room(&self) -> (r: bool)
        ensures
            r == (self.used() < self.capacity()),
    {
        self.next_layer < self.layer_capacity
    }

    /// Take the first free layer and return its index.
    pub fn insert(&mut self) -> (r: u32)
        requires
            old(self).used() < old(self).capacity(),
        ensures
            r == old(self).used(),
            final(self).used() == old(self).used() + 1,
            final(self).capacity() == old(self).capacity(),
            final(self).spec_size() == old(self).spec_size(),
    {
        let layer = self.next_layer;
        self.next_layer = self.next_layer + 1;
        layer
    }
}

/// What a request for a texture gives back.
pub struct TextureRequest {
    /// The render texture of the image.
    pub handle: Handle<RenderTexture>,
    /// For a texture made by this request: its place, and its slot in the texture
    /// data buffer; the caller uploads the image there.
    pub upload: Option<(TextureData, u32)>,
}

/// The store of textures used by the model renderer.
pub struct RenderTextures {
    textures: Storage<RenderTexture>,
    image_to_render_texture: HashMap<usize, usize, RandomState>,
    buckets: Vec<Bucket>,
    texture_data_count: u32,
    placements: Ghost<Seq<TextureData>>,
}

impl RenderTextures {
    /// The render textures, by handle.
    pub closed spec fn textures(&self) -> Seq<RenderTexture> {
        self.textures.view()
    }

    /// The cache from image id to render texture handle.
    pub closed spec fn cache(&self) -> Map<usize, usize> {
        self.image_to_render_texture@
    }

    /// Where each render texture lives.
    pub closed spec fn placements(&self) -> Seq<TextureData> {
        self.placements@
    }

    /// Layers taken in bucket `b`.
    pub closed spec fn bucket_used(&self, b: int) -> int {
        self.buckets@[b].used() as int
    }

    /// Size of the textures of bucket `b`.
    pub closed spec fn bucket_size(&self, b: int) -> int {
        self.buckets@[b].spec_size() as int
    }

    /// Number of layers of bucket `b`.
    pub closed spec fn bucket_capacity(&self, b: int) -> int {
        self.buckets@[b].capacity() as int
    }

    /// Number of entries in the texture data buffer.
    pub closed spec fn data_count(&self) -> int {
        self.texture_data_count as int
    }

    /// The store is consistent: one texture data slot and one distinct place per
    /// render texture, in the order they were made, and a cache that only names
    /// existing textures.
    pub closed spec fn wf(&self) -> bool {
        &&& self.buckets@.len() == BUCKET_COUNT
        &&& forall|b: int| #![trigger self.buckets@[b]] 0 <= b < BUCKET_COUNT ==> {
            &&& self.buckets@[b].capacity() == INITIAL_LAYER_COUNT
            &&& self.buckets@[b].used() <= INITIAL_LAYER_COUNT
            &&& self.buckets@[b].spec_size() == two_to((FIRST_POW + b) as nat)
        }
        &&& self.texture_data_count == self.textures().len()
        &&& self.placements().len() == self.textures().len()
        &&& forall|i: int| 0 <= i < self.textures().len() ==> #[trigger] self.textures()[i].texture_data_index == i
        &&& forall|i: int| 0 <= i < self.placements().len() ==> {
            &&& (#[trigger] self.placements()[i]).bucket < BUCKET_COUNT
            &&& self.placements()[i].layer < self.buckets@[self.placements()[i].bucket as int].used()
        }
        &&& forall|i: int, j: int| 0 <= i < j < self.placements().len() ==> #[trigger] self.placements()[i] != #[trigger] self.placements()[j]
        &&& forall|k: usize| #[trigger] self.cache().contains_key(k) ==> self.cache()[k] < self.textures().len()
    }

    /// An empty store with all buckets empty.
    pub fn new() -> (r: Self)
        ensures
            r.wf(),
            r.textures().len() == 0,
            r.cache() == Map::<usize, usize>::empty(),
            r.data_count() == 0,
            forall|b: int| 0 <= b < BUCKET_COUNT ==> {
                &&& #[trigger] r.bucket_used(b) == 0
                &&& r.bucket_capacity(b) == INITIAL_LAYER_COUNT
                &&& r.bucket_size(b) == two_to((FIRST_POW + b) as nat)
            },
    {
        let mut buckets: Vec<Bucket> = Vec::new();
        let mut i: usize = 0;
        while i < BUCKET_COUNT
            invariant
                i <= BUCKET_COUNT,
                buckets@.len() == i,
                forall|b: int| #![trigger buckets@[b]] 0 <= b < i ==> {
                    &&& buckets@[b].capacity() == INITIAL_LAYER_COUNT
                    &&& buckets@[b].used() == 0
                    &&& buckets@[b].spec_size() == two_to((FIRST_POW + b) as nat)
                },
            decreases BUCKET_COUNT - i,
        {
            buckets.push(Bucket::new(Self::calculate_bucket_size(i)));
            i += 1;
        }
        let r = RenderTextures {
            textures: Storage::new(),
            image_to_render_texture: id_map_new(),
            buckets,
            texture_data_count: 0,
            placements: Ghost(Seq::empty()),
        };
        assert(r.cache() =~= Map::<usize, usize>::empty());
        assert(r.textures().len() == 0);
        r
    }

    /// The handle of the render texture of `image`, if one was made.
    pub fn get_cached(&self, image: usize) -> (r: Option<Handle<RenderTexture>>)
        ensures
            r matches Some(h) ==> self.cache().contains_key(image) && h.id() == self.cache()[image],
            r is None ==> !self.cache().contains_key(image),
    {
        match id_map_get(&self.image_to_render_texture, image) {
            Some(index) => Some(Handle::from_index(index)),
            None => None,
        }
    }

    /// The render texture of `handle`.
    pub fn get(&self, handle: Handle<RenderTexture>) -> (r: Option<&RenderTexture>)
        ensures
            0 <= handle.id() < self.textures().len() ==> r == Some(&self.textures()[handle.id()]),
            !(0 <= handle.id() < self.textures().len()) ==> r is None,
    {
        self.textures.get(handle)
    }

    /// A request for `image` can be served: it is cached, or its bucket has a
    /// free layer and the texture data buffer a free slot.
    pub open spec fn can_serve(&self, image: usize, size: ImageSize) -> bool {
        self.cache().contains_key(image) || (self.bucket_used(bucket_of(size)) < INITIAL_LAYER_COUNT
            && self.data_count() < u32::MAX)
    }

    /// Whether `get_or_create` can serve `image` without running out of room.
    pub fn can_create(&self, image: usize, size: ImageSize) -> (r: bool)
        requires
            self.wf(),
            0 < size.x <= 0x8000_0000 || 0 < size.y <= 0x8000_0000,
            size.x <= 0x8000_0000 && size.y <= 0x8000_0000,
        ensures
            r == self.can_serve(image, size),
    {
        if id_map_get(&self.image_to_render_texture, image).is_some() {
            return true;
        }
        let b = Self::calculate_bucket_index(size);
        self.buckets[b].has_room() && self.texture_data_count < u32::MAX
    }

    /// The render texture of `image`: the cached one, or a new one placed in the
    /// next free layer of its bucket and the next texture data slot.
    pub fn get_or_create(&mut self, image: usize, size: ImageSize, blend_mode: BlendMode) -> (r: TextureRequest)
        requires
            old(self).wf(),
            0 < size.x <= 0x8000_0000 || 0 < size.y <= 0x8000_0000,
            size.x <= 0x8000_0000 && size.y <= 0x8000_0000,
            old(self).can_serve(image, size),
        ensures
            final(self).wf(),
            final(self).data_count() == final(self).textures().len(),
            final(self).cache().contains_key(image),
            r.handle.id() == final(self).cache()[image],
            old(self).cache().contains_key(image) ==> {
                &&& r.handle.id() == old(self).cache()[image]
                &&& r.upload is None
                &&& final(self).textures() == old(self).textures()
                &&& final(self).cache() == old(self).cache()
                &&& final(self).placements() == old(self).placements()
                &&& final(self).data_count() == old(self).data_count()
                &&& forall|b: int| 0 <= b < BUCKET_COUNT ==> #[trigger] final(self).bucket_used(b) == old(self).bucket_used(b)
            },
            !old(self).cache().contains_key(image) ==> {
                let place = TextureData { bucket: bucket_of(size) as u32, layer: old(self).bucket_used(bucket_of(size)) as u32 };
                &&& r.handle.id() == old(self).textures().len()
                &&& final(self).textures() == old(self).textures().push(
                    RenderTexture { blend_mode, texture_data_index: old(self).data_count() as u32 },
                )
                &&& final(self).cache() == old(self).cache().insert(image, r.handle.id() as usize)
                &&& final(self).placements() == old(self).placements().push(place)
                &&& r.upload == Some((place, old(self).data_count() as u32))
                &&& final(self).data_count() == old(self).data_count() + 1
                &&& forall|b: int| 0 <= b < BUCKET_COUNT ==> #[trigger] final(self).bucket_used(b)
                    == old(self).bucket_used(b) + (if b == bucket_of(size) { 1int } else { 0int })
            },
    {
        if let Some(handle) = self.get_cached(image) {
            return TextureRequest { handle, upload: None };
        }
        let bucket_index = Self::calculate_bucket_index(size);
        let ghost old_buckets = self.buckets@;
        let layer = self.buckets[bucket_index].insert();
        let ghost place = TextureData { bucket: bucket_index as u32, layer };
        proof {
            self.placements@ = self.placements@.push(place);
        }
        let texture_data_index = self.texture_data_count;
        self.texture_data_count = self.texture_data_count + 1;
        let handle = self.textures.insert(RenderTexture { blend_mode, texture_data_index });
        id_map_insert(&mut self.image_to_render_texture, image, handle.index());
        TextureRequest { handle, upload: Some((TextureData { bucket: bucket_index as u32, layer }, texture_data_index)) }
    }

    /// Index of the bucket for an image of `image_size`: the exponent of the next
    /// power of two of the larger side, clamped to the bucket range.
    pub fn calculate_bucket_index(image_size: ImageSize) -> (r: usize)
        requires
            0 < image_size.x <= 0x8000_0000 || 0 < image_size.y <= 0x8000_0000,
            image_size.x <= 0x8000_0000 && image_size.y <= 0x8000_0000,
        ensures
            r == bucket_of(image_size),
            r < BUCKET_COUNT,
    {
        let max_size = if image_size.x > image_size.y { image_size.x } else { image_size.y };
        proof {
            assert(two_to(31) == 0x8000_0000) by {
                reveal_with_fuel(two_to, 32);
            }
            lemma_ceil_log2_at_most(max_size as int, 31);
        }
        let mut m: u32 = max_size;
        let mut p: u32 = 0;
        while m > 1
            invariant
                1 <= m <= max_size,
                p + ceil_log2(m as int) == ceil_log2(max_size as int),
                ceil_log2(max_size as int) <= 31,
            decreases m,
        {
            m = m / 2 + m % 2;
            p += 1;
        }
        let p = if p < FIRST_POW { FIRST_POW } else if p > MAX_POW { MAX_POW } else { p };
        (p - FIRST_POW) as usize
    }

    /// Size of the textures in bucket `index`: `2^(FIRST_POW + index)`.
    pub fn calculate_bucket_size(index: usize) -> (r: u32)
        requires
            FIRST_POW + index < 32,
        ensures
            r == two_to((FIRST_POW + index) as nat),
    {
        let e = FIRST_POW + index as u32;
        let mut size: u32 = 1;
        let mut k: u32 = 0;
        while k < e
            invariant
                k <= e < 32,
                size == two_to(k as nat),
                size <= 0x8000_0000,
            decreases e - k,
        {
            assert(two_to((k + 1) as nat) == 2 * two_to(k as nat));
            proof { lemma_two_to_bound(k as nat, (e - 1) as nat); }
            size = size * 2;
            k += 1;
        }
        size
    }
}

proof fn lemma_two_to_bound(k: nat, e: nat)
    requires
        k <= e < 31,
    ensures
        two_to(k) <= 0x4000_0000,
    decreases e,
{
    if k < e {
        lemma_two_to_bound(k, (e - 1) as nat);
        lemma_two_to_mono(k, (e - 1) as nat);
    }
    lemma_two_to_mono(k, 30);
    assert(two_to(30) == 0x4000_0000) by {
        reveal_with_fuel(two_to, 31);
    }
}

proof fn lemma_ceil_log2_at_most(m: int, e: nat)
    requires
        m <= two_to(e),
    ensures
        ceil_log2(m) <= e,
    decreases e,
{
    if m > 1 {
        if e == 0 {
        } else {
            assert(two_to(e) == 2 * two_to((e - 1) as nat));
            lemma_ceil_log2_at_most((m + 1) / 2, (e - 1) as nat);
        }
    }
}

/// Powers of two grow with the exponent.
pub proof fn lemma_two_to_mono(a: nat, b: nat)
    requires
        a <= b,
    ensures
        two_to(a) <= two_to(b),
    decreases b,
{
    if a < b {
        lemma_two_to_mono(a, (b - 1) as nat);
    }
}


/// A texture goes to the smallest bucket whose size reaches its larger side;
/// textures up to 16 pixels go to the first bucket and those above 512 to the last.
pub proof fn lemma_bucket_fits(size: ImageSize)
    requires
        size.x > 0 || size.y > 0,
    ensures
        ({
            let m = if size.x > size.y { size.x as int } else { size.y as int };
            let b = bucket_of(size);
            &&& 0 <= b < BUCKET_COUNT
            &&& m <= 512 ==> m <= two_to((FIRST_POW + b) as nat)
            &&& b > 0 ==> two_to((FIRST_POW + b - 1) as nat) < m
        }),
{
    let m = if size.x > size.y { size.x as int } else { size.y as int };
    lemma_ceil_log2(m);
    let p = ceil_log2(m);
    assert(two_to(9) == 512) by {
        reveal_with_fuel(two_to, 10);
    }
    assert(two_to(8) == 256) by {
        reveal_with_fuel(two_to, 9);
    }
    if p > 9 {
        lemma_two_to_mono(9, (p - 1) as nat);
        lemma_two_to_mono(8, (p - 1) as nat);
    }
    if p < 4 {
        lemma_two_to_mono(p, 4);
    }
}

impl RenderTextures {
    /// No two render textures share a texture data slot or a layer of a bucket.
    pub proof fn lemma_distinct_places(&self, i: int, j: int)
        requires
            self.wf(),
            0 <= i < self.textures().len(),
            0 <= j < self.textures().len(),
            i != j,
        ensures
            self.textures()[i].texture_data_index != self.textures()[j].texture_data_index,
            self.placements()[i] != self.placements()[j],
            self.placements()[i].bucket < BUCKET_COUNT,
            self.placements()[i].layer < INITIAL_LAYER_COUNT,
    {
        if i < j {
            assert(self.placements()[i] != self.placements()[j]);
        } else {
            assert(self.placements()[j] != self.placements()[i]);
        }
        let b = self.placements()[i].bucket as int;
        assert(self.buckets@[b].used() <= INITIAL_LAYER_COUNT);
    }
}


impl RenderTextures {
    /// A second request for an image is always served, from the cache: the store
    /// never runs out of room for an image it has seen.
    pub proof fn lemma_cached_request_served(&self, image: usize, size: ImageSize)
        requires
            self.cache().contains_key(image),
        ensures
            self.can_serve(image, size),
    {
    }
}

} // verus!
