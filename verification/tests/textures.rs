use world_scene::textures::{BlendMode, ImageSize, RenderTextures, TextureData};

#[test]
fn rounding_and_clamp() {
    assert_eq!(RenderTextures::calculate_bucket_index(ImageSize::splat(8)), 0);
    assert_eq!(RenderTextures::calculate_bucket_index(ImageSize::splat(16)), 0);

    assert_eq!(RenderTextures::calculate_bucket_index(ImageSize::splat(15)), 0);
    assert_eq!(RenderTextures::calculate_bucket_index(ImageSize::splat(17)), 1);
}

#[test]
fn bucket_indices() {
    assert_eq!(RenderTextures::calculate_bucket_size(0), 16);
    assert_eq!(RenderTextures::calculate_bucket_size(1), 32);
    assert_eq!(RenderTextures::calculate_bucket_size(2), 64);
    assert_eq!(RenderTextures::calculate_bucket_size(3), 128);
    assert_eq!(RenderTextures::calculate_bucket_size(4), 256);
    assert_eq!(RenderTextures::calculate_bucket_size(5), 512);

    assert_eq!(RenderTextures::calculate_bucket_index(ImageSize::splat(16)), 0);
    assert_eq!(RenderTextures::calculate_bucket_index(ImageSize::splat(32)), 1);
    assert_eq!(RenderTextures::calculate_bucket_index(ImageSize::splat(64)), 2);
    assert_eq!(RenderTextures::calculate_bucket_index(ImageSize::splat(128)), 3);
    assert_eq!(RenderTextures::calculate_bucket_index(ImageSize::splat(256)), 4);
    assert_eq!(RenderTextures::calculate_bucket_index(ImageSize::splat(512)), 5);
}

#[test]
fn bucket_index_uses_larger_side_and_clamps() {
    assert_eq!(RenderTextures::calculate_bucket_index(ImageSize { x: 1, y: 100 }), 3);
    assert_eq!(RenderTextures::calculate_bucket_index(ImageSize { x: 300, y: 2 }), 5);
    assert_eq!(RenderTextures::calculate_bucket_index(ImageSize { x: 4096, y: 4096 }), 5);
    assert_eq!(RenderTextures::calculate_bucket_index(ImageSize { x: 1, y: 1 }), 0);
    assert_eq!(RenderTextures::calculate_bucket_index(ImageSize { x: 33, y: 0 }), 2);
}

#[test]
fn get_or_create_caches_by_image() {
    let mut textures = RenderTextures::new();
    let size = ImageSize { x: 64, y: 32 };
    assert!(textures.can_create(7, size));
    let first = textures.get_or_create(7, size, BlendMode::Alpha);
    assert_eq!(first.handle.index(), 0);
    assert_eq!(first.upload, Some((TextureData { bucket: 2, layer: 0 }, 0)));

    let again = textures.get_or_create(7, size, BlendMode::Alpha);
    assert_eq!(again.handle.index(), 0);
    assert_eq!(again.upload, None);

    let second = textures.get_or_create(9, ImageSize { x: 40, y: 40 }, BlendMode::Opaque);
    assert_eq!(second.handle.index(), 1);
    assert_eq!(second.upload, Some((TextureData { bucket: 2, layer: 1 }, 1)));

    let third = textures.get_or_create(3, ImageSize { x: 16, y: 16 }, BlendMode::ColorKeyed);
    assert_eq!(third.upload, Some((TextureData { bucket: 0, layer: 0 }, 2)));

    let t = textures.get(second.handle).unwrap();
    assert_eq!(t.blend_mode, BlendMode::Opaque);
    assert_eq!(t.texture_data_index, 1);
    assert_eq!(textures.get_cached(9).map(|h| h.index()), Some(1));
    assert!(textures.get_cached(10).is_none());
}

#[test]
fn bucket_fills_up() {
    let mut textures = RenderTextures::new();
    let size = ImageSize::splat(16);
    for image in 0..256usize {
        assert!(textures.can_create(image, size));
        let r = textures.get_or_create(image, size, BlendMode::Opaque);
        assert_eq!(r.upload, Some((TextureData { bucket: 0, layer: image as u32 }, image as u32)));
    }
    assert!(!textures.can_create(1000, size));
    assert!(textures.can_create(5, size));
    assert!(textures.can_create(1000, ImageSize::splat(32)));
}

#[test]
fn new_store_starts_every_bucket_empty() {
    let mut textures = RenderTextures::new();
    assert!(textures.get(world_scene::storage::Handle::from_index(0)).is_none());
    let sizes = [16u32, 32, 64, 128, 256, 512];
    for (i, s) in sizes.iter().enumerate() {
        let r = textures.get_or_create(100 + i, ImageSize::splat(*s), BlendMode::Opaque);
        assert_eq!(r.upload, Some((TextureData { bucket: i as u32, layer: 0 }, i as u32)));
    }
}
