use world_scene::batches::build_batches;
use world_scene::model_instances::{ModelRenderRegistry, ModelToRender, RenderModelToRender};
use world_scene::motion::max_frame_num;
use world_scene::render_models::{MeshSource, RenderModels};
use world_scene::storage::Handle;
use world_scene::textures::BlendMode;

fn mesh(vertex_count: u32, indices: Vec<u32>, texture: usize, blend_mode: BlendMode) -> MeshSource {
    MeshSource { vertex_count, indices, texture, blend_mode }
}

fn sample_meshes() -> Vec<MeshSource> {
    vec![
        mesh(3, vec![0, 1, 2], 7, BlendMode::Opaque),
        mesh(4, vec![0, 1, 2, 2, 3, 0], 8, BlendMode::Alpha),
        mesh(1, vec![0], 9, BlendMode::Additive),
        mesh(2, vec![0, 1], 10, BlendMode::ColorKeyed),
    ]
}

#[test]
fn render_models_append_to_shared_buffers() {
    let mut rm = RenderModels::new();
    let meshes = sample_meshes();
    assert!(rm.can_add(&meshes, 5));
    let (h, uploads) = rm.add(&meshes, 5);
    assert_eq!(h.index(), 0);
    assert_eq!(uploads.len(), 4);
    assert_eq!(uploads[0].vertex_range, 0..3);
    assert_eq!(uploads[0].indices, vec![0, 1, 2]);
    assert_eq!(uploads[1].vertex_range, 3..7);
    assert_eq!(uploads[1].indices, vec![3, 4, 5, 5, 6, 3]);
    assert_eq!(uploads[2].vertex_range, 7..8);
    assert_eq!(uploads[2].indices, vec![7]);
    assert_eq!(uploads[3].vertex_range, 8..10);
    assert_eq!(uploads[3].indices, vec![8, 9]);

    let m = rm.get(h).unwrap();
    assert_eq!(m.opaque_meshes.len(), 1);
    assert_eq!(m.opaque_meshes[0].index_range, 0..3);
    assert_eq!(m.opaque_meshes[0].texture, 7);
    assert_eq!(m.alpha_meshes.len(), 1);
    assert_eq!(m.alpha_meshes[0].index_range, 3..9);
    assert_eq!(m.keyed_meshes.len(), 1);
    assert_eq!(m.keyed_meshes[0].index_range, 10..12);
    assert_eq!(m.nodes_range, 0..5);

    let (h2, uploads2) = rm.add(&vec![mesh(2, vec![1, 0], 3, BlendMode::Opaque)], 2);
    assert_eq!(h2.index(), 1);
    assert_eq!(uploads2[0].vertex_range, 10..12);
    assert_eq!(uploads2[0].indices, vec![11, 10]);
    let m2 = rm.get(h2).unwrap();
    assert_eq!(m2.opaque_meshes[0].index_range, 12..14);
    assert_eq!(m2.nodes_range, 5..7);
    assert!(rm.get(Handle::from_index(2)).is_none());
}

#[test]
fn render_models_refuse_overflow() {
    let rm = RenderModels::new();
    assert!(rm.can_add(&vec![mesh(3, vec![u32::MAX], 0, BlendMode::Opaque)], 1));
    assert!(!rm.can_add(
        &vec![mesh(1, vec![], 0, BlendMode::Opaque), mesh(3, vec![u32::MAX], 0, BlendMode::Opaque)],
        0
    ));
    assert!(!rm.can_add(&vec![mesh(u32::MAX, vec![], 0, BlendMode::Opaque), mesh(1, vec![], 0, BlendMode::Opaque)], 0));
    assert!(rm.can_add(&vec![], u32::MAX));
}

#[test]
fn registry_caches_render_models() {
    let mut reg = ModelRenderRegistry::new();
    let (a, created) = reg.get_or_create_render_model(42, &sample_meshes(), 5);
    assert_eq!(a, 0);
    let (uploads, textures) = created.unwrap();
    assert_eq!(uploads.len(), 4);
    assert_eq!(textures, vec![7, 10, 8]);
    let (again, none) = reg.get_or_create_render_model(42, &vec![], 0);
    assert_eq!(again, 0);
    assert!(none.is_none());
    let (b, _) = reg.get_or_create_render_model(5, &vec![mesh(1, vec![0], 1, BlendMode::Opaque)], 3);
    assert_eq!(b, 1);
    assert_eq!(reg.render_model_for_model(5), Some(1));
    assert_eq!(reg.render_model_for_model(6), None);
    assert_eq!(reg.get(1).unwrap().nodes_range, 5..8);
}

#[test]
fn resolve_orders_skips_and_assigns_nodes() {
    let mut reg = ModelRenderRegistry::new();
    reg.get_or_create_render_model(42, &sample_meshes(), 5);
    reg.get_or_create_render_model(5, &vec![mesh(1, vec![0], 1, BlendMode::Opaque)], 3);
    let models = vec![
        ModelToRender { model: 42, highlighted: false, pose_bones: None },
        ModelToRender { model: 5, highlighted: true, pose_bones: Some(4) },
        ModelToRender { model: 99, highlighted: false, pose_bones: None },
        ModelToRender { model: 5, highlighted: false, pose_bones: Some(2) },
        ModelToRender { model: 42, highlighted: true, pose_bones: None },
    ];
    let (resolved, bones) = reg.resolve_instances(&models);
    assert_eq!(bones, 6);
    assert_eq!(
        resolved,
        vec![
            RenderModelToRender { render_model: 1, source: 1, first_node_index: 0, flags: 3 },
            RenderModelToRender { render_model: 1, source: 3, first_node_index: 4, flags: 2 },
            RenderModelToRender { render_model: 0, source: 0, first_node_index: 0, flags: 0 },
            RenderModelToRender { render_model: 0, source: 4, first_node_index: 0, flags: 1 },
        ]
    );
    let keys: Vec<usize> = resolved.iter().map(|r| r.render_model).collect();
    let batches = build_batches(&keys);
    assert_eq!(batches.len(), 2);
    assert_eq!(batches[0].range, 0..2);
    assert_eq!(batches[1].range, 2..4);
}

#[test]
fn max_frame_uses_translation_tracks() {
    assert_eq!(max_frame_num(&vec![Some(3), None, Some(10)], &vec![Some(50)]), 10);
    assert_eq!(max_frame_num(&vec![], &vec![Some(5)]), 0);
    assert_eq!(max_frame_num(&vec![None], &vec![]), 0);
}

#[test]
fn registry_builds_new_model_from_meshes_and_nodes() {
    let mut reg = ModelRenderRegistry::new();
    reg.get_or_create_render_model(1, &vec![mesh(2, vec![0, 1], 4, BlendMode::Opaque)], 3);
    let (h, created) = reg.get_or_create_render_model(2, &sample_meshes(), 5);
    assert_eq!(h, 1);
    let (uploads, _) = created.unwrap();
    assert_eq!(uploads[0].vertex_range, 2..5);
    assert_eq!(uploads[0].indices, vec![2, 3, 4]);
    let m = reg.get(h).unwrap();
    assert_eq!(m.nodes_range, 3..8);
    assert_eq!(m.opaque_meshes[0].index_range, 2..5);
    assert_eq!(m.keyed_meshes[0].index_range, 12..14);
}
