use world_scene::objects::{NewObjectData, NewObjects, ObjectClass, ObjectData, Objects};
use world_scene::simulation::{FrameRun, SimulationPause};
use world_scene::terrain::{neighbor_coords, ChunkCoord};

#[test]
fn spawning_queues_models_and_hands_out_handles() {
    let mut objects: Objects<&str> = Objects::new();
    let a = objects.spawn("tree", ObjectClass::Scenery, 7);
    let b = objects.spawn("guard", ObjectClass::Bipedal, 9);
    let c = objects.spawn("crate", ObjectClass::Other, 7);
    assert_eq!((a.index(), b.index(), c.index()), (0, 1, 2));
    assert_eq!(objects.get(a).unwrap().data, ObjectData::Scenery { model: 7 });
    assert_eq!(objects.get(b).unwrap().data, ObjectData::Biped { model: 9 });
    assert_eq!(objects.get(c).unwrap().data, ObjectData::SingleModel { model: 7 });
    assert_eq!(objects.get(b).unwrap().placement, "guard");
    assert_eq!(objects.get(c).unwrap().data.model(), 7);
    assert_eq!(objects.take_models_to_prepare(), vec![7, 9, 7]);
    assert!(objects.take_models_to_prepare().is_empty());
    assert!(objects.get(a).is_some());
}

#[test]
fn scenery_prepares_intact_and_destroyed_models() {
    let mut objects: NewObjects<u8> = NewObjects::new();
    let a = objects.spawn(1, NewObjectData::Scenery { model: 3, model_des: 4 });
    let b = objects.spawn(2, NewObjectData::SingleModel { model: 5 });
    assert_eq!(objects.take_models_to_prepare(), vec![3, 4, 5]);
    assert_eq!(objects.get(a).unwrap().model_to_render(), Some(3));
    assert_eq!(objects.get(b).unwrap().model_to_render(), Some(5));
    assert!(objects.get(world_scene::storage::Handle::from_index(2)).is_none());
}

#[test]
fn paused_simulation_runs_only_requested_steps() {
    let mut pause = SimulationPause::new();
    assert_eq!(pause.next_frame(), FrameRun { run: true, fixed_delta: false });
    pause.toggle();
    assert_eq!(pause.next_frame(), FrameRun { run: false, fixed_delta: false });
    pause.request_step();
    pause.request_step();
    assert_eq!(pause.pending_steps, 2);
    assert_eq!(pause.next_frame(), FrameRun { run: true, fixed_delta: true });
    assert_eq!(pause.next_frame(), FrameRun { run: true, fixed_delta: true });
    assert_eq!(pause.next_frame(), FrameRun { run: false, fixed_delta: false });
    pause.pending_steps = u32::MAX;
    pause.request_step();
    assert_eq!(pause.pending_steps, u32::MAX);
    pause.toggle();
    assert_eq!(pause.next_frame(), FrameRun { run: true, fixed_delta: false });
    assert_eq!(pause.pending_steps, u32::MAX);
}

#[test]
fn neighbors_are_north_west_south_east() {
    let n = neighbor_coords(ChunkCoord { x: 3, y: 5 });
    assert_eq!(
        n,
        [
            ChunkCoord { x: 3, y: 6 },
            ChunkCoord { x: 2, y: 5 },
            ChunkCoord { x: 3, y: 4 },
            ChunkCoord { x: 4, y: 5 },
        ]
    );
}
