# world_scene

The engine-independent logic of a game's world scene, written in Verus with
its behaviour stated in contracts and proved.

- `src/` is the verified library: the ring of per-frame resources, handle
  storage, PCX height-map decoding, height-map chunk meshes, terrain index
  layouts and strata, the per-frame terrain snapshot and its draw ranges, the
  terrain quad tree layout and its frustum walk, texture buckets, render model
  buffers, model instance resolution and batching, instance buffer capacities
  and gizmo batches.
- `app/` is ordinary Rust around it: reading files, floating point geometry,
  and the GPU-facing copies of the library's types.
- `tests/` runs the library on concrete values.

Calls into outside crates (`byteorder`, `slab`, `ahash`) stand behind a few
trusted items whose contracts are stated in their doc comments.

## What is not here, and why

- GPU setup and draw recording (the render pipelines, passes, geometry
  buffers, bind groups and uploads), the editor panels, window handling and the
  ECS schedules: they only drive `wgpu`, `egui`, `winit` and `bevy_ecs`, which
  this crate does not depend on, and hold no decisions beyond those kept in
  `src/`.
- Floating point geometry: levels of detail from the camera, frustum and ray
  tests, bounding spheres and boxes, camera matrices, poses and the day/night
  cycle. The library takes their results as plain values (a level per chunk,
  a frustum flag per quad tree node).
- Asset loading (models, motions, textures, character profiles): it is file
  I/O through `shadow_company_tools`; the library starts from the loaded
  model handles and mesh data.
- `Storage` keeps its items in a `Vec` at the position of their handle.
  Items are never removed, so these are the keys a slab hands out in that
  case; what a slab holds is stated in this crate only for the quad tree's
  fixed node type, and `Storage` is generic over its items.
