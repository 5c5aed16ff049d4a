//! Engine-independent logic of the world scene: frame rings, handle storage,
//! PCX height-map decoding, terrain index layouts, chunk snapshots, the
//! terrain quad tree layout, texture buckets and draw batching.
use vstd::prelude::*;

pub mod batches;
pub mod capacity;
pub mod gizmos;
pub mod height_map;
pub mod id_map;
pub mod model_instances;
pub mod motion;
pub mod node_grid;
pub mod objects;
pub mod pcx;
pub mod per_frame;
pub mod quad_tree;
pub mod render_models;
pub mod simulation;
pub mod storage;
pub mod terrain;
pub mod textures;
pub mod terrain_indices;

verus! {

} // verus!
