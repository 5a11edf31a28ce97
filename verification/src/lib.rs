pub mod cell_grid;
pub mod chunk;
pub mod chunk_key;
pub mod chunk_map;
pub mod chunk_mesh;
pub mod chunk_queue;
pub mod chunk_set;
pub mod chunks_refs;
pub mod constants;
pub mod downsampler;
pub mod events;
pub mod face_direction;
pub mod face_masks;
pub mod greedy_mesher_optimized;
pub mod lod;
pub mod math;
pub mod plane_laws;
pub mod quad;
pub mod quad_laws;
pub mod rendering;
pub mod scanner;
pub mod utils;
pub mod voxel;
pub mod voxel_engine;
