//! Streaming voxel terrain: coordinate math, chunk storage, chunk loading
//! around a moving observer, bounded job scheduling, and greedy meshing
//! into packed vertices.

pub mod bits;
pub mod chunk;
pub mod chunk_from_middle;
pub mod chunk_loading;
pub mod chunk_map;
pub mod chunk_mesh;
pub mod chunk_set;
pub mod constants;
pub mod culled_mesher;
pub mod greedy_mesher;
pub mod lod;
pub mod mesh_cover;
pub mod mesh_model;
pub mod plane_cover;
pub mod positions;
pub mod queues;
pub mod sampling;
pub mod position_ops;
pub mod vertex;
pub mod voxel;
pub mod world;
