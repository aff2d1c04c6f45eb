//! The voxel terrain logic of an open-world voxel renderer: block culling, chunk meshing
//! with the mesh fill list algorithm, voxel chunks culled across their borders, chunk
//! loading around the player, and the aggregation of chunk meshes into render buffers.
pub mod block;
pub mod terrain_gen;
pub mod texture;
pub mod mesh_util;
pub mod mesh_fill;
pub mod mesh_sparse;
pub mod mesh_surface;
pub mod chunk_mesh;
pub mod chunk_gen_mf;
pub mod chunk_gen_hf;
pub mod terrain;
pub mod world;
pub mod flags;
pub mod camera;
pub mod device;
