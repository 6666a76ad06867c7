//! Blocks, chunks, meshes and the world that streams them.

pub mod block;
pub mod chunk;
pub mod mesh;
pub mod surface;
pub mod terrain;
pub mod world;
