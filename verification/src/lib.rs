//! Procedural voxel terrain: a seeded fixed-point noise field, a registry of
//! block kinds, chunk generation and surface meshing, and a streaming world.
//!
//! Everything is computed on integers. Continuous quantities (noise
//! coordinates and values) are fixed-point numbers with sixteen fractional
//! bits, mesh vertices are integer world positions, and texture coordinates
//! are thousandths of the atlas side.

pub mod noise;
pub mod voxel;
