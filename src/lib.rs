//! Procedural voxel terrain: a dense 3D grid, marching-cubes surface
//! extraction over symbolic vertices, and chunk streaming around a moving
//! reference point.

pub mod matrix_3d;
pub mod cube;
pub mod error;
pub mod triangulation;
pub mod marching_cubes;
pub mod chunk_system;
pub mod terrain;
pub mod perlin;
pub mod low_poly_shader;
