//! Core of a 3D falling-block puzzle game: a dense voxel occupancy grid with
//! piece simulation (spawn, descent, lateral movement, plane clearing), a
//! lossless serialization bridge for the grid state, per-frame instanced
//! render batching, and the small handle types shared with the platform layer.

pub mod assets;
pub mod audio;
pub mod blocks;
pub mod grid;
pub mod render;
pub mod serialization;
