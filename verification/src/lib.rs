//! voxelcraft — the world model of a small voxel sandbox: block kinds, the
//! voxel grid with its water levels, world generation (a level plain, a
//! meadow built from a terrain height field, and the Joseon palace map), the
//! save format, the water flow step, breaking and placing blocks, the hotbar,
//! the chunk meshes the renderer draws, and the camera perspective.

pub mod block;
pub mod chunk;
pub mod hotbar;
pub mod interaction;
pub mod save;
pub mod water;
pub mod world;
pub mod player;
pub mod particles;
pub mod joseon;
pub mod mesh;
pub mod texture;
pub mod viewmodel;
