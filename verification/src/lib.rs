//! Game logic of a small voxel game: chunk coordinates and terrain, block
//! faces and their textures, the surface mesher, account rules of the game
//! server and the focus rules of the user interface.

pub mod coords;

pub mod block;
pub mod texture_bin;
pub mod chunk;
pub mod surface_vertex;
pub mod euclid;
pub mod mesher;
pub mod world;
pub mod message;
pub mod password;
pub mod account;
pub mod server;
pub mod ui;
pub mod entity;
pub mod skeleton;
pub mod text_box;
