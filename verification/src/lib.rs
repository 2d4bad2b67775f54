//! Pocket3D engine core: verified asset formats, archive handling, audio
//! asset parsing and the small shared engine types they feed.

pub mod anim;
pub mod bsp;
pub mod config;
pub mod crc;
pub mod gestures;
pub mod glb;
pub mod handles;
pub mod input;
pub mod keyed;
pub mod kcc;
pub mod le;
pub mod material;
pub mod text;
pub mod texture;
pub mod tools;
pub mod wav;
pub mod pak;
pub mod pak_laws;
pub mod render;
pub mod round;
pub mod shaders;
pub mod skin;
pub mod sound;
pub mod world;

