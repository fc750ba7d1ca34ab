//! The planning core of a 3D scene viewer.
//!
//! The library keeps the books of what a renderer has on the device (models, meshes,
//! materials, and for each model a growable buffer of instance records) and plans what the
//! device is to do: each operation returns the commands that carry it out, and each frame is
//! a list of steps. Carrying them out is the application's part.
//!
//! Numbers that the device computes with are held here as the bit patterns of 32-bit
//! IEEE 754 numbers; the library moves and compares them and never computes with them.

pub mod buffer;
pub mod bytes;
pub mod fps;
pub mod gpu;
pub mod gui;
pub mod index;
pub mod mirror;
pub mod model;
pub mod primitives;
pub mod registry;
pub mod renderer;
pub mod scene;
pub mod shader;
pub mod texture;
