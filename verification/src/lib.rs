//! A lightweight and modular 3D engine core: the scene tree, the material and
//! uniform binding layer, the light repository and the per-frame draw planning.
//!
//! Everything here is plain data and decisions. Graphics objects are referred to
//! by the integer names the graphics context hands out, and numeric payloads are
//! carried in type parameters, so the engine never computes on them itself.

pub mod asset;
pub mod component;
pub mod editor;
pub mod error;
pub mod importers;
pub mod mesh;
pub mod renderer;
pub mod scene;
pub mod system;
pub mod util;
pub mod utils;
