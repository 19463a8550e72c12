//! Components that are attached to entities in the 3D scene.

pub mod light;
pub mod mesh;
pub mod transform;
