//! Data types and behaviours for assets: materials, meshes and their registry.

pub mod asset_registry;
pub mod material;
pub mod mesh;
pub mod mesh_deserializer;
pub mod texture;
