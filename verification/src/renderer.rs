//! The rendering layer: values, uniforms, buffers, materials and light data as
//! the graphics context sees them.

pub mod buffer;
pub mod light_repository;
pub mod material;
pub mod mesh;
pub mod mesh_data;
pub mod renderer;
pub mod shader_data_type;
pub mod uniform;
pub mod value;
