//! The passes that run once per frame: the graph pass, the lighting pass and the rendering pass.

pub mod lighting_system;
pub mod rendering_system;
pub mod scene_graph_system;
pub mod shader_compilation_system;
