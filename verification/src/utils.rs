//! Names shared between the engine and the shader sources.

pub mod constants;
