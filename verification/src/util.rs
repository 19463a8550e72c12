//! Small helpers shared by the rest of the engine.

pub mod name_map;
pub mod regexp;
pub mod text;
