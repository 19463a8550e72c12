//! Importers: what it takes to bring meshes of other formats in.

pub mod collada;
