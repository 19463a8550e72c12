//! What is exclusive to the editor version of the engine.

pub mod asset_database;
