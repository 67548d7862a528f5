//! The Ironwood commitment tree, its PIR database, and witnesses.

pub mod frontier;
pub mod laws;
pub mod merkle;
pub mod reconstruct;
pub mod snapshot;
pub mod tree;
pub mod types;
