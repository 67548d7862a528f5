//! Nullifier types, the bucketed hash table, and its snapshots.

pub mod cells;
pub mod contents;
pub mod laws;
pub mod snapshot;
pub mod state;
pub mod table;
pub mod types;
