//! The server side: syncing, following, rebuilding and answering.

pub mod combined;
pub mod engine;
pub mod laws;
pub mod nullifier;
pub mod p2p;
pub mod schedule;
pub mod witness;
