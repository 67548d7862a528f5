//! The wallet side: queries, sessions and witnesses.

pub mod error;
pub mod laws;
pub mod nullifier;
pub mod session;
pub mod transport;
pub mod witness;
