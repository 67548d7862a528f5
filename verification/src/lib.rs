//! Private spendability checks for Zcash wallets over single-server PIR.
//!
//! The library holds the logic of the nullifier and witness subsystems: the
//! bucketed nullifier table, the Ironwood commitment tree and the witnesses
//! rebuilt from it, the compact-block pipeline that feeds both, and the wire
//! protocol between wallet and server.

pub mod bytes;
pub mod text;
pub mod ordered;
pub mod hash_index;
pub mod protocol;
pub mod nullifier;
pub mod p2p;
pub mod witness;
pub mod client;
pub mod ingest;
pub mod pir;
pub mod server;
