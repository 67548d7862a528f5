//! Types shared by the nullifier and witness subsystems.

use crate::text::{join, quoted, same_text};
use vstd::prelude::*;
#[allow(unused_imports)]
use crate::text::debug_text;

verus! {

/// Blocks behind the tip at which the PIR server anchors its database state.
/// Shared by both nullifier and witness PIR servers. Deep enough (10) to survive
/// typical reorgs while still being fresh enough for practical spending.
pub const CONFIRMATION_DEPTH: u64 = 10;

/// Shielded pool represented by newly-created PIR datasets.
pub const IRONWOOD_POOL: &'static str = "ironwood";

/// Version of the Ironwood PIR dataset contract.
pub const DATASET_VERSION: u32 = 2;

/// Zcash network represented by a PIR dataset.
#[derive(Debug, Clone, Copy, PartialEq, Eq, Structural)]
pub enum ZcashNetwork {
    Main,
    Test,
}

/// The name of a network in messages and on the command line.
pub open spec fn network_name(network: ZcashNetwork) -> Seq<char> {
    match network {
        ZcashNetwork::Main => "main"@,
        ZcashNetwork::Test => "test"@,
    }
}

impl ZcashNetwork {
    pub fn as_str(self) -> (name: &'static str)
        ensures
            name@ == network_name(self),
    {
        match self {
            ZcashNetwork::Main => "main",
            ZcashNetwork::Test => "test",
        }
    }

    /// The network whose name is `value`.
    pub fn parse(value: &str) -> (r: Result<Self, String>)
        ensures
            r is Ok <==> value@ == network_name(ZcashNetwork::Main) || value@ == network_name(
                ZcashNetwork::Test,
            ),
            r is Ok ==> network_name(r->Ok_0) == value@,
            r is Err ==> r->Err_0@ == "unsupported Zcash network "@ + debug_text(value@)
                + "; expected main or test"@,
    {
        if same_text(value, "main") {
            Ok(ZcashNetwork::Main)
        } else if same_text(value, "test") {
            Ok(ZcashNetwork::Test)
        } else {
            let mut message = join("unsupported Zcash network ", quoted(value).as_str());
            message.append("; expected main or test");
            Err(message)
        }
    }
}

impl std::str::FromStr for ZcashNetwork {
    type Err = String;

    fn from_str(value: &str) -> (r: Result<Self, String>)
        ensures
            r is Ok <==> value@ == network_name(ZcashNetwork::Main) || value@ == network_name(
                ZcashNetwork::Test,
            ),
            r is Ok ==> network_name(r->Ok_0) == value@,
            r is Err ==> r->Err_0@ == "unsupported Zcash network "@ + debug_text(value@)
                + "; expected main or test"@,
    {
        ZcashNetwork::parse(value)
    }
}

/// Server lifecycle phase, reported via `/metadata` endpoints.
#[derive(Debug, Clone, Copy, PartialEq, Eq, Structural)]
pub enum ServerPhase {
    /// Catching up to the chain tip during initial sync.
    Syncing { current_height: u64, target_height: u64 },
    /// Fully synced and serving PIR queries.
    Serving,
}

/// SimplePIR scenario parameters describing the database geometry.
#[derive(Debug, Clone, Copy, PartialEq, Eq, Structural)]
pub struct YpirScenario {
    /// Number of rows in the PIR database.
    pub num_items: u64,
    /// Size of each row in bits.
    pub item_size_bits: u64,
    /// RLWE polynomial degree.
    pub poly_len: usize,
}

/// An error that can be put in words.
pub trait ErrorText {
    /// The text shown to a person.
    fn message(&self) -> (s: String);
}

/// Abstraction over the PIR engine, allowing stub implementations for testing
/// and the real YPIR engine in production.
pub trait PirEngine: Send + Sync {
    type ServerState: Send + Sync;

    type Error: ErrorText + Send + Sync + 'static;

    /// Offline precomputation: build server state from raw DB bytes and scenario.
    fn setup(&self, db_bytes: &[u8], scenario: &YpirScenario) -> (r: Result<
        Self::ServerState,
        Self::Error,
    >);

    /// Online computation: answer a single encrypted client query.
    fn answer_query(&self, state: &Self::ServerState, query_bytes: &[u8]) -> (r: Result<
        Vec<u8>,
        Self::Error,
    >);
}

} // verus!
