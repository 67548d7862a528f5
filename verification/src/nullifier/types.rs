//! The geometry of the nullifier database.

use crate::protocol::{ServerPhase, YpirScenario, ZcashNetwork};
use vstd::prelude::*;
#[allow(unused_imports)]
use crate::bytes::le_nat;
#[allow(unused_imports)]
use crate::pir::is_nullifier_geometry;

verus! {

/// A raw Ironwood nullifier.
pub type Nullifier = [u8; 32];

/// Nullifiers kept before the oldest blocks are evicted.
pub const TARGET_SIZE: usize = 1_000_000;

/// Rows of the PIR database.
pub const NUM_BUCKETS: usize = 16_384;

/// Entries of a bucket.
pub const BUCKET_CAPACITY: usize = 112;

/// Bytes of an entry.
pub const ENTRY_BYTES: usize = 32;

/// Bytes of a bucket.
pub const BUCKET_BYTES: usize = 3_584;

/// Bytes of the PIR database.
pub const DB_BYTES: usize = 58_720_256;

/// Polynomial degree of the nullifier PIR scheme.
pub const YPIR_POLY_LEN: usize = 2_048;

/// The geometry of the nullifier database.
pub fn nullifier_scenario() -> (scenario: YpirScenario)
    ensures
        is_nullifier_geometry(scenario),
{
    YpirScenario {
        num_items: NUM_BUCKETS as u64,
        item_size_bits: (BUCKET_BYTES * 8) as u64,
        poly_len: YPIR_POLY_LEN,
    }
}

/// The sizes fit together: a bucket is its entries, the database its buckets.
pub proof fn law_geometry()
    ensures
        BUCKET_BYTES == BUCKET_CAPACITY * ENTRY_BYTES,
        DB_BYTES == NUM_BUCKETS * BUCKET_BYTES,
{
}

/// The bucket of a nullifier: its first four bytes, read as a little-endian
/// number, reduced modulo the number of buckets.
pub open spec fn bucket_of(nf: Nullifier) -> int {
    (le_nat(nf@.subrange(0, 4)) % 16_384) as int
}

/// The bucket that holds `nf`, if the table holds it.
pub fn hash_to_bucket(nf: &Nullifier) -> (bucket: u32)
    ensures
        bucket == bucket_of(*nf),
        bucket < NUM_BUCKETS,
{
    proof {
        let s = nf@.subrange(0, 4);
        reveal_with_fuel(le_nat, 5);
        assert(s.drop_first().drop_first().drop_first().drop_first() =~= Seq::empty());
    }
    let word: u32 = nf[0] as u32 + 256 * (nf[1] as u32 + 256 * (nf[2] as u32 + 256 * (
    nf[3] as u32)));
    word % 16_384
}

/// What the server says of the nullifier dataset.
#[derive(Debug, Clone)]
pub struct SpendabilityMetadata {
    pub zcash_network: ZcashNetwork,
    pub nullifier_pool: String,
    pub dataset_version: u32,
    pub earliest_height: u64,
    pub latest_height: u64,
    pub num_nullifiers: u64,
    pub num_buckets: u64,
    pub phase: ServerPhase,
}

/// The bucket of a nullifier is given by the low fourteen bits of its first two
/// bytes, the first byte counting least.
pub proof fn law_bucket_is_in_the_first_bytes(nf: Nullifier)
    ensures
        0 <= bucket_of(nf) < 16_384,
        bucket_of(nf) == nf@[0] + 256 * (nf@[1] % 64),
{
    let word = nf@.subrange(0, 4);
    reveal_with_fuel(le_nat, 5);
    assert(word.drop_first() =~= nf@.subrange(1, 4));
    assert(word.drop_first().drop_first() =~= nf@.subrange(2, 4));
    assert(word.drop_first().drop_first().drop_first() =~= nf@.subrange(3, 4));
    assert(le_nat(word) == nf@[0] + 256 * nf@[1] + 65_536 * nf@[2] + 16_777_216 * nf@[3]);
}

} // verus!
