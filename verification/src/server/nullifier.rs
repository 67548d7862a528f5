//! The nullifier server: ingestion, reorganisations and rebuilding.

use crate::ingest::dataset::DatasetError;
use crate::ingest::ironwood::{extract_ironwood_nullifiers, EndpointError, IronwoodError};
use crate::ingest::pipeline::{BlockEvent, PipelineError, ValidatedBlock};
use crate::nullifier::table::{HashTableDb, HashTableError};
use crate::nullifier::types::{SpendabilityMetadata, TARGET_SIZE};
use crate::protocol::{
    ErrorText, PirEngine, ServerPhase, YpirScenario, ZcashNetwork, DATASET_VERSION, IRONWOOD_POOL,
};
use crate::text::join;
use vstd::prelude::*;
#[allow(unused_imports)]
use crate::bytes::{concat_hashes, Hash32};
#[allow(unused_imports)]
use crate::ingest::ironwood::{first_bad_nullifier, nullifiers_valid};
#[allow(unused_imports)]
use crate::ingest::proto::ironwood_actions;
#[allow(unused_imports)]
use crate::nullifier::cells::{all_fit, has_room};
#[allow(unused_imports)]
use crate::nullifier::state::{
    can_rewind, evicted_to, highest, inserted, lowest, no_blocks, rewound, TableView,
};

verus! {

/// Why the nullifier server stopped. Failures of calls are kept in words.
#[derive(Debug)]
pub enum ServerError {
    Client(String),
    Pipeline(PipelineError),
    Ironwood(IronwoodError),
    HashTable(HashTableError),
    SnapshotIo(String),
    PirSetup(String),
    Io(String),
    Join(String),
    Dataset(DatasetError),
    Endpoint(EndpointError),
}

impl ServerError {
    /// The text shown to a person.
    pub open spec fn text(&self) -> Seq<char> {
        match self {
            ServerError::Client(reason) => reason@,
            ServerError::Pipeline(error) => error.text(),
            ServerError::Ironwood(error) => error.text(),
            ServerError::HashTable(error) => "hashtable error: "@ + error.text(),
            ServerError::SnapshotIo(reason) => "snapshot io error: "@ + reason@,
            ServerError::PirSetup(reason) => "pir setup failed: "@ + reason@,
            ServerError::Io(reason) => "io error: "@ + reason@,
            ServerError::Join(reason) => "ingest task failed: "@ + reason@,
            ServerError::Dataset(error) => error.text(),
            ServerError::Endpoint(error) => error.text(),
        }
    }

    /// The text shown to a person.
    pub fn message(&self) -> (s: String)
        ensures
            s@ == self.text(),
    {
        match self {
            ServerError::Client(reason) => reason.clone(),
            ServerError::Pipeline(error) => error.message(),
            ServerError::Ironwood(error) => error.message(),
            ServerError::HashTable(error) => join("hashtable error: ", error.message().as_str()),
            ServerError::SnapshotIo(reason) => join("snapshot io error: ", reason.as_str()),
            ServerError::PirSetup(reason) => join("pir setup failed: ", reason.as_str()),
            ServerError::Io(reason) => join("io error: ", reason.as_str()),
            ServerError::Join(reason) => join("ingest task failed: ", reason.as_str()),
            ServerError::Dataset(error) => error.message(),
            ServerError::Endpoint(error) => error.message(),
        }
    }
}

/// Live PIR state: engine state and the metadata that goes with it.
pub struct PirState<P: PirEngine> {
    pub engine_state: P::ServerState,
    pub metadata: SpendabilityMetadata,
}

/// Whether metadata describes a table.
pub open spec fn metadata_describes(
    metadata: SpendabilityMetadata,
    v: TableView,
    network: ZcashNetwork,
) -> bool {
    &&& metadata.zcash_network == network
    &&& metadata.nullifier_pool@ == IRONWOOD_POOL@
    &&& metadata.dataset_version == 2
    &&& metadata.earliest_height == (if no_blocks(v) {
        0
    } else {
        lowest(v)
    })
    &&& metadata.latest_height == (if no_blocks(v) {
        0
    } else {
        highest(v)
    })
    &&& metadata.num_nullifiers == v.count
    &&& metadata.num_buckets == 16_384
    &&& metadata.phase == ServerPhase::Serving
}

/// Whether a rebuild over a table came to `r`, given what setting up came to.
pub open spec fn rebuilt_as<P: PirEngine>(
    outcome: Result<P::ServerState, P::Error>,
    v: TableView,
    network: ZcashNetwork,
    r: Result<PirState<P>, ServerError>,
) -> bool {
    match outcome {
        Ok(engine_state) => r matches Ok(state) && state.engine_state == engine_state
            && metadata_describes(state.metadata, v, network),
        Err(error) => r matches Err(ServerError::PirSetup(reason)) && call_ensures(
            P::Error::message,
            (&error,),
            reason,
        ),
    }
}

/// What the server says of a table.
pub fn metadata_for(hashtable: &HashTableDb, zcash_network: ZcashNetwork) -> (metadata:
    SpendabilityMetadata)
    requires
        hashtable.wf(),
    ensures
        metadata_describes(metadata, hashtable@, zcash_network),
{
    let earliest_height: u64 = match hashtable.earliest_height() {
        Some(height) => height,
        None => 0,
    };
    let latest_height: u64 = match hashtable.latest_height() {
        Some(height) => height,
        None => 0,
    };
    SpendabilityMetadata {
        zcash_network,
        nullifier_pool: IRONWOOD_POOL.to_owned(),
        dataset_version: DATASET_VERSION,
        earliest_height,
        latest_height,
        num_nullifiers: hashtable.len() as u64,
        num_buckets: 16_384,
        phase: ServerPhase::Serving,
    }
}

/// The live state for a table, once setting up has come to `outcome`.
pub fn finish_rebuild<P: PirEngine>(
    outcome: Result<P::ServerState, P::Error>,
    hashtable: &HashTableDb,
    zcash_network: ZcashNetwork,
) -> (r: Result<PirState<P>, ServerError>)
    requires
        hashtable.wf(),
    ensures
        rebuilt_as::<P>(outcome, hashtable@, zcash_network, r),
{
    match outcome {
        Ok(engine_state) => Ok(
            PirState { engine_state, metadata: metadata_for(hashtable, zcash_network) },
        ),
        Err(error) => Err(ServerError::PirSetup(error.message())),
    }
}

/// Build PIR server state from the current hash table.
pub fn rebuild_pir<P: PirEngine>(
    engine: &P,
    hashtable: &HashTableDb,
    scenario: &YpirScenario,
    zcash_network: ZcashNetwork,
) -> (r: Result<PirState<P>, ServerError>)
    requires
        hashtable.wf(),
    ensures
        exists|db_bytes: &[u8], outcome: Result<P::ServerState, P::Error>|
            db_bytes@ == concat_hashes(hashtable@.cells) && #[trigger] call_ensures(
                P::setup,
                (engine, db_bytes, scenario),
                outcome,
            ) && rebuilt_as::<P>(outcome, hashtable@, zcash_network, r),
{
    let db_bytes = hashtable.to_pir_bytes();
    let outcome = engine.setup(db_bytes.as_slice(), scenario);
    finish_rebuild(outcome, hashtable, zcash_network)
}

/// The nullifiers of a block, when all are well formed.
pub open spec fn block_nullifiers(block: ValidatedBlock) -> Seq<Hash32> {
    ironwood_actions(block.block.vtx@).map_values(
        |action: crate::ingest::proto::CompactOrchardAction|
            crate::bytes::array_of(action.nullifier@),
    )
}

/// Whether a block can be taken into a table.
pub open spec fn block_insertable(v: TableView, block: ValidatedBlock) -> bool {
    nullifiers_valid(ironwood_actions(block.block.vtx@)) && all_fit(
        v.cells,
        block_nullifiers(block),
    )
}

/// The table once a block has been taken in.
pub open spec fn block_inserted(v: TableView, block: ValidatedBlock) -> TableView {
    inserted(v, block.block.height, block.hash, block_nullifiers(block))
}

/// The error for a block that cannot be taken in: its first malformed
/// nullifier, else a bucket without room.
pub open spec fn block_refused(v: TableView, block: ValidatedBlock, error: ServerError) -> bool {
    let actions = ironwood_actions(block.block.vtx@);
    if !nullifiers_valid(actions) {
        exists|i: int| #[trigger]
            first_bad_nullifier(actions, i) && error == ServerError::Ironwood(
                IronwoodError::InvalidNullifier {
                    height: block.block.height,
                    actual: actions[i].nullifier@.len() as usize,
                },
            )
    } else {
        error matches ServerError::HashTable(HashTableError::BucketOverflow { bucket_idx })
            && bucket_idx < 16_384 && !has_room(
            v.cells,
            block_nullifiers(block),
            bucket_idx as int,
        )
    }
}

/// Extracted nullifiers are the block's.
pub proof fn lemma_block_nullifiers(block: ValidatedBlock, nullifiers: Seq<Hash32>)
    requires
        nullifiers.len() == ironwood_actions(block.block.vtx@).len(),
        forall|i: int|
            0 <= i < nullifiers.len() ==> (#[trigger] nullifiers[i])@ == ironwood_actions(
                block.block.vtx@,
            )[i].nullifier@,
    ensures
        nullifiers == block_nullifiers(block),
{
    assert forall|i: int| 0 <= i < nullifiers.len() implies nullifiers[i] == block_nullifiers(
        block,
    )[i] by {
        crate::bytes::lemma_array_of(
            nullifiers[i],
            ironwood_actions(block.block.vtx@)[i].nullifier@,
        );
    }
    assert(nullifiers =~= block_nullifiers(block));
}

/// Takes a block of the initial sync into the table, wholly or not at all.
pub fn sync_block(hashtable: &mut HashTableDb, block: &ValidatedBlock) -> (r: Result<
    (),
    ServerError,
>)
    requires
        old(hashtable).wf(),
        old(hashtable)@.count + ironwood_actions(block.block.vtx@).len() <= usize::MAX,
    ensures
        final(hashtable).wf(),
        r is Ok <==> block_insertable(old(hashtable)@, *block),
        r is Ok ==> final(hashtable)@ == block_inserted(old(hashtable)@, *block),
        r matches Err(error) ==> final(hashtable)@ == old(hashtable)@ && block_refused(
            old(hashtable)@,
            *block,
            error,
        ),
{
    let nullifiers = match extract_ironwood_nullifiers(&block.block) {
        Ok(nullifiers) => nullifiers,
        Err(error) => return Err(ServerError::Ironwood(error)),
    };
    proof {
        lemma_block_nullifiers(*block, nullifiers@);
    }
    match hashtable.insert_block(block.height(), block.hash, nullifiers.as_slice()) {
        Ok(()) => Ok(()),
        Err(error) => Err(ServerError::HashTable(error)),
    }
}

/// Whether an event can be applied to a table.
pub open spec fn event_applies(v: TableView, event: BlockEvent) -> bool {
    match event {
        BlockEvent::NewBlock(block) => block_insertable(v, block),
        BlockEvent::Reorg { rollback_to } => can_rewind(v, rollback_to),
    }
}

/// The table once an event has been applied and the oldest blocks evicted.
pub open spec fn event_applied(v: TableView, event: BlockEvent) -> TableView {
    match event {
        BlockEvent::NewBlock(block) => evicted_to(block_inserted(v, block), TARGET_SIZE as nat),
        BlockEvent::Reorg { rollback_to } => evicted_to(
            rewound(v, rollback_to),
            TARGET_SIZE as nat,
        ),
    }
}

/// Applies what happened to the confirmed chain, and evicts down to the
/// target size.
pub fn apply_event(hashtable: &mut HashTableDb, event: &BlockEvent) -> (r: Result<(), ServerError>)
    requires
        old(hashtable).wf(),
        event matches BlockEvent::NewBlock(block) ==> old(hashtable)@.count + ironwood_actions(
            block.block.vtx@,
        ).len() <= usize::MAX,
    ensures
        final(hashtable).wf(),
        r is Ok <==> event_applies(old(hashtable)@, *event),
        r is Ok ==> final(hashtable)@ == event_applied(old(hashtable)@, *event),
        r matches Err(error) ==> match *event {
            BlockEvent::NewBlock(block) => final(hashtable)@ == old(hashtable)@ && block_refused(
                old(hashtable)@,
                block,
                error,
            ),
            BlockEvent::Reorg { rollback_to } => final(hashtable)@ == rewound(
                old(hashtable)@,
                rollback_to,
            ) && error == ServerError::HashTable(HashTableError::BlockNotFound),
        },
{
    match event {
        BlockEvent::NewBlock(block) => match sync_block(hashtable, block) {
            Ok(()) => {},
            Err(error) => return Err(error),
        },
        BlockEvent::Reorg { rollback_to } => match hashtable.rewind_to(*rollback_to) {
            Ok(()) => {},
            Err(error) => return Err(ServerError::HashTable(error)),
        },
    }
    hashtable.evict_to_target();
    Ok(())
}

} // verus!
