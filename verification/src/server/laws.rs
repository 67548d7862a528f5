//! What blocks and events come to in the servers' stores, told by what the
//! blocks hold.

use super::nullifier as nf;
use super::schedule::Backfill;
use super::witness as wit;
use crate::bytes::Hash32;
use crate::ingest::pipeline::{BlockEvent, ValidatedBlock};
use crate::ingest::proto::{CompactBlock, CompactTx, SubtreeRoot};
use crate::nullifier::state::TableView;
use crate::nullifier::types::SpendabilityMetadata;
use crate::protocol::{PirEngine, ServerPhase, ZcashNetwork};
use crate::witness::frontier::WitnessMetadata;
use crate::witness::tree::TreeView;
use vstd::prelude::*;
#[allow(unused_imports)]
use super::combined::{block_applies, tips_agree};
#[allow(unused_imports)]
use super::schedule::{
    backfill_first, backfill_left, confirmed_height, forward_from, resume_from, shared_start,
    sync_floor,
};
#[allow(unused_imports)]
use crate::bytes::{array_of, lemma_array_exists, lemma_array_of};
#[allow(unused_imports)]
use crate::ingest::commitment::{commitments_valid, ParseError};
#[allow(unused_imports)]
use crate::ingest::ironwood::{activation_height, nullifiers_valid, IronwoodError};
#[allow(unused_imports)]
use crate::ingest::proto::{
    actions_before, ironwood_actions, law_actions_are_the_lists_joined,
    law_every_action_has_its_place, law_every_action_is_of_a_transaction, lemma_actions_counted,
    CompactOrchardAction,
};
#[allow(unused_imports)]
use crate::nullifier::cells::{all_fit, has_room, vacant};
#[allow(unused_imports)]
use crate::nullifier::contents::{
    law_insert_adds_its_nullifiers, law_rewind_keeps_nullifiers, live_nullifiers,
};
#[allow(unused_imports)]
use crate::nullifier::laws::{
    law_insert_keeps_sound, law_rewind_keeps_lower_blocks, law_small_table_keeps_everything, sound,
};
#[allow(unused_imports)]
use crate::nullifier::state::{
    can_rewind, evicted_to, highest, inserted, lemma_has_extremes, lowest, no_blocks, rewound,
};
#[allow(unused_imports)]
use crate::nullifier::table::HashTableError;
#[allow(unused_imports)]
use crate::witness::merkle::canonical;
#[allow(unused_imports)]
use crate::witness::tree::{
    appended, describes, leaf_level, populated, size_of, tree_wf, window_count, window_start,
};

verus! {

/// A block has the nullifiers of all its Ironwood actions, each in its place.
pub proof fn law_block_has_all_its_nullifiers(block: ValidatedBlock, t: int, a: int)
    requires
        0 <= t < block.block.vtx@.len(),
        0 <= a < block.block.vtx@[t].ironwood_actions@.len(),
        block.block.vtx@[t].ironwood_actions@[a].nullifier@.len() == 32,
    ensures
        nf::block_nullifiers(block).len() == block.block.vtx@.map_values(
            |tx: CompactTx| tx.ironwood_actions@,
        ).flatten().len(),
        0 <= actions_before(block.block.vtx@, t) + a < nf::block_nullifiers(block).len(),
        nf::block_nullifiers(block)[actions_before(block.block.vtx@, t) + a]@
            == block.block.vtx@[t].ironwood_actions@[a].nullifier@,
{
    law_every_action_has_its_place(block.block.vtx@, t, a);
    law_actions_are_the_lists_joined(block.block.vtx@);
    let bytes = block.block.vtx@[t].ironwood_actions@[a].nullifier@;
    lemma_array_exists(bytes);
}

/// A block has the commitments of all its Ironwood actions, each in its place.
pub proof fn law_block_has_all_its_commitments(block: CompactBlock, t: int, a: int)
    requires
        0 <= t < block.vtx@.len(),
        0 <= a < block.vtx@[t].ironwood_actions@.len(),
        block.vtx@[t].ironwood_actions@[a].cmx@.len() == 32,
    ensures
        wit::block_commitments(block).len() == block.vtx@.map_values(
            |tx: CompactTx| tx.ironwood_actions@,
        ).flatten().len(),
        0 <= actions_before(block.vtx@, t) + a < wit::block_commitments(block).len(),
        wit::block_commitments(block)[actions_before(block.vtx@, t) + a]@
            == block.vtx@[t].ironwood_actions@[a].cmx@,
{
    law_every_action_has_its_place(block.vtx@, t, a);
    law_actions_are_the_lists_joined(block.vtx@);
    lemma_array_exists(block.vtx@[t].ironwood_actions@[a].cmx@);
}

/// A block can be taken into the table exactly when all its nullifiers have 32
/// bytes and the buckets have room for them.
pub proof fn law_block_is_insertable(v: TableView, block: ValidatedBlock)
    ensures
        nf::block_insertable(v, block) <==> (forall|t: int, a: int|
            0 <= t < block.block.vtx@.len() && 0 <= a < block.block.vtx@[t].ironwood_actions@.len()
                ==> (#[trigger] block.block.vtx@[t].ironwood_actions@[a]).nullifier@.len() == 32)
            && all_fit(v.cells, nf::block_nullifiers(block)),
{
    let vtx = block.block.vtx@;
    let actions = ironwood_actions(vtx);
    if nullifiers_valid(actions) {
        assert forall|t: int, a: int|
            0 <= t < vtx.len() && 0 <= a < vtx[t].ironwood_actions@.len() implies (
        #[trigger] vtx[t].ironwood_actions@[a]).nullifier@.len() == 32 by {
            law_every_action_has_its_place(vtx, t, a);
        }
    }
    if forall|t: int, a: int|
        0 <= t < vtx.len() && 0 <= a < vtx[t].ironwood_actions@.len() ==> (
        #[trigger] vtx[t].ironwood_actions@[a]).nullifier@.len() == 32 {
        assert forall|i: int| 0 <= i < actions.len() implies (
        #[trigger] actions[i]).nullifier@.len() == 32 by {
            let (t, a) = law_every_action_is_of_a_transaction(vtx, i);
            assert(vtx[t].ironwood_actions@[a].nullifier@.len() == 32);
        }
    }
}

/// A block taken into a sound table at a new height is live there with all its
/// nullifiers, and every block before it keeps its own.
pub proof fn law_inserted_block_is_live(v: TableView, block: ValidatedBlock)
    requires
        sound(v),
        nf::block_insertable(v, block),
        !v.blocks.contains_key(block.block.height),
        !v.heights.contains_key(block.hash),
        !nf::block_nullifiers(block).contains(vacant()),
    ensures
        sound(nf::block_inserted(v, block)),
        live_nullifiers(nf::block_inserted(v, block)) == live_nullifiers(v).insert(
            block.block.height,
            nf::block_nullifiers(block),
        ),
        nf::block_inserted(v, block).blocks[block.block.height].hash == block.hash,
        nf::block_inserted(v, block).count == v.count + nf::block_nullifiers(block).len(),
{
    law_insert_adds_its_nullifiers(
        v,
        block.block.height,
        block.hash,
        nf::block_nullifiers(block),
    );
}

/// As long as the table is not larger than its target, a new block adds itself
/// and takes nothing away, and a reorganisation leaves exactly the blocks up to
/// the fork.
pub proof fn law_events_keep_what_fits(v: TableView, event: BlockEvent)
    requires
        sound(v),
    ensures
        event matches BlockEvent::NewBlock(block) ==> (v.count + nf::block_nullifiers(block).len()
            <= 1_000_000 ==> nf::event_applied(v, event) == nf::block_inserted(v, block)),
        event matches BlockEvent::NewBlock(block) ==> nf::event_applies(v, event)
            == nf::block_insertable(v, block),
        event matches BlockEvent::Reorg { rollback_to } ==> nf::event_applies(v, event)
            && (rewound(v, rollback_to).count <= 1_000_000 ==> {
            let n = nf::event_applied(v, event);
            &&& forall|h: u64| #[trigger]
                n.blocks.contains_key(h) <==> v.blocks.contains_key(h) && h <= rollback_to
            &&& forall|h: u64| #[trigger]
                n.blocks.contains_key(h) ==> live_nullifiers(n)[h] == live_nullifiers(v)[h]
        }),
{
    match event {
        BlockEvent::NewBlock(block) => {
            let n = nf::block_inserted(v, block);
            assert(n.blocks.dom() =~= v.blocks.dom().insert(block.block.height));
            if n.count <= 1_000_000 {
                law_small_table_keeps_everything(n, 1_000_000);
            }
        },
        BlockEvent::Reorg { rollback_to } => {
            law_rewind_keeps_lower_blocks(v, rollback_to);
            law_rewind_keeps_nullifiers(v, rollback_to);
            let n = rewound(v, rollback_to);
            if n.count <= 1_000_000 {
                law_small_table_keeps_everything(n, 1_000_000);
                assert forall|h: u64| #[trigger] n.blocks.contains_key(h) implies live_nullifiers(
                    n,
                )[h] == live_nullifiers(v)[h] by {
                    assert(live_nullifiers(v).restrict(n.blocks.dom()).contains_key(h));
                }
            }
        },
    }
}

/// What is said of a table: its lowest and highest block, or zeros without any,
/// and as many nullifiers as it counts.
pub proof fn law_metadata_tells_the_table(
    metadata: SpendabilityMetadata,
    v: TableView,
    network: ZcashNetwork,
)
    requires
        v.blocks.dom().finite(),
        nf::metadata_describes(metadata, v, network),
    ensures
        metadata.zcash_network == network,
        metadata.nullifier_pool@ == "ironwood"@,
        metadata.dataset_version == 2,
        metadata.num_nullifiers == v.count,
        metadata.num_buckets == 16_384,
        metadata.phase == ServerPhase::Serving,
        forall|h: u64| #[trigger]
            v.blocks.contains_key(h) ==> metadata.earliest_height <= h <= metadata.latest_height,
        v.blocks.dom().len() > 0 ==> v.blocks.contains_key(metadata.earliest_height)
            && v.blocks.contains_key(metadata.latest_height),
        v.blocks.dom().len() == 0 ==> metadata.earliest_height == 0 && metadata.latest_height == 0,
{
    if no_blocks(v) {
        assert(v.blocks.dom() =~= Set::empty());
    } else {
        lemma_has_extremes(v);
        if v.blocks.dom().len() == 0 {
            assert(v.blocks.dom() =~= Set::empty());
        }
    }
}

/// What is said of a tree: its size, its shards and its window.
pub proof fn law_metadata_tells_the_tree(
    metadata: WitnessMetadata,
    v: TreeView,
    anchor_height: u64,
    network: ZcashNetwork,
)
    requires
        tree_wf(v),
        wit::metadata_describes(metadata, v, anchor_height, network),
    ensures
        metadata.zcash_network == network,
        metadata.commitment_pool@ == "ironwood"@,
        metadata.dataset_version == 2,
        metadata.anchor_height == anchor_height,
        metadata.tree_size == v.offset + v.leaves.len(),
        65_536 * metadata.populated_shards >= metadata.tree_size,
        65_536 * metadata.populated_shards < metadata.tree_size + 65_536,
        metadata.window_start_shard + metadata.window_shard_count == metadata.populated_shards,
        metadata.window_shard_count <= 16,
        metadata.window_start_shard > v.prefetched.len() ==> metadata.window_shard_count == 16,
        metadata.phase == ServerPhase::Serving,
{
}

/// A rebuild serves exactly what the engine set up: with the engine's state where
/// setting up went well, else with its error.
pub proof fn law_rebuild_serves_what_was_set_up<P: PirEngine>(
    outcome: Result<P::ServerState, P::Error>,
    table: TableView,
    tree: TreeView,
    anchor_height: u64,
    network: ZcashNetwork,
    nullifier: Result<nf::PirState<P>, nf::ServerError>,
    witness: Result<wit::PirState<P>, wit::ServerError>,
)
    requires
        nf::rebuilt_as::<P>(outcome, table, network, nullifier),
        wit::rebuilt_as::<P>(outcome, tree, anchor_height, network, witness),
    ensures
        outcome is Ok <==> nullifier is Ok,
        outcome is Ok <==> witness is Ok,
        outcome matches Ok(state) ==> nullifier->Ok_0.engine_state == state
            && witness->Ok_0.engine_state == state,
        outcome is Ok ==> nf::metadata_describes(nullifier->Ok_0.metadata, table, network),
        outcome is Ok ==> describes(tree, witness->Ok_0.broadcast, anchor_height)
            && wit::metadata_describes(witness->Ok_0.metadata, tree, anchor_height, network),
{
}

/// A block can be appended exactly when all its commitments are canonical, it
/// tells a tree size, and that size is the tree's with one leaf more for each of
/// its Ironwood actions.
pub proof fn law_block_is_appendable(v: TreeView, block: CompactBlock)
    ensures
        wit::block_appendable(v, block) <==> (forall|t: int, a: int|
            0 <= t < block.vtx@.len() && 0 <= a < block.vtx@[t].ironwood_actions@.len()
                ==> canonical((#[trigger] block.vtx@[t].ironwood_actions@[a]).cmx@))
            && block.chain_metadata is Some
            && block.chain_metadata->0.ironwood_commitment_tree_size == v.offset + v.leaves.len()
            + block.vtx@.map_values(|tx: CompactTx| tx.ironwood_actions@).flatten().len(),
{
    let vtx = block.vtx@;
    let actions = ironwood_actions(vtx);
    law_actions_are_the_lists_joined(vtx);
    if commitments_valid(actions) {
        assert forall|t: int, a: int|
            0 <= t < vtx.len() && 0 <= a < vtx[t].ironwood_actions@.len() implies canonical(
            (#[trigger] vtx[t].ironwood_actions@[a]).cmx@,
        ) by {
            law_every_action_has_its_place(vtx, t, a);
        }
    }
    if forall|t: int, a: int|
        0 <= t < vtx.len() && 0 <= a < vtx[t].ironwood_actions@.len() ==> canonical(
            (#[trigger] vtx[t].ironwood_actions@[a]).cmx@,
        ) {
        assert forall|i: int| 0 <= i < actions.len() implies canonical(
            (#[trigger] actions[i]).cmx@,
        ) by {
            let (t, a) = law_every_action_is_of_a_transaction(vtx, i);
            assert(canonical(vtx[t].ironwood_actions@[a].cmx@));
        }
    }
}

/// Once a block is appended, the tree has the size that the block tells, ends
/// with the block, and holds its commitments as its last leaves.
pub proof fn law_appended_block_ends_the_tree(v: TreeView, block: ValidatedBlock)
    requires
        tree_wf(v),
        wit::block_appendable(v, block.block),
    ensures
        ({
            let n = wit::block_appended(v, block);
            let commitments = wit::block_commitments(block.block);
            &&& n.offset + n.leaves.len()
                == block.block.chain_metadata->0.ironwood_commitment_tree_size
            &&& n.leaves.take(v.leaves.len() as int) == v.leaves
            &&& n.leaves.skip(v.leaves.len() as int) == commitments
            &&& n.offset == v.offset
            &&& n.prefetched == v.prefetched
            &&& n.blocks.len() == v.blocks.len() + 1
            &&& n.blocks.last().height == block.block.height
            &&& n.blocks.last().hash == block.hash
        }),
{
    let n = wit::block_appended(v, block);
    assert(n.leaves.take(v.leaves.len() as int) =~= v.leaves);
    assert(n.leaves.skip(v.leaves.len() as int) =~= wit::block_commitments(block.block));
}

/// Of commitments that end a tree of `end_tree_size` leaves, those past an offset
/// are exactly the last ones whose positions are not below it.
pub proof fn law_spillover_is_what_lies_past_the_offset(
    commitments: Seq<Hash32>,
    end_tree_size: u64,
    leaf_offset: u64,
    i: int,
)
    requires
        0 <= i < commitments.len(),
    ensures
        ({
            let past = wit::past_offset(commitments, end_tree_size, leaf_offset);
            let first = commitments.len() - past.len();
            &&& 0 <= first
            &&& past == commitments.skip(first)
            &&& first <= i <==> leaf_offset <= end_tree_size - commitments.len() + i
        }),
{
    let past = wit::past_offset(commitments, end_tree_size, leaf_offset);
    assert(past =~= commitments.skip(commitments.len() - past.len()));
}

/// The subtree roots that count are those completed up to the target, in order;
/// and a window is made of one to sixteen shards, as asked for.
pub proof fn law_completed_roots_count(
    roots: Seq<SubtreeRoot>,
    target_height: u64,
    limit: usize,
)
    ensures
        wit::completed(roots, target_height) == roots.filter(
            |root: SubtreeRoot| root.completing_block_height <= target_height,
        ),
        1 <= wit::shard_limit(limit) <= 16,
        1 <= limit <= 16 ==> wit::shard_limit(limit) == limit,
        limit > 16 ==> wit::shard_limit(limit) == 16,
{
}

/// Without a snapshot syncing starts no lower than activation, or at the first
/// block where activation is not reached, and goes back no further than a batch;
/// with one it goes on after what is held.
pub proof fn law_sync_starts_in_reach(latest: Option<u64>, target_height: u64, network: ZcashNetwork)
    ensures
        ({
            let start = forward_from(false, latest, target_height, network);
            &&& start >= sync_floor(target_height, network)
            &&& start == sync_floor(target_height, network) || start + 50_000 == target_height
            &&& start + 50_000 >= target_height
        }),
        latest matches Some(held) ==> forward_from(true, latest, target_height, network) == held + 1,
        latest is None ==> forward_from(true, latest, target_height, network) == target_height,
        target_height < activation_height(network) ==> sync_floor(target_height, network) == 1,
        target_height >= activation_height(network) ==> sync_floor(target_height, network)
            == activation_height(network),
        activation_height(ZcashNetwork::Main) == 3_428_143,
        activation_height(ZcashNetwork::Test) == 4_134_000,
{
}

/// A batch of filling up stays above the floor, has at most 50,000 blocks, and
/// fewer only where it reaches the floor.
pub proof fn law_backfill_batches_are_full(b: Backfill)
    requires
        backfill_left(b),
    ensures
        b.floor <= backfill_first(b.end, b.floor) <= b.end,
        b.end - backfill_first(b.end, b.floor) + 1 <= 50_000,
        backfill_first(b.end, b.floor) > b.floor ==> b.end - backfill_first(b.end, b.floor) + 1
            == 50_000,
        !b.done,
{
}

/// Stores take a block exactly when each that takes part can, and they end at one
/// tip exactly when their last blocks have the same height and hash.
pub proof fn law_stores_agree(table: TableView, tree: TreeView, block: ValidatedBlock)
    requires
        table.blocks.dom().finite(),
    ensures
        block_applies(Some(table), Some(tree), block) <==> nf::block_insertable(table, block)
            && wit::block_appendable(tree, block.block),
        block_applies(Some(table), None, block) <==> nf::block_insertable(table, block),
        block_applies(None, Some(tree), block) <==> wit::block_appendable(tree, block.block),
        block_applies(None, None, block),
        tips_agree(table, tree) <==> tree.blocks.len() > 0 && table.blocks.contains_key(
            tree.blocks.last().height,
        ) && table.blocks[tree.blocks.last().height].hash == tree.blocks.last().hash && (forall|
            h: u64,
        | #[trigger]
            table.blocks.contains_key(h) ==> h <= tree.blocks.last().height),
{
    if !no_blocks(table) {
        lemma_has_extremes(table);
        if tree.blocks.len() > 0 && table.blocks.contains_key(tree.blocks.last().height) && (
        forall|h: u64| #[trigger]
            table.blocks.contains_key(h) ==> h <= tree.blocks.last().height) {
            assert(crate::nullifier::state::is_highest(table, tree.blocks.last().height));
        }
    }
}

/// A block opens a window exactly when it is the completing block and is well
/// formed; and where it completes the shards before the window, the tree that it
/// opens has the size that it tells.
pub proof fn law_window_opens_where_shards_end(
    blocks: Seq<CompactBlock>,
    completing_height: u64,
    offset: u64,
)
    requires
        blocks.len() > 0,
    ensures
        wit::opens_window(blocks, completing_height) <==> blocks[0].height == completing_height
            && blocks[0].hash@.len() == 32 && (forall|t: int, a: int|
            0 <= t < blocks[0].vtx@.len() && 0 <= a < blocks[0].vtx@[t].ironwood_actions@.len()
                ==> canonical((#[trigger] blocks[0].vtx@[t].ironwood_actions@[a]).cmx@)),
        blocks[0].chain_metadata matches Some(metadata) ==> ({
            let size = metadata.ironwood_commitment_tree_size;
            let commitments = wit::block_commitments(blocks[0]);
            &&& wit::told_size(blocks[0]) == size
            &&& size - commitments.len() <= offset < size ==> offset + wit::past_offset(
                commitments,
                wit::told_size(blocks[0]),
                offset,
            ).len() == size
        }),
        blocks[0].chain_metadata is None ==> wit::told_size(blocks[0]) == 0,
{
    let vtx = blocks[0].vtx@;
    let actions = ironwood_actions(vtx);
    if commitments_valid(actions) {
        assert forall|t: int, a: int|
            0 <= t < vtx.len() && 0 <= a < vtx[t].ironwood_actions@.len() implies canonical(
            (#[trigger] vtx[t].ironwood_actions@[a]).cmx@,
        ) by {
            law_every_action_has_its_place(vtx, t, a);
        }
    } else {
        let i = choose|i: int| 0 <= i < actions.len() && !canonical((#[trigger] actions[i]).cmx@);
        let (t, a) = law_every_action_is_of_a_transaction(vtx, i);
        assert(!canonical(vtx[t].ironwood_actions@[a].cmx@));
    }
}

/// What a store takes of a block is what the block holds, under its own height
/// and hash.
pub proof fn law_block_is_taken_whole(table: TableView, tree: TreeView, block: ValidatedBlock)
    ensures
        nf::block_inserted(table, block) == inserted(
            table,
            block.block.height,
            block.hash,
            nf::block_nullifiers(block),
        ),
        wit::block_appended(tree, block) == appended(
            tree,
            block.block.height,
            block.hash,
            wit::block_commitments(block.block),
        ),
{
}

/// A block that the table refuses is refused for a nullifier that does not have 32
/// bytes, or for a bucket without room for its nullifiers.
pub proof fn law_refused_block_has_a_fault(
    v: TableView,
    block: ValidatedBlock,
    error: nf::ServerError,
)
    requires
        nf::block_refused(v, block, error),
    ensures
        match error {
            nf::ServerError::Ironwood(IronwoodError::InvalidNullifier { height, actual }) => {
                &&& height == block.block.height
                &&& exists|t: int, a: int|
                    0 <= t < block.block.vtx@.len() && 0 <= a
                        < block.block.vtx@[t].ironwood_actions@.len() && (
                    #[trigger] block.block.vtx@[t].ironwood_actions@[a]).nullifier@.len() != 32
            },
            nf::ServerError::HashTable(HashTableError::BucketOverflow { bucket_idx }) => {
                bucket_idx < 16_384 && !has_room(
                    v.cells,
                    nf::block_nullifiers(block),
                    bucket_idx as int,
                )
            },
            _ => false,
        },
{
    let vtx = block.block.vtx@;
    let actions = ironwood_actions(vtx);
    if !nullifiers_valid(actions) {
        let i = choose|i: int| 0 <= i < actions.len() && (#[trigger] actions[i]).nullifier@.len()
            != 32;
        let (t, a) = law_every_action_is_of_a_transaction(vtx, i);
        assert(vtx[t].ironwood_actions@[a].nullifier@.len() != 32);
    }
}

/// A block that the tree refuses with well-formed commitments tells no size, or
/// one that is not the tree's with its own commitments added.
pub proof fn law_refused_append_has_a_fault(
    v: TreeView,
    block: CompactBlock,
    context: &'static str,
    error: wit::ServerError,
)
    requires
        wit::append_refused(v, block, context, error),
        commitments_valid(ironwood_actions(block.vtx@)),
        !wit::block_appendable(v, block),
        size_of(v) <= u64::MAX,
        ironwood_actions(block.vtx@).len() <= usize::MAX,
    ensures
        match error {
            wit::ServerError::Parse(ParseError::MissingTreeSize { height }) => height
                == block.height && block.chain_metadata is None,
            wit::ServerError::Parse(
                ParseError::InvalidTreeSize { height, tree_size, commitments },
            ) => height == block.height && block.chain_metadata is Some && tree_size
                == block.chain_metadata->0.ironwood_commitment_tree_size && commitments
                == ironwood_actions(block.vtx@).len() && tree_size < commitments,
            wit::ServerError::TreeSizeMismatch { height, expected, actual, .. } => height
                == block.height && block.chain_metadata is Some && actual == size_of(v) && expected
                != actual && expected + ironwood_actions(block.vtx@).len()
                == block.chain_metadata->0.ironwood_commitment_tree_size,
            _ => false,
        },
{
}

/// The first subtree root that is not canonical is told.
pub proof fn law_first_bad_root_is_told(roots: Seq<SubtreeRoot>, i: int)
    ensures
        wit::first_bad_root(roots, i) <==> 0 <= i < roots.len() && !canonical(roots[i].root_hash@)
            && forall|j: int| 0 <= j < i ==> canonical((#[trigger] roots[j]).root_hash@),
{
    if 0 <= i < roots.len() {
        if forall|j: int| 0 <= j < i ==> canonical((#[trigger] roots[j]).root_hash@) {
            assert forall|j: int| 0 <= j < i implies #[trigger] wit::root_valid(roots[j]) by {}
        }
        if forall|j: int| 0 <= j < i ==> #[trigger] wit::root_valid(roots[j]) {
            assert forall|j: int| 0 <= j < i implies canonical(
                (#[trigger] roots[j]).root_hash@,
            ) by {
                assert(wit::root_valid(roots[j]));
            }
        }
    }
}

/// A shared sync starts no later than either store needs, at a height that one of
/// them needs, and only where a block is missing up to the target.
pub proof fn law_shared_sync_misses_nothing(
    nullifier_from: u64,
    witness_from: u64,
    target_height: u64,
    r: Option<u64>,
)
    requires
        call_ensures(shared_start, (nullifier_from, witness_from, target_height), r),
    ensures
        r is None <==> target_height < nullifier_from && target_height < witness_from,
        r matches Some(height) ==> height <= nullifier_from && height <= witness_from && (height
            == nullifier_from || height == witness_from),
{
}

/// A store goes on right after the last block that it holds, or at activation;
/// and the confirmed height lies a depth below the tip.
pub proof fn law_resumes_after_what_is_held(
    latest: Option<u64>,
    network: ZcashNetwork,
    from: u64,
    tip: u64,
    depth: u64,
    target: u64,
)
    requires
        call_ensures(resume_from, (latest, network), from),
        call_ensures(confirmed_height, (tip, depth), target),
    ensures
        latest matches Some(height) ==> from == height + 1,
        latest is None ==> from == activation_height(network),
        depth <= tip ==> target + depth == tip,
        tip < depth ==> target == 0,
{
}

} // verus!
