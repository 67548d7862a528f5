//! The witness server: where the tree begins, ingestion, and rebuilding.

use crate::bytes::{exact_32, Hash32};
use crate::ingest::commitment::{extract_commitments, ironwood_prior_tree_size, ParseError};
use crate::ingest::dataset::DatasetError;
use crate::ingest::ironwood::{nu6_3_activation_height, EndpointError};
use crate::ingest::pipeline::{BlockEvent, PipelineError, ValidatedBlock};
use crate::ingest::proto::{CompactBlock, SubtreeRoot};
use crate::protocol::{
    ErrorText, PirEngine, ServerPhase, YpirScenario, ZcashNetwork, DATASET_VERSION, IRONWOOD_POOL,
};
use crate::text::{around_number, decimal, join};
use crate::witness::frontier::{effective_window_shard_limit, WitnessMetadata};
use crate::witness::merkle::is_canonical;
use crate::witness::tree::CommitmentTreeDb;
use crate::witness::types::BroadcastData;
use vstd::prelude::*;
#[allow(unused_imports)]
use crate::bytes::array_of;
#[allow(unused_imports)]
use crate::ingest::commitment::{commitment_error, commitments_valid, first_bad_commitment};
#[allow(unused_imports)]
use crate::ingest::ironwood::activation_height;
#[allow(unused_imports)]
use crate::ingest::proto::{ironwood_actions, CompactOrchardAction};
#[allow(unused_imports)]
use crate::text::decimal_text;
#[allow(unused_imports)]
use crate::witness::merkle::{canonical, canonical_all};
#[allow(unused_imports)]
use crate::witness::tree::{
    appended, database, describes, populated, rolled_back_to, size_of, window_count, window_start,
    TreeView,
};

verus! {

/// Why the witness server stopped. Failures of calls are kept in words.
#[derive(Debug)]
pub enum ServerError {
    Pipeline(PipelineError),
    SnapshotIo(String),
    PirSetup(String),
    Io(String),
    Client(String),
    Join(String),
    Endpoint(EndpointError),
    Parse(ParseError),
    Dataset(DatasetError),
    MissingCompletingBlock { height: u64 },
    InvalidSubtreeRoot { index: usize },
    InvalidBlockHash { height: u64 },
    WrongCompletingBlockHeight { actual: u64, expected: u64 },
    TreeSizeMismatch { context: &'static str, height: u64, expected: u64, actual: u64 },
}

impl ServerError {
    /// The text shown to a person.
    pub open spec fn text(&self) -> Seq<char> {
        match self {
            ServerError::Pipeline(error) => error.text(),
            ServerError::SnapshotIo(reason) => "snapshot io error: "@ + reason@,
            ServerError::PirSetup(reason) => "pir setup failed: "@ + reason@,
            ServerError::Io(reason) => "io error: "@ + reason@,
            ServerError::Client(reason) => reason@,
            ServerError::Join(reason) => "ingest task failed: "@ + reason@,
            ServerError::Endpoint(error) => error.text(),
            ServerError::Parse(error) => error.text(),
            ServerError::Dataset(error) => error.text(),
            ServerError::MissingCompletingBlock { height } => {
                "lightwalletd returned no block at height "@ + decimal_text(*height as nat)
                    + " while bootstrapping windowed sync"@
            },
            ServerError::InvalidSubtreeRoot { index } => {
                "malformed Ironwood subtree root at index "@ + decimal_text(*index as nat)
            },
            ServerError::InvalidBlockHash { height } => "malformed block hash at height "@
                + decimal_text(*height as nat),
            ServerError::WrongCompletingBlockHeight { actual, expected } => {
                "lightwalletd returned height "@ + decimal_text(*actual as nat)
                    + " while requesting completing block "@ + decimal_text(*expected as nat)
            },
            ServerError::TreeSizeMismatch { context, height, expected, actual } => context@
                + " tree size mismatch before appending block "@ + decimal_text(*height as nat)
                + ": expected "@ + decimal_text(*expected as nat) + ", got "@ + decimal_text(
                *actual as nat,
            ),
        }
    }

    /// The text shown to a person.
    pub fn message(&self) -> (s: String)
        ensures
            s@ == self.text(),
    {
        match self {
            ServerError::Pipeline(error) => error.message(),
            ServerError::SnapshotIo(reason) => join("snapshot io error: ", reason.as_str()),
            ServerError::PirSetup(reason) => join("pir setup failed: ", reason.as_str()),
            ServerError::Io(reason) => join("io error: ", reason.as_str()),
            ServerError::Client(reason) => reason.clone(),
            ServerError::Join(reason) => join("ingest task failed: ", reason.as_str()),
            ServerError::Endpoint(error) => error.message(),
            ServerError::Parse(error) => error.message(),
            ServerError::Dataset(error) => error.message(),
            ServerError::MissingCompletingBlock { height } => around_number(
                "lightwalletd returned no block at height ",
                *height,
                " while bootstrapping windowed sync",
            ),
            ServerError::InvalidSubtreeRoot { index } => join(
                "malformed Ironwood subtree root at index ",
                decimal(*index as u64).as_str(),
            ),
            ServerError::InvalidBlockHash { height } => join(
                "malformed block hash at height ",
                decimal(*height).as_str(),
            ),
            ServerError::WrongCompletingBlockHeight { actual, expected } => {
                let mut s = around_number(
                    "lightwalletd returned height ",
                    *actual,
                    " while requesting completing block ",
                );
                s.append(decimal(*expected).as_str());
                s
            },
            ServerError::TreeSizeMismatch { context, height, expected, actual } => {
                let mut s = join(context, " tree size mismatch before appending block ");
                s.append(decimal(*height).as_str());
                s.append(": expected ");
                s.append(decimal(*expected).as_str());
                s.append(", got ");
                s.append(decimal(*actual).as_str());
                s
            },
        }
    }
}

/// Live PIR state: engine state, broadcast data and metadata.
pub struct PirState<P: PirEngine> {
    pub engine_state: P::ServerState,
    pub broadcast: BroadcastData,
    pub metadata: WitnessMetadata,
}

/// Whether metadata describes a tree.
pub open spec fn metadata_describes(
    metadata: WitnessMetadata,
    v: TreeView,
    anchor_height: u64,
    network: ZcashNetwork,
) -> bool {
    &&& metadata.zcash_network == network
    &&& metadata.commitment_pool@ == IRONWOOD_POOL@
    &&& metadata.dataset_version == 2
    &&& metadata.anchor_height == anchor_height
    &&& metadata.tree_size == size_of(v)
    &&& metadata.window_start_shard == window_start(v)
    &&& metadata.window_shard_count == window_count(v)
    &&& metadata.populated_shards == populated(v)
    &&& metadata.phase == ServerPhase::Serving
}

/// Whether a rebuild over a tree came to `r`, given what setting up came to.
pub open spec fn rebuilt_as<P: PirEngine>(
    outcome: Result<P::ServerState, P::Error>,
    v: TreeView,
    anchor_height: u64,
    network: ZcashNetwork,
    r: Result<PirState<P>, ServerError>,
) -> bool {
    match outcome {
        Ok(engine_state) => {
            &&& r matches Ok(state)
            &&& state.engine_state == engine_state
            &&& describes(v, state.broadcast, anchor_height)
            &&& metadata_describes(state.metadata, v, anchor_height, network)
        },
        Err(error) => r matches Err(ServerError::PirSetup(reason)) && call_ensures(
            P::Error::message,
            (&error,),
            reason,
        ),
    }
}

/// What the server says of a tree.
pub fn metadata_for(
    tree: &CommitmentTreeDb,
    anchor_height: u64,
    zcash_network: ZcashNetwork,
) -> (metadata: WitnessMetadata)
    requires
        tree.wf(),
    ensures
        metadata_describes(metadata, tree@, anchor_height, zcash_network),
{
    WitnessMetadata {
        zcash_network,
        commitment_pool: IRONWOOD_POOL.to_owned(),
        dataset_version: DATASET_VERSION,
        anchor_height,
        tree_size: tree.tree_size(),
        window_start_shard: tree.window_start_shard(),
        window_shard_count: tree.window_shard_count(),
        populated_shards: tree.populated_shards(),
        phase: ServerPhase::Serving,
    }
}

/// The live state for a tree, once setting up has come to `outcome`.
pub fn finish_rebuild<P: PirEngine>(
    outcome: Result<P::ServerState, P::Error>,
    tree: &CommitmentTreeDb,
    broadcast: BroadcastData,
    anchor_height: u64,
    zcash_network: ZcashNetwork,
) -> (r: Result<PirState<P>, ServerError>)
    requires
        tree.wf(),
        describes(tree@, broadcast, anchor_height),
    ensures
        rebuilt_as::<P>(outcome, tree@, anchor_height, zcash_network, r),
{
    match outcome {
        Ok(engine_state) => Ok(
            PirState {
                engine_state,
                broadcast,
                metadata: metadata_for(tree, anchor_height, zcash_network),
            },
        ),
        Err(error) => Err(ServerError::PirSetup(error.message())),
    }
}

/// Build PIR server state from the current commitment tree.
pub fn rebuild_pir<P: PirEngine>(
    engine: &P,
    tree: &mut CommitmentTreeDb,
    scenario: &YpirScenario,
    anchor_height: u64,
    zcash_network: ZcashNetwork,
) -> (r: Result<PirState<P>, ServerError>)
    requires
        old(tree).wf(),
    ensures
        final(tree).wf(),
        final(tree)@ == old(tree)@,
        exists|db_bytes: &[u8], outcome: Result<P::ServerState, P::Error>|
            db_bytes@ == database(old(tree)@) && #[trigger] call_ensures(
                P::setup,
                (engine, db_bytes, scenario),
                outcome,
            ) && rebuilt_as::<P>(outcome, old(tree)@, anchor_height, zcash_network, r),
{
    let (db_bytes, broadcast) = tree.build_pir_db_and_broadcast(anchor_height);
    let outcome = engine.setup(db_bytes.as_slice(), scenario);
    finish_rebuild(outcome, tree, broadcast, anchor_height, zcash_network)
}

/// The subtree roots completed up to a height.
pub open spec fn completed(roots: Seq<SubtreeRoot>, target_height: u64) -> Seq<SubtreeRoot> {
    roots.filter(|root: SubtreeRoot| root.completing_block_height <= target_height)
}

/// Whether a subtree root is a canonical hash.
pub open spec fn root_valid(root: SubtreeRoot) -> bool {
    canonical(root.root_hash@)
}

/// Whether `i` is the first of `roots` that is not a canonical hash.
pub open spec fn first_bad_root(roots: Seq<SubtreeRoot>, i: int) -> bool {
    &&& 0 <= i < roots.len()
    &&& !root_valid(roots[i])
    &&& forall|j: int| 0 <= j < i ==> #[trigger] root_valid(roots[j])
}

/// The number of shards to keep when `limit` are asked for.
pub open spec fn shard_limit(limit: usize) -> int {
    if limit < 1 {
        1
    } else if limit > 16 {
        16
    } else {
        limit as int
    }
}

/// Where a new tree begins.
pub enum TreeStart {
    /// After the given shards; the block that completed the last of them may
    /// hold the first leaves.
    Window { prefetched: Vec<Hash32>, completing_height: u64 },
    /// At activation.
    Activation,
}

/// Keeps the roots completed up to a height.
fn retain_completed(roots: Vec<SubtreeRoot>, target_height: u64) -> (kept: Vec<SubtreeRoot>)
    ensures
        kept@ == completed(roots@, target_height),
{
    let ghost all = roots@;
    let mut kept: Vec<SubtreeRoot> = Vec::new();
    let ghost keep = |root: SubtreeRoot| root.completing_block_height <= target_height;
    assert(all.take(0).filter(keep) =~= Seq::empty()) by {
        reveal(Seq::filter);
    }
    for root in iter: roots
        invariant
            iter.seq() == all,
            keep == (|root: SubtreeRoot| root.completing_block_height <= target_height),
            kept@ == all.take(iter.index() as int).filter(keep),
    {
        proof {
            let i = iter.index() as int;
            assert(all.take(i + 1).drop_last() =~= all.take(i));
            assert(all.take(i + 1).last() == all[i]);
            reveal(Seq::filter);
        }
        if root.completing_block_height <= target_height {
            kept.push(root);
        }
    }
    assert(all.take(all.len() as int) =~= all);
    kept
}

/// Decides where a new tree begins: with enough completed shards, so that the
/// last but one of the limit are held in full, else at activation.
pub fn plan_tree(subtree_roots: Vec<SubtreeRoot>, target_height: u64, window_shard_limit: usize) -> (r:
    Result<TreeStart, ServerError>)
    ensures
        ({
            let done = completed(subtree_roots@, target_height);
            let limit = shard_limit(window_shard_limit);
            let start = done.len() - (limit - 1);
            if done.len() < limit {
                r matches Ok(TreeStart::Activation)
            } else if exists|i: int| #[trigger] first_bad_root(done.take(start), i) {
                r matches Err(ServerError::InvalidSubtreeRoot { index }) && first_bad_root(
                    done.take(start),
                    index as int,
                )
            } else {
                &&& r matches Ok(TreeStart::Window { prefetched, completing_height })
                &&& prefetched@.len() == start
                &&& start > 0
                &&& canonical_all(prefetched@)
                &&& forall|i: int|
                    0 <= i < start ==> (#[trigger] prefetched@[i])@ == done[i].root_hash@
                &&& completing_height == done[start - 1].completing_block_height
                &&& completing_height <= target_height
            }
        }),
{
    let limit: usize = effective_window_shard_limit(window_shard_limit);
    let roots = retain_completed(subtree_roots, target_height);
    let n: usize = roots.len();
    if n < limit {
        return Ok(TreeStart::Activation);
    }
    let start: usize = n - (limit - 1);
    let ghost prefix = roots@.take(start as int);
    let mut prefetched: Vec<Hash32> = Vec::with_capacity(start);
    let mut index: usize = 0;
    while index < start
        invariant
            index <= start <= roots@.len(),
            prefix == roots@.take(start as int),
            prefetched@.len() == index,
            canonical_all(prefetched@),
            forall|i: int| 0 <= i < index ==> #[trigger] root_valid(prefix[i]),
            forall|i: int|
                0 <= i < index ==> (#[trigger] prefetched@[i])@ == roots@[i].root_hash@,
            roots@ == completed(subtree_roots@, target_height),
            n == roots@.len(),
            n >= limit,
            limit == shard_limit(window_shard_limit),
            start == n - (limit - 1),
        decreases start - index,
    {
        assert(prefix[index as int] == roots@[index as int]);
        match exact_32(roots[index].root_hash.as_slice()) {
            Some(root) => {
                if !is_canonical(&root) {
                    assert(first_bad_root(prefix, index as int));
                    return Err(ServerError::InvalidSubtreeRoot { index });
                }
                prefetched.push(root);
            },
            None => {
                assert(first_bad_root(prefix, index as int));
                return Err(ServerError::InvalidSubtreeRoot { index });
            },
        }
        index += 1;
    }
    proof {
        assert forall|i: int| !(#[trigger] first_bad_root(prefix, i)) by {
            if 0 <= i < prefix.len() {
                assert(root_valid(prefix[i]));
            }
        }
        lemma_completed_low(subtree_roots@, target_height, start - 1);
    }
    let completing_height: u64 = roots[start - 1].completing_block_height;
    Ok(TreeStart::Window { prefetched, completing_height })
}

proof fn lemma_completed_low(roots: Seq<SubtreeRoot>, target_height: u64, i: int)
    requires
        0 <= i < completed(roots, target_height).len(),
    ensures
        completed(roots, target_height)[i].completing_block_height <= target_height,
{
    let keep = |root: SubtreeRoot| root.completing_block_height <= target_height;
    roots.lemma_filter_pred(keep, i);
}

/// The suffix of commitments whose positions are at or past an offset.
pub open spec fn past_offset(commitments: Seq<Hash32>, end_tree_size: u64, leaf_offset: u64) -> Seq<
    Hash32,
> {
    if end_tree_size <= leaf_offset {
        Seq::empty()
    } else if end_tree_size - leaf_offset >= commitments.len() {
        commitments
    } else {
        commitments.skip(commitments.len() - (end_tree_size - leaf_offset))
    }
}

/// The commitments that land past `leaf_offset` in a tree that ends with them
/// at `end_tree_size`.
pub fn spillover_from_commitments(
    commitments: &[Hash32],
    end_tree_size: u64,
    leaf_offset: u64,
) -> (spillover: Vec<Hash32>)
    ensures
        spillover@ == past_offset(commitments@, end_tree_size, leaf_offset),
{
    if end_tree_size <= leaf_offset {
        return Vec::new();
    }
    let n: usize = commitments.len();
    let count: u64 = end_tree_size - leaf_offset;
    let skip: usize = if count >= n as u64 {
        0
    } else {
        n - count as usize
    };
    let part = vstd::slice::slice_subrange(commitments, skip, n);
    let spillover = vstd::slice::slice_to_vec(part);
    assert(spillover@ =~= past_offset(commitments@, end_tree_size, leaf_offset));
    spillover
}

/// The tree size that a block tells, or nothing where it tells none.
pub open spec fn told_size(block: CompactBlock) -> u64 {
    match block.chain_metadata {
        Some(metadata) => metadata.ironwood_commitment_tree_size as u64,
        None => 0,
    }
}

/// The commitments of a block, when all are well formed.
pub open spec fn block_commitments(block: CompactBlock) -> Seq<Hash32> {
    ironwood_actions(block.vtx@).map_values(|action: CompactOrchardAction| array_of(action.cmx@))
}

/// Extracted commitments are the block's.
pub proof fn lemma_block_commitments(block: CompactBlock, commitments: Seq<Hash32>)
    requires
        commitments.len() == ironwood_actions(block.vtx@).len(),
        forall|i: int|
            0 <= i < commitments.len() ==> (#[trigger] commitments[i])@ == ironwood_actions(
                block.vtx@,
            )[i].cmx@,
    ensures
        commitments == block_commitments(block),
{
    assert forall|i: int| 0 <= i < commitments.len() implies commitments[i] == block_commitments(
        block,
    )[i] by {
        crate::bytes::lemma_array_of(commitments[i], ironwood_actions(block.vtx@)[i].cmx@);
    }
    assert(commitments =~= block_commitments(block));
}

/// Whether an error is the one for a block's first malformed commitment.
pub open spec fn malformed_commitment(block: CompactBlock, error: ServerError) -> bool {
    let actions = ironwood_actions(block.vtx@);
    exists|i: int| #[trigger]
        first_bad_commitment(actions, i) && (error matches ServerError::Parse(inner)
            && commitment_error(block.height, actions[i].cmx@, inner))
}

/// The commitments of a shard-completing block that land past `leaf_offset`.
///
/// The tree size that the block tells is the cumulative size after it, so it
/// says how many of the block's commitments lie in the window.
pub fn completing_block_spillover(block: &CompactBlock, leaf_offset: u64) -> (r: Result<
    Vec<Hash32>,
    ServerError,
>)
    ensures
        r is Ok <==> commitments_valid(ironwood_actions(block.vtx@)),
        r matches Ok(spillover) ==> {
            &&& spillover@ == past_offset(block_commitments(*block), told_size(*block), leaf_offset)
            &&& canonical_all(spillover@)
            &&& spillover@.len() <= block_commitments(*block).len()
            &&& spillover@.len() > 0 ==> leaf_offset + spillover@.len() <= told_size(*block)
        },
        r matches Err(error) ==> malformed_commitment(*block, error),
{
    let all = match extract_commitments(block) {
        Ok(all) => all,
        Err(error) => return Err(ServerError::Parse(error)),
    };
    proof {
        lemma_block_commitments(*block, all@);
    }
    let end_tree_size: u64 = match &block.chain_metadata {
        Some(metadata) => metadata.ironwood_commitment_tree_size as u64,
        None => 0,
    };
    let spillover = spillover_from_commitments(all.as_slice(), end_tree_size, leaf_offset);
    proof {
        let from = all@.len() - spillover@.len();
        assert forall|i: int| 0 <= i < spillover@.len() implies canonical(
            (#[trigger] spillover@[i])@,
        ) by {
            assert(spillover@[i] == all@[from + i]);
        }
    }
    Ok(spillover)
}

/// Whether a block can open the window after `shards` given shards.
pub open spec fn opens_window(blocks: Seq<CompactBlock>, completing_height: u64) -> bool {
    &&& blocks.len() > 0
    &&& blocks[0].height == completing_height
    &&& commitments_valid(ironwood_actions(blocks[0].vtx@))
    &&& blocks[0].hash@.len() == 32
}

/// The tree that begins after the given shards, with the leaves that the
/// block completing the last of them already put past it.
///
/// If those leaves were skipped, every later position would be shifted.
pub fn open_window(
    prefetched: Vec<Hash32>,
    completing_height: u64,
    completing_blocks: &Vec<CompactBlock>,
) -> (r: Result<CommitmentTreeDb, ServerError>)
    requires
        prefetched@.len() <= 65_536,
        canonical_all(prefetched@),
    ensures
        r is Ok <==> opens_window(completing_blocks@, completing_height),
        r matches Ok(tree) ==> {
            let block = completing_blocks@[0];
            let offset = (65_536 * prefetched@.len()) as u64;
            &&& tree.wf()
            &&& tree@.offset == offset
            &&& tree@.prefetched == prefetched@
            &&& tree@.leaves == past_offset(block_commitments(block), told_size(block), offset)
            &&& tree@.blocks.len() == 1
            &&& tree@.blocks[0].height == completing_height
            &&& tree@.blocks[0].hash@ == block.hash@
            &&& tree@.blocks[0].leaves_before == 0
        },
        r matches Err(error) ==> {
            if completing_blocks@.len() == 0 {
                error == (ServerError::MissingCompletingBlock { height: completing_height })
            } else if completing_blocks@[0].height != completing_height {
                error == (ServerError::WrongCompletingBlockHeight {
                    actual: completing_blocks@[0].height,
                    expected: completing_height,
                })
            } else if !commitments_valid(ironwood_actions(completing_blocks@[0].vtx@)) {
                malformed_commitment(completing_blocks@[0], error)
            } else {
                error == (ServerError::InvalidBlockHash { height: completing_height })
            }
        },
{
    let leaf_offset: u64 = prefetched.len() as u64 * 65_536;
    let mut tree = CommitmentTreeDb::with_offset(leaf_offset, prefetched);
    if completing_blocks.len() == 0 {
        return Err(ServerError::MissingCompletingBlock { height: completing_height });
    }
    let block = &completing_blocks[0];
    if block.height != completing_height {
        return Err(
            ServerError::WrongCompletingBlockHeight {
                actual: block.height,
                expected: completing_height,
            },
        );
    }
    let spillover = match completing_block_spillover(block, leaf_offset) {
        Ok(spillover) => spillover,
        Err(error) => return Err(error),
    };
    let hash = match exact_32(block.hash.as_slice()) {
        Some(hash) => hash,
        None => return Err(ServerError::InvalidBlockHash { height: completing_height }),
    };
    let ghost before = tree@;
    tree.append_commitments(completing_height, hash, spillover.as_slice());
    assert(tree@.leaves =~= spillover@);
    Ok(tree)
}

/// The height from which a new tree is synced.
pub fn sync_start(start: &TreeStart, zcash_network: ZcashNetwork) -> (height: u64)
    requires
        start matches TreeStart::Window { completing_height, .. } ==> completing_height < u64::MAX,
    ensures
        height == (match *start {
            TreeStart::Window { completing_height, .. } => completing_height + 1,
            TreeStart::Activation => activation_height(zcash_network) as int,
        }),
{
    match start {
        TreeStart::Window { completing_height, .. } => *completing_height + 1,
        TreeStart::Activation => nu6_3_activation_height(zcash_network),
    }
}

/// Checks that a tree has the size that a block's metadata expects before it.
pub fn validate_prior_tree_size(
    tree: &CommitmentTreeDb,
    height: u64,
    prior_tree_size: Option<u32>,
    context: &'static str,
) -> (r: Result<(), ServerError>)
    requires
        tree.wf(),
    ensures
        r is Ok <==> (prior_tree_size matches Some(expected) ==> size_of(tree@) == expected),
        r matches Err(error) ==> prior_tree_size is Some && error == (
        ServerError::TreeSizeMismatch {
            context,
            height,
            expected: prior_tree_size->0 as u64,
            actual: size_of(tree@) as u64,
        }),
{
    let expected: u64 = match prior_tree_size {
        Some(expected) => expected as u64,
        None => return Ok(()),
    };
    let actual: u64 = tree.tree_size();
    if actual == expected {
        return Ok(());
    }
    Err(ServerError::TreeSizeMismatch { context, height, expected, actual })
}

/// The size of the tree before a block, as its metadata tells it.
pub open spec fn told_prior(block: CompactBlock) -> int {
    told_size(block) - block_commitments(block).len()
}

/// Whether a block can be appended to a tree: its commitments are well formed,
/// it tells a tree size, and the size before it is the tree's.
pub open spec fn block_appendable(v: TreeView, block: CompactBlock) -> bool {
    &&& commitments_valid(ironwood_actions(block.vtx@))
    &&& block.chain_metadata is Some
    &&& told_prior(block) == size_of(v)
}

/// The error for a block that cannot be appended.
pub open spec fn append_refused(
    v: TreeView,
    block: CompactBlock,
    context: &'static str,
    error: ServerError,
) -> bool {
    let n = ironwood_actions(block.vtx@).len();
    if !commitments_valid(ironwood_actions(block.vtx@)) {
        malformed_commitment(block, error)
    } else if block.chain_metadata is None {
        error == ServerError::Parse(ParseError::MissingTreeSize { height: block.height })
    } else if told_prior(block) < 0 {
        error == ServerError::Parse(
            ParseError::InvalidTreeSize {
                height: block.height,
                tree_size: told_size(block) as u32,
                commitments: n as usize,
            },
        )
    } else {
        error == ServerError::TreeSizeMismatch {
            context,
            height: block.height,
            expected: told_prior(block) as u64,
            actual: size_of(v) as u64,
        }
    }
}

/// Reads a block's commitments and checks them against a tree.
pub fn check_block(tree: &CommitmentTreeDb, block: &CompactBlock, context: &'static str) -> (r:
    Result<Vec<Hash32>, ServerError>)
    requires
        tree.wf(),
        ironwood_actions(block.vtx@).len() <= u32::MAX,
    ensures
        r is Ok <==> block_appendable(tree@, *block),
        r matches Ok(commitments) ==> commitments@ == block_commitments(*block) && canonical_all(
            commitments@,
        ),
        r matches Err(error) ==> append_refused(tree@, *block, context, error),
{
    let commitments = match extract_commitments(block) {
        Ok(commitments) => commitments,
        Err(error) => return Err(ServerError::Parse(error)),
    };
    proof {
        lemma_block_commitments(*block, commitments@);
    }
    let prior: u32 = match ironwood_prior_tree_size(block, commitments.len()) {
        Ok(prior) => prior,
        Err(error) => return Err(ServerError::Parse(error)),
    };
    match validate_prior_tree_size(tree, block.height, Some(prior), context) {
        Ok(()) => Ok(commitments),
        Err(error) => Err(error),
    }
}

/// The tree once a block has been appended.
pub open spec fn block_appended(v: TreeView, block: ValidatedBlock) -> TreeView {
    appended(v, block.block.height, block.hash, block_commitments(block.block))
}

/// Appends a block's commitments, wholly or not at all.
pub fn append_block(
    tree: &mut CommitmentTreeDb,
    block: &ValidatedBlock,
    context: &'static str,
) -> (r: Result<usize, ServerError>)
    requires
        old(tree).wf(),
        ironwood_actions(block.block.vtx@).len() <= u32::MAX,
        old(tree)@.leaves.len() + ironwood_actions(block.block.vtx@).len() <= usize::MAX,
    ensures
        final(tree).wf(),
        r is Ok <==> block_appendable(old(tree)@, block.block),
        r matches Ok(n) ==> final(tree)@ == block_appended(old(tree)@, *block) && n
            == block_commitments(block.block).len(),
        r matches Err(error) ==> final(tree)@ == old(tree)@ && append_refused(
            old(tree)@,
            block.block,
            context,
            error,
        ),
{
    let commitments = match check_block(tree, &block.block, context) {
        Ok(commitments) => commitments,
        Err(error) => return Err(error),
    };
    tree.append_commitments(block.height(), block.hash, commitments.as_slice());
    Ok(commitments.len())
}

/// Applies what happened to the confirmed chain.
pub fn apply_event(tree: &mut CommitmentTreeDb, event: &BlockEvent) -> (r: Result<(), ServerError>)
    requires
        old(tree).wf(),
        event matches BlockEvent::NewBlock(block) ==> ironwood_actions(block.block.vtx@).len()
            <= u32::MAX && old(tree)@.leaves.len() + ironwood_actions(block.block.vtx@).len()
            <= usize::MAX,
    ensures
        final(tree).wf(),
        match *event {
            BlockEvent::NewBlock(block) => {
                &&& r is Ok <==> block_appendable(old(tree)@, block.block)
                &&& r is Ok ==> final(tree)@ == block_appended(old(tree)@, block)
                &&& r matches Err(error) ==> final(tree)@ == old(tree)@ && append_refused(
                    old(tree)@,
                    block.block,
                    "follow mode",
                    error,
                )
            },
            BlockEvent::Reorg { rollback_to } => r is Ok && final(tree)@ == rolled_back_to(
                old(tree)@,
                rollback_to,
            ),
        },
{
    match event {
        BlockEvent::NewBlock(block) => match append_block(tree, block, "follow mode") {
            Ok(_) => Ok(()),
            Err(error) => Err(error),
        },
        BlockEvent::Reorg { rollback_to } => {
            tree.rollback_to(*rollback_to);
            Ok(())
        },
    }
}

/// The height at which a tree is anchored: that of its last block.
pub fn anchor_height(tree: &CommitmentTreeDb) -> (height: u64)
    ensures
        height == (if tree@.blocks.len() == 0 {
            0
        } else {
            tree@.blocks.last().height
        }),
{
    match tree.latest_height() {
        Some(height) => height,
        None => 0,
    }
}

} // verus!
