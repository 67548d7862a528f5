//! What ranges, syncs and forks come to, told without the functions that
//! decide them.

use super::dataset::{Artifact, DatasetMarker};
use super::follow::{BlockSync, FollowerView, Known};
use super::pipeline::ValidatedBlock;
use super::proto::{CompactBlock, CompactOrchardAction, CompactTx};
use crate::bytes::Hash32;
use vstd::prelude::*;
#[allow(unused_imports)]
use super::commitment::{
    commitments_valid, extract_commitments, first_bad_commitment, law_no_commitment_is_lost,
    prior_fits, ParseError,
};
#[allow(unused_imports)]
use super::dataset::{first_existing, names_ironwood};
#[allow(unused_imports)]
use super::follow::{
    all_remembered, batch_accepted, batch_end, beyond_window, confirmed, consecutive, cut_to,
    first_tracked, is_fork, poll_fits, still_known, Poll,
};
#[allow(unused_imports)]
use super::ironwood::{
    extract_ironwood_nullifiers, first_bad_nullifier, law_no_nullifier_is_lost, nullifiers_valid,
    IronwoodError,
};
#[allow(unused_imports)]
use super::pipeline::{
    all_fit_range, block_fits, first_misfit, linked_run, misfit, range_refused, validated_from,
    PipelineError,
};
#[allow(unused_imports)]
use crate::witness::merkle::canonical;

verus! {

/// A range is accepted exactly when its blocks have consecutive heights from the
/// first on, hashes of 32 bytes, and each names the whole hash of the block
/// before it, the first one that of the block known before the range.
pub proof fn law_range_is_a_chain(blocks: Seq<CompactBlock>, start: u64, before: Option<Hash32>)
    ensures
        all_fit_range(blocks, start, before) <==> {
            &&& forall|i: int|
                0 <= i < blocks.len() ==> (#[trigger] blocks[i]).height == start + i
                    && blocks[i].hash@.len() == 32 && blocks[i].prev_hash@.len() == 32
            &&& forall|i: int, j: int|
                0 <= i && j == i + 1 && j < blocks.len() ==> (#[trigger] blocks[j]).prev_hash@ == (
                #[trigger] blocks[i]).hash@
            &&& blocks.len() > 0 && before is Some ==> blocks[0].prev_hash@ == before->0@
        },
{
    if all_fit_range(blocks, start, before) {
        assert forall|i: int| 0 <= i < blocks.len() implies (#[trigger] blocks[i]).height == start
            + i && blocks[i].hash@.len() == 32 && blocks[i].prev_hash@.len() == 32 by {
            assert(block_fits(blocks, i, start, before));
        }
        assert forall|i: int, j: int| 0 <= i && j == i + 1 && j < blocks.len() implies (
        #[trigger] blocks[j]).prev_hash@ == (#[trigger] blocks[i]).hash@ by {
            assert(block_fits(blocks, j, start, before));
        }
        if blocks.len() > 0 {
            assert(block_fits(blocks, 0, start, before));
        }
    } else {
        let i = choose|i: int| 0 <= i < blocks.len() && !block_fits(blocks, i, start, before);
        let (block, prior) = (blocks[i], blocks[i - 1]);
        if block.height == start + i && block.hash@.len() == 32 && block.prev_hash@.len() == 32 {
            assert(i > 0 ==> block.prev_hash@ != prior.hash@);
        }
    }
}

/// What is handed on of an accepted range are its blocks, all of them and in
/// order, with their own hashes.
pub proof fn law_range_is_handed_on_whole(
    blocks: Seq<CompactBlock>,
    validated: Seq<ValidatedBlock>,
    start: u64,
    before: Option<Hash32>,
)
    requires
        all_fit_range(blocks, start, before),
        validated_from(validated, blocks),
        linked_run(validated, start as int, before),
    ensures
        validated.map_values(|block: ValidatedBlock| block.block) == blocks,
        forall|i: int|
            0 <= i < validated.len() ==> (#[trigger] validated[i]).block.height == start + i
                && validated[i].hash@ == validated[i].block.hash@ && validated[i].prev_hash@
                == validated[i].block.prev_hash@,
        forall|i: int, j: int|
            0 <= i && j == i + 1 && j < validated.len() ==> (#[trigger] validated[j]).prev_hash == (
            #[trigger] validated[i]).hash,
        validated.len() > 0 && before is Some ==> validated[0].prev_hash == before->0,
{
    assert(validated.map_values(|block: ValidatedBlock| block.block) =~= blocks);
}

/// A batch begins where the sync stands, goes no further than its end, has at
/// most 10,000 blocks, and has fewer only where the sync ends with it.
pub proof fn law_batches_are_full(current: u64, to: u64)
    requires
        current <= to,
    ensures
        current <= batch_end(current, to) <= to,
        batch_end(current, to) - current + 1 <= 10_000,
        batch_end(current, to) < to ==> batch_end(current, to) - current + 1 == 10_000,
{
}

/// A batch is accepted exactly when it has as many blocks as are wanted and they
/// are a chain from where the sync stands.
pub proof fn law_batch_is_the_next_chain(sync: BlockSync, blocks: Seq<CompactBlock>)
    ensures
        batch_accepted(sync, blocks) <==> {
            &&& blocks.len() == batch_end(sync.current, sync.to) + 1 - sync.current
            &&& forall|i: int|
                0 <= i < blocks.len() ==> (#[trigger] blocks[i]).height == sync.current + i
                    && blocks[i].hash@.len() == 32 && blocks[i].prev_hash@.len() == 32
            &&& forall|i: int, j: int|
                0 <= i && j == i + 1 && j < blocks.len() ==> (#[trigger] blocks[j]).prev_hash@ == (
                #[trigger] blocks[i]).hash@
            &&& blocks.len() > 0 && sync.expected_prev is Some ==> blocks[0].prev_hash@
                == sync.expected_prev->0@
        },
{
    law_range_is_a_chain(blocks, sync.current, sync.expected_prev);
}

/// The confirmed height lies the confirmation depth below the tip, or at the
/// beginning where the chain is not that long yet.
pub proof fn law_confirmed_is_depth_below_tip(v: FollowerView, tip: u64)
    ensures
        v.depth <= tip ==> confirmed(v, tip) + v.depth == tip,
        tip < v.depth ==> confirmed(v, tip) == 0,
{
}

/// A poll looks again at everything known that can still be confirmed: from the
/// oldest block known to the current one, or to the confirmed height below it.
pub proof fn law_poll_covers_what_is_known(v: FollowerView, poll: Poll, h: u64)
    requires
        poll_fits(v, poll),
        forall|k: int| 0 <= k < v.history.len() ==> (#[trigger] v.history[k]).0 == v.history[0].0 + k,
        v.history.len() > 0 ==> v.history.last().0 == v.current,
    ensures
        v.history.len() > 0 ==> (poll.from <= h <= poll.to <==> v.history[0].0 <= h <= v.current
            && h <= poll.target),
        v.history.len() == 0 ==> poll.from == v.current && poll.to == v.current && v.current
            <= poll.target,
{
}

/// The blocks that a follower starts from are a window's worth that ends at its
/// start, or, where there are not that many, all but the genesis block.
pub proof fn law_window_is_tracked(start_height: u64, reorg_window: usize)
    ensures
        first_tracked(start_height, reorg_window) <= start_height,
        0 < reorg_window <= start_height ==> start_height - first_tracked(
            start_height,
            reorg_window,
        ) + 1 == reorg_window,
        0 < start_height < reorg_window ==> first_tracked(start_height, reorg_window) == 1,
        reorg_window == 0 || start_height == 0 ==> first_tracked(start_height, reorg_window)
            == start_height,
{
}

/// After blocks have been recorded, the last `depth` of all blocks are known,
/// each under its own height, and no others.
pub proof fn law_last_blocks_are_known(
    history: Seq<Known>,
    depth: nat,
    blocks: Seq<ValidatedBlock>,
)
    requires
        history.len() <= depth,
    ensures
        ({
            let all = history + blocks.map_values(
                |block: ValidatedBlock| (block.block.height, block.hash),
            );
            all_remembered(history, depth, blocks) == (if all.len() > depth {
                all.skip(all.len() - depth)
            } else {
                all
            })
        }),
    decreases blocks.len(),
{
    let seen = |block: ValidatedBlock| (block.block.height, block.hash);
    let all = history + blocks.map_values(seen);
    if blocks.len() == 0 {
        assert(all =~= history);
    } else {
        let less = history + blocks.drop_last().map_values(seen);
        law_last_blocks_are_known(history, depth, blocks.drop_last());
        let before = all_remembered(history, depth, blocks.drop_last());
        assert(all =~= less.push(seen(blocks.last())));
        let longer = before.push(seen(blocks.last()));
        if less.len() > depth {
            assert(longer.drop_first() =~= all.skip(all.len() - depth));
        } else if all.len() > depth {
            assert(longer =~= all);
            assert(longer.drop_first() =~= all.skip(all.len() - depth));
        } else {
            assert(longer =~= all);
        }
    }
}

/// The fork is a block whose whole hash is the one known for its height, and
/// every later block of the overlap has another hash than the one known for its
/// height, or a height for which none is known.
pub proof fn law_fork_is_last_unchanged_block(
    history: Seq<Known>,
    overlap: Seq<CompactBlock>,
    i: int,
)
    requires
        forall|k: int| 0 <= k < history.len() ==> (#[trigger] history[k]).0 == history[0].0 + k,
    ensures
        is_fork(history, overlap, i) <==> {
            &&& 0 <= i < overlap.len()
            &&& exists|k: int|
                0 <= k < history.len() && (#[trigger] history[k]).0 == overlap[i].height
                    && history[k].1@ == overlap[i].hash@
            &&& forall|j: int, k: int|
                i < j < overlap.len() && 0 <= k < history.len() && (#[trigger] history[k]).0 == (
                #[trigger] overlap[j]).height ==> history[k].1@ != overlap[j].hash@
        },
{
    assert forall|j: int| 0 <= j < overlap.len() implies (#[trigger] still_known(
        history,
        overlap,
        j,
    ) <==> exists|k: int|
        0 <= k < history.len() && (#[trigger] history[k]).0 == overlap[j].height && history[k].1@
            == overlap[j].hash@) by {
        if still_known(history, overlap, j) {
            let k = overlap[j].height - history[0].0;
            assert(history[k].0 == overlap[j].height);
        }
    }
    if is_fork(history, overlap, i) {
        assert forall|j: int, k: int|
            i < j < overlap.len() && 0 <= k < history.len() && (#[trigger] history[k]).0 == (
            #[trigger] overlap[j]).height implies history[k].1@ != overlap[j].hash@ by {
            assert(!still_known(history, overlap, j));
        }
    } else if 0 <= i < overlap.len() && still_known(history, overlap, i) {
        let j = choose|j: int| i < j < overlap.len() && #[trigger] still_known(history, overlap, j);
        assert(exists|k: int|
            0 <= k < history.len() && (#[trigger] history[k]).0 == overlap[j].height
                && history[k].1@ == overlap[j].hash@);
        let k = choose|k: int|
            0 <= k < history.len() && (#[trigger] history[k]).0 == overlap[j].height
                && history[k].1@ == overlap[j].hash@;
        assert(overlap[j].height == history[k].0);
    }
}

/// Where the blocks of an overlap from `j` on all have other hashes than those
/// known for their heights, in whatever byte, the fork lies below block `j`.
pub proof fn law_replaced_blocks_are_above_the_fork(
    history: Seq<Known>,
    overlap: Seq<CompactBlock>,
    i: int,
    j: int,
)
    requires
        forall|k: int| 0 <= k < history.len() ==> (#[trigger] history[k]).0 == history[0].0 + k,
        forall|m: int| 0 <= m < overlap.len() ==> (#[trigger] overlap[m]).height == overlap[0].height + m,
        is_fork(history, overlap, i),
        0 <= j < overlap.len(),
        forall|m: int, k: int|
            j <= m < overlap.len() && 0 <= k < history.len() && (#[trigger] history[k]).0 == (
            #[trigger] overlap[m]).height ==> history[k].1@ != overlap[m].hash@,
    ensures
        overlap[i].height < overlap[j].height,
{
    law_fork_is_last_unchanged_block(history, overlap, i);
    let k = choose|k: int|
        0 <= k < history.len() && (#[trigger] history[k]).0 == overlap[i].height && history[k].1@
            == overlap[i].hash@;
    if i >= j {
        assert(history[k].0 == overlap[i].height);
    }
    assert(overlap[i].height == overlap[0].height + i);
    assert(overlap[j].height == overlap[0].height + j);
}

/// What stays known after a rollback are the blocks up to the fork, as they were.
pub proof fn law_rollback_forgets_only_what_is_above(history: Seq<Known>, k: int)
    requires
        forall|m: int| 0 <= m < history.len() ==> (#[trigger] history[m]).0 == history[0].0 + m,
        0 <= k < history.len(),
    ensures
        cut_to(history, history[k].0) == history.take(k + 1),
    decreases history.len(),
{
    let last = history.len() - 1;
    assert(history.last() == history[last]);
    if k == last {
        assert(history.take(k + 1) =~= history);
    } else {
        let less = history.drop_last();
        assert forall|m: int| 0 <= m < less.len() implies (#[trigger] less[m]).0 == less[0].0 + m by {
            assert(less[m] == history[m]);
            assert(less[0] == history[0]);
        }
        assert(less[k] == history[k]);
        law_rollback_forgets_only_what_is_above(less, k);
        assert(less.take(k + 1) =~= history.take(k + 1));
    }
}

/// A range is refused for its first block that does not fit, and for what is
/// wrong with that block; or, where all fit, because it ends elsewhere.
pub proof fn law_refusal_names_the_block(
    blocks: Seq<CompactBlock>,
    start: u64,
    end: int,
    before: Option<Hash32>,
    error: PipelineError,
)
    requires
        range_refused(blocks, start, end, before, error),
        0 <= end <= u64::MAX,
        start + blocks.len() <= u64::MAX,
        !all_fit_range(blocks, start, before) || start + blocks.len() != end + 1,
    ensures
        match error {
            PipelineError::UnexpectedHeight { expected, actual } => actual != expected && start
                <= expected < start + blocks.len() && blocks[expected - start].height == actual,
            PipelineError::InvalidHash { height, actual, .. } => start <= height < start
                + blocks.len() && actual != 32 && (blocks[height - start].hash@.len() == actual
                || blocks[height - start].prev_hash@.len() == actual),
            PipelineError::BrokenLink { height } => {
                &&& start <= height < start + blocks.len()
                &&& height > start ==> blocks[height - start].prev_hash@ != blocks[height - start
                    - 1].hash@
                &&& height == start ==> before is Some && blocks[0].prev_hash@ != before->0@
            },
            PipelineError::IncompleteRange { expected, actual } => expected == end && (start
                + blocks.len() > 0 ==> actual == start + blocks.len() - 1),
            _ => false,
        },
{
    if !all_fit_range(blocks, start, before) {
        let i = choose|i: int| #[trigger]
            first_misfit(blocks, i, start, before) && misfit(blocks, i, start, error);
        assert(misfit(blocks, i, start, error));
    }
}

/// The first of some actions with a malformed nullifier, or commitment, is told.
pub proof fn law_first_bad_action_is_told(actions: Seq<CompactOrchardAction>, i: int)
    ensures
        first_bad_nullifier(actions, i) <==> 0 <= i < actions.len() && actions[i].nullifier@.len()
            != 32 && forall|j: int|
            0 <= j < i ==> (#[trigger] actions[j]).nullifier@.len() == 32,
        first_bad_commitment(actions, i) <==> 0 <= i < actions.len() && !canonical(
            actions[i].cmx@,
        ) && forall|j: int| 0 <= j < i ==> canonical((#[trigger] actions[j]).cmx@),
{
    if 0 <= i < actions.len() {
        let head = actions.take(i);
        assert forall|j: int| 0 <= j < i implies #[trigger] head[j] == actions[j] by {}
        if nullifiers_valid(head) {
            assert forall|j: int| 0 <= j < i implies (#[trigger] actions[j]).nullifier@.len()
                == 32 by {
                assert(head[j] == actions[j]);
            }
        }
        if commitments_valid(head) {
            assert forall|j: int| 0 <= j < i implies canonical((#[trigger] actions[j]).cmx@) by {
                assert(head[j] == actions[j]);
            }
        }
    }
}

/// Data without a marker is refused exactly when some of it exists, and a marker
/// exactly when it names another pool or version.
pub proof fn law_unlabelled_data_is_refused(artifacts: Seq<Artifact>, marker: DatasetMarker)
    ensures
        (exists|i: int| #[trigger] first_existing(artifacts, i)) <==> exists|i: int|
            0 <= i < artifacts.len() && (#[trigger] artifacts[i]).exists,
        names_ironwood(marker) <==> marker.pool@ == "ironwood"@ && marker.dataset_version == 2,
{
    if exists|i: int| 0 <= i < artifacts.len() && (#[trigger] artifacts[i]).exists {
        let i = choose|i: int| 0 <= i < artifacts.len() && (#[trigger] artifacts[i]).exists;
        let first = lemma_first_existing(artifacts, i);
        assert(first_existing(artifacts, first));
    }
    if exists|i: int| #[trigger] first_existing(artifacts, i) {
        let i = choose|i: int| #[trigger] first_existing(artifacts, i);
        assert(artifacts[i].exists);
    }
}

proof fn lemma_first_existing(artifacts: Seq<Artifact>, i: int) -> (first: int)
    requires
        0 <= i < artifacts.len(),
        artifacts[i].exists,
    ensures
        first_existing(artifacts, first),
    decreases i,
{
    if exists|j: int| 0 <= j < i && (#[trigger] artifacts[j]).exists {
        let j = choose|j: int| 0 <= j < i && (#[trigger] artifacts[j]).exists;
        lemma_first_existing(artifacts, j)
    } else {
        i
    }
}

/// A tree of `size` leaves can end with some commitments exactly when there are
/// no more of them than leaves.
pub proof fn law_commitments_fit_the_size(size: u32, commitments: usize)
    requires
        commitments <= u32::MAX,
    ensures
        prior_fits(size, commitments) <==> commitments <= size,
{
}

/// A fork that is out of reach is told with the follower's height and window.
pub proof fn law_fork_out_of_reach_is_told(v: FollowerView)
    ensures
        beyond_window(v) == (PipelineError::ReorgBeyondWindow {
            height: v.current,
            depth: v.window,
        }),
{
}

/// Whatever is extracted from a block are the nullifiers of every Ironwood action
/// of every transaction, in order; and something is, exactly when all of them have
/// 32 bytes.
pub proof fn law_extraction_reads_every_nullifier(
    block: CompactBlock,
    r: Result<Vec<Hash32>, IronwoodError>,
)
    requires
        call_ensures(extract_ironwood_nullifiers, (&block,), r),
    ensures
        r matches Ok(nullifiers) ==> nullifiers@.map_values(|nf: Hash32| nf@)
            == block.vtx@.map_values(|tx: CompactTx| tx.ironwood_actions@).flatten().map_values(
            |action: CompactOrchardAction| action.nullifier@,
        ),
        r is Ok <==> forall|t: int, a: int|
            0 <= t < block.vtx@.len() && 0 <= a < block.vtx@[t].ironwood_actions@.len() ==> (
            #[trigger] block.vtx@[t].ironwood_actions@[a]).nullifier@.len() == 32,
{
    if r is Ok {
        law_no_nullifier_is_lost(block.vtx@, r->Ok_0@);
    }
}

/// Whatever is extracted from a block are the commitments of every Ironwood action
/// of every transaction, in order; and something is, exactly when all of them are
/// canonical.
pub proof fn law_extraction_reads_every_commitment(
    block: CompactBlock,
    r: Result<Vec<Hash32>, ParseError>,
)
    requires
        call_ensures(extract_commitments, (&block,), r),
    ensures
        r matches Ok(commitments) ==> commitments@.map_values(|cmx: Hash32| cmx@)
            == block.vtx@.map_values(|tx: CompactTx| tx.ironwood_actions@).flatten().map_values(
            |action: CompactOrchardAction| action.cmx@,
        ),
        r is Ok <==> forall|t: int, a: int|
            0 <= t < block.vtx@.len() && 0 <= a < block.vtx@[t].ironwood_actions@.len()
                ==> canonical((#[trigger] block.vtx@[t].ironwood_actions@[a]).cmx@),
{
    if r is Ok {
        law_no_commitment_is_lost(block.vtx@, r->Ok_0@);
    }
}

/// Blocks that a follower may record are those right after where it stands, as
/// an accepted batch has them.
pub proof fn law_accepted_batch_can_be_recorded(
    validated: Seq<ValidatedBlock>,
    current: u64,
    before: Option<Hash32>,
)
    requires
        linked_run(validated, current + 1, before),
    ensures
        consecutive(validated, current + 1),
{
}

/// After a round the follower knows the blocks that it knew up to the fork and
/// those that it fetched after it, as many of the last as its window holds; and
/// together they are a chain where both parts are.
pub proof fn law_round_follows_the_chain(
    history: Seq<Known>,
    k: int,
    window: nat,
    fetched: Seq<ValidatedBlock>,
    h: int,
)
    requires
        forall|m: int| 0 <= m < history.len() ==> (#[trigger] history[m]).0 == history[0].0 + m,
        0 <= k < history.len() <= window,
        linked_run(fetched, history[k].0 + 1, Some(history[k].1)),
        0 <= h < fetched.len(),
        fetched.len() <= window,
    ensures
        ({
            let now = all_remembered(cut_to(history, history[k].0), window, fetched);
            &&& now.len() >= fetched.len()
            &&& now[now.len() - fetched.len() + h] == (
                fetched[h].block.height,
                fetched[h].hash,
            )
            &&& fetched[0].prev_hash == history[k].1
            &&& fetched[0].block.height == history[k].0 + 1
        }),
{
    law_rollback_forgets_only_what_is_above(history, k);
    let kept = history.take(k + 1);
    law_last_blocks_are_known(kept, window, fetched);
    let seen = |block: ValidatedBlock| (block.block.height, block.hash);
    let all = kept + fetched.map_values(seen);
    assert(all[kept.len() + h] == seen(fetched[h]));
    assert(fetched[0].block.height == history[k].0 + 1 + 0);
}

} // verus!
