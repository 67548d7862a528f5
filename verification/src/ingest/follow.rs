//! The decisions of syncing a block range and of following the confirmed
//! chain. Fetching blocks, handing them on and waiting are the caller's part.

use super::pipeline::{validate_range, PipelineError, ValidatedBlock, BATCH_SIZE};
use super::proto::CompactBlock;
use crate::bytes::{hash_eq, Hash32};
use std::collections::VecDeque;
use vstd::prelude::*;
#[allow(unused_imports)]
use super::laws::{law_fork_is_last_unchanged_block, law_rollback_forgets_only_what_is_above};
#[allow(unused_imports)]
use super::pipeline::{all_fit_range, block_fits, last_hash, linked_run, range_refused, validated_from};
#[allow(unused_imports)]
use crate::bytes::lemma_hash_ext;

verus! {

/// The last height of the batch that begins at `current`.
pub open spec fn batch_end(current: u64, to: u64) -> int {
    if current + 9_999 < to {
        current + 9_999
    } else {
        to as int
    }
}

/// Whether blocks are exactly those of the batch that begins at `current`.
pub open spec fn batch_accepted(sync: BlockSync, blocks: Seq<CompactBlock>) -> bool {
    all_fit_range(blocks, sync.current, sync.expected_prev) && sync.current + blocks.len()
        == batch_end(sync.current, sync.to) + 1
}

/// The rest of an inclusive range that is synced in validated batches.
///
/// A batch is fully validated before any block from it is handed on, so a
/// missing or malformed range cannot advance a consumer checkpoint.
pub struct BlockSync {
    pub current: u64,
    pub to: u64,
    pub expected_prev: Option<Hash32>,
}

impl BlockSync {
    /// A range that is not done ends below the last height there is.
    pub open spec fn wf(&self) -> bool {
        self.current <= self.to ==> self.to < u64::MAX
    }

    /// The range from `from` to `to`, whose first block has to follow
    /// `expected_prev` where that is known.
    pub fn new(from: u64, to: u64, expected_prev: Option<Hash32>) -> (sync: Self)
        requires
            from <= to ==> to < u64::MAX,
        ensures
            sync.wf(),
            sync == (BlockSync { current: from, to, expected_prev }),
    {
        BlockSync { current: from, to, expected_prev }
    }

    /// The range to fetch next.
    pub fn next_range(&self) -> (r: Option<(u64, u64)>)
        requires
            self.wf(),
        ensures
            r is None <==> self.current > self.to,
            r matches Some((first, last)) ==> first == self.current && last == batch_end(
                self.current,
                self.to,
            ),
    {
        if self.current > self.to {
            return None;
        }
        Some((self.current, self.last_of_batch()))
    }

    /// The last height of the next range.
    fn last_of_batch(&self) -> (last: u64)
        requires
            self.current <= self.to,
        ensures
            last == batch_end(self.current, self.to),
    {
        if self.to - self.current < BATCH_SIZE {
            self.to
        } else {
            self.current + (BATCH_SIZE - 1)
        }
    }

    /// Takes in the blocks of the next range. Blocks that are refused change nothing.
    pub fn accept(&mut self, blocks: Vec<CompactBlock>) -> (r: Result<
        Vec<ValidatedBlock>,
        PipelineError,
    >)
        requires
            old(self).wf(),
            old(self).current <= old(self).to,
            old(self).current + blocks@.len() <= u64::MAX,
        ensures
            final(self).wf(),
            r is Ok <==> batch_accepted(*old(self), blocks@),
            r matches Ok(validated) ==> {
                &&& validated_from(validated@, blocks@)
                &&& linked_run(validated@, old(self).current as int, old(self).expected_prev)
                &&& validated@.len() > 0
                &&& final(self).current == old(self).current + validated@.len()
                &&& final(self).to == old(self).to
                &&& final(self).expected_prev == Some(validated@.last().hash)
            },
            r matches Err(error) ==> *final(self) == *old(self) && range_refused(
                blocks@,
                old(self).current,
                batch_end(old(self).current, old(self).to),
                old(self).expected_prev,
                error,
            ),
    {
        let end: u64 = self.last_of_batch();
        match validate_range(blocks, self.current, end, self.expected_prev) {
            Ok(validated) => {
                let n: usize = validated.len();
                self.expected_prev = Some(validated[n - 1].hash);
                self.current = end + 1;
                Ok(validated)
            },
            Err(error) => Err(error),
        }
    }
}

/// Two batches that meet are one linked run.
pub proof fn law_batches_join(
    a: Seq<ValidatedBlock>,
    b: Seq<ValidatedBlock>,
    start: int,
    before: Option<Hash32>,
)
    requires
        linked_run(a, start, before),
        linked_run(b, start + a.len(), last_hash(a, before)),
    ensures
        linked_run(a + b, start, before),
{
    let all = a + b;
    assert forall|i: int| 0 <= i < all.len() implies (#[trigger] all[i]).block.height == start
        + i by {
        if i < a.len() {
            assert(all[i] == a[i]);
        } else {
            assert(all[i] == b[i - a.len()]);
        }
    }
    assert forall|i: int| 0 < i < all.len() implies (#[trigger] all[i]).prev_hash == all[i
        - 1].hash by {
        if i < a.len() {
            assert(all[i] == a[i]);
            assert(all[i - 1] == a[i - 1]);
        } else if i == a.len() {
            assert(all[i] == b[0]);
            assert(all[i - 1] == a.last());
        } else {
            assert(all[i] == b[i - a.len()]);
            assert(all[i - 1] == b[i - a.len() - 1]);
        }
    }
    if all.len() > 0 && before is Some {
        if a.len() > 0 {
            assert(all[0] == a[0]);
        } else {
            assert(all[0] == b[0]);
        }
    }
}

/// Batches, one after the other.
pub open spec fn joined(batches: Seq<Seq<ValidatedBlock>>) -> Seq<ValidatedBlock>
    decreases batches.len(),
{
    if batches.len() == 0 {
        Seq::empty()
    } else {
        joined(batches.drop_last()) + batches.last()
    }
}

/// Whether each batch is a linked run that begins where those before it end,
/// as `BlockSync::accept` gives them out.
pub open spec fn accepted_in_turn(
    batches: Seq<Seq<ValidatedBlock>>,
    from: int,
    before: Option<Hash32>,
) -> bool
    decreases batches.len(),
{
    batches.len() > 0 ==> {
        let done = joined(batches.drop_last());
        &&& accepted_in_turn(batches.drop_last(), from, before)
        &&& linked_run(batches.last(), from + done.len(), last_hash(done, before))
    }
}

/// All the batches of a sync together are one linked run, so that no height is
/// skipped or repeated between them.
pub proof fn law_sync_is_one_run(
    batches: Seq<Seq<ValidatedBlock>>,
    from: int,
    before: Option<Hash32>,
)
    requires
        accepted_in_turn(batches, from, before),
    ensures
        linked_run(joined(batches), from, before),
    decreases batches.len(),
{
    if batches.len() > 0 {
        law_sync_is_one_run(batches.drop_last(), from, before);
        law_batches_join(joined(batches.drop_last()), batches.last(), from, before);
    }
}

/// Every block of an accepted batch lies within the range that is synced. With
/// the range of `Follower::settle`, no block above the confirmed height is
/// handed on.
pub proof fn law_batch_stays_in_range(
    sync: BlockSync,
    blocks: Seq<CompactBlock>,
    validated: Seq<ValidatedBlock>,
    i: int,
)
    requires
        sync.current <= sync.to,
        batch_accepted(sync, blocks),
        validated_from(validated, blocks),
        0 <= i < validated.len(),
    ensures
        sync.current <= validated[i].block.height <= sync.to,
{
    assert(block_fits(blocks, i, sync.current, sync.expected_prev));
    assert(validated[i].block == blocks[i]);
}

/// A height and the hash of the block there.
pub type Known = (u64, Hash32);

/// Heights follow one another.
pub open spec fn contiguous(history: Seq<Known>) -> bool {
    forall|i: int| 0 <= i < history.len() ==> (#[trigger] history[i]).0 == history[0].0 + i
}

/// The hash known for a height.
pub open spec fn known_hash(history: Seq<Known>, height: u64) -> Option<Hash32> {
    if history.len() > 0 && history[0].0 <= height < history[0].0 + history.len() {
        Some(history[height - history[0].0].1)
    } else {
        None
    }
}

/// The history with one more block, less the oldest where there are too many.
pub open spec fn remembered(history: Seq<Known>, depth: nat, block: Known) -> Seq<Known> {
    let longer = history.push(block);
    if longer.len() > depth {
        longer.drop_first()
    } else {
        longer
    }
}

/// The history with more blocks, one after the other.
pub open spec fn all_remembered(
    history: Seq<Known>,
    depth: nat,
    blocks: Seq<ValidatedBlock>,
) -> Seq<Known>
    decreases blocks.len(),
{
    if blocks.len() == 0 {
        history
    } else {
        remembered(
            all_remembered(history, depth, blocks.drop_last()),
            depth,
            (blocks.last().block.height, blocks.last().hash),
        )
    }
}

/// The history up to a height.
pub open spec fn cut_to(history: Seq<Known>, height: u64) -> Seq<Known>
    decreases history.len(),
{
    if history.len() == 0 || history.last().0 <= height {
        history
    } else {
        cut_to(history.drop_last(), height)
    }
}

/// The first height of the recent blocks that a follower starts from: a
/// window's worth, but not the genesis block unless it starts there.
pub open spec fn first_tracked(start_height: u64, reorg_window: usize) -> int {
    let back = if reorg_window == 0 {
        0int
    } else {
        reorg_window - 1
    };
    if start_height == 0 {
        0
    } else if start_height - back < 1 {
        1
    } else {
        start_height - back
    }
}

/// The first height of the recent blocks that a follower starts from.
pub fn history_start(start_height: u64, reorg_window: usize) -> (height: u64)
    ensures
        height == first_tracked(start_height, reorg_window),
        height <= start_height,
{
    if start_height == 0 {
        0
    } else {
        let back: u64 = if reorg_window == 0 {
            0
        } else {
            (reorg_window - 1) as u64
        };
        if back >= start_height {
            1
        } else {
            start_height - back
        }
    }
}

/// What to do in one round of following: where the chain is confirmed to, and
/// which known heights to look at again.
#[derive(Debug, Clone, Copy, PartialEq, Eq)]
pub struct Poll {
    pub target: u64,
    pub from: u64,
    pub to: u64,
}

/// What a look at known heights came to: the height to roll back to, if any,
/// and the blocks to fetch from there.
pub struct Advance {
    pub rollback_to: Option<u64>,
    pub sync: BlockSync,
}

/// Whether block `i` of an overlap is the one known for its height.
pub open spec fn still_known(
    history: Seq<Known>,
    overlap: Seq<CompactBlock>,
    i: int,
) -> bool {
    known_hash(history, overlap[i].height) matches Some(hash) && hash@ == overlap[i].hash@
}

/// Whether `i` is the last block of an overlap that is still the one known.
pub open spec fn is_fork(history: Seq<Known>, overlap: Seq<CompactBlock>, i: int) -> bool {
    &&& 0 <= i < overlap.len()
    &&& still_known(history, overlap, i)
    &&& forall|j: int| i < j < overlap.len() ==> !(#[trigger] still_known(history, overlap, j))
}

/// Follows the confirmed chain, knowing the blocks of a window at its end.
pub struct Follower {
    history: VecDeque<Known>,
    current_height: u64,
    confirmation_depth: u64,
    reorg_window: usize,
}

/// A follower as mathematics sees it.
#[verifier::ext_equal]
pub struct FollowerView {
    pub history: Seq<Known>,
    pub current: u64,
    pub depth: u64,
    pub window: usize,
}

impl View for Follower {
    type V = FollowerView;

    closed spec fn view(&self) -> FollowerView {
        FollowerView {
            history: self.history@,
            current: self.current_height,
            depth: self.confirmation_depth,
            window: self.reorg_window,
        }
    }
}

/// The lowest height known, or the current one where none is.
pub open spec fn oldest_known(v: FollowerView) -> u64 {
    if v.history.len() == 0 {
        v.current
    } else {
        v.history[0].0
    }
}

/// The confirmed height for a tip.
pub open spec fn confirmed(v: FollowerView, tip: u64) -> u64 {
    if tip >= v.depth {
        (tip - v.depth) as u64
    } else {
        0
    }
}

/// The lower of two heights.
pub open spec fn lower(a: u64, b: u64) -> u64 {
    if a <= b {
        a
    } else {
        b
    }
}

/// The error for a fork that the window does not reach.
pub open spec fn beyond_window(v: FollowerView) -> PipelineError {
    PipelineError::ReorgBeyondWindow { height: v.current, depth: v.window }
}

/// Whether a poll is the one for a follower's state.
pub open spec fn poll_fits(v: FollowerView, poll: Poll) -> bool {
    &&& poll.from == oldest_known(v)
    &&& poll.to == lower(v.current, poll.target)
    &&& poll.from <= poll.to
    &&& poll.target < u64::MAX
}

/// Remembers a block that follows those known.
fn push_history(history: &mut VecDeque<Known>, max_depth: usize, height: u64, hash: Hash32)
    requires
        contiguous(old(history)@),
        old(history)@.len() <= max_depth,
        old(history)@.len() > 0 ==> height == old(history)@.last().0 + 1,
    ensures
        final(history)@ == remembered(old(history)@, max_depth as nat, (height, hash)),
        contiguous(final(history)@),
        final(history)@.len() <= max_depth,
        max_depth > 0 ==> final(history)@.len() > 0 && final(history)@.last().0 == height,
{
    let ghost before = history@;
    let ghost longer = before.push((height, hash));
    history.push_back((height, hash));
    assert(history@ =~= longer);
    assert(contiguous(longer)) by {
        assert forall|i: int| 0 <= i < longer.len() implies (#[trigger] longer[i]).0 == longer[0].0
            + i by {
            if i < before.len() {
                assert(longer[i] == before[i]);
                assert(longer[0] == before[0]);
            } else if before.len() > 0 {
                assert(before.last() == before[before.len() - 1]);
                assert(longer[0] == before[0]);
            }
        }
    }
    if history.len() > max_depth {
        let oldest = history.pop_front();
        assert(history@ =~= longer.drop_first());
        assert forall|i: int| 0 <= i < history@.len() implies (#[trigger] history@[i]).0
            == history@[0].0 + i by {
            assert(history@[i] == longer[i + 1]);
            assert(history@[0] == longer[1]);
        }
    }
}

/// Whether blocks have consecutive heights from `first` on.
pub open spec fn consecutive(blocks: Seq<ValidatedBlock>, first: int) -> bool {
    forall|i: int| 0 <= i < blocks.len() ==> (#[trigger] blocks[i]).block.height == first + i
}

/// Remembers blocks that follow those known.
fn push_blocks(history: &mut VecDeque<Known>, max_depth: usize, blocks: &Vec<ValidatedBlock>)
    requires
        contiguous(old(history)@),
        old(history)@.len() <= max_depth,
        blocks@.len() > 0 ==> consecutive(blocks@, blocks@[0].block.height as int),
        old(history)@.len() > 0 && blocks@.len() > 0 ==> blocks@[0].block.height
            == old(history)@.last().0 + 1,
    ensures
        final(history)@ == all_remembered(old(history)@, max_depth as nat, blocks@),
        contiguous(final(history)@),
        final(history)@.len() <= max_depth,
        max_depth > 0 && blocks@.len() > 0 ==> final(history)@.len() > 0
            && final(history)@.last().0 == blocks@.last().block.height,
{
    let ghost start = history@;
    let mut i: usize = 0;
    assert(blocks@.take(0) =~= Seq::empty());
    while i < blocks.len()
        invariant
            i <= blocks@.len(),
            contiguous(history@),
            history@.len() <= max_depth,
            blocks@.len() > 0 ==> consecutive(blocks@, blocks@[0].block.height as int),
            history@ == all_remembered(start, max_depth as nat, blocks@.take(i as int)),
            i == 0 && start.len() > 0 && blocks@.len() > 0 ==> blocks@[0].block.height
                == start.last().0 + 1,
            i > 0 && max_depth > 0 ==> history@.len() > 0,
            i > 0 && history@.len() > 0 ==> history@.last().0 == blocks@[i - 1].block.height,
        decreases blocks@.len() - i,
    {
        proof {
            assert(blocks@.take(i + 1).drop_last() =~= blocks@.take(i as int));
            assert(blocks@.take(i + 1).last() == blocks@[i as int]);
            if i > 0 {
                assert(blocks@[i as int].block.height == blocks@[i - 1].block.height + 1);
            }
        }
        let height: u64 = blocks[i].height();
        let hash = blocks[i].hash;
        push_history(history, max_depth, height, hash);
        i += 1;
    }
    assert(blocks@.take(i as int) =~= blocks@);
}

impl Follower {
    /// Known heights follow one another and end at the current one; there are
    /// no more than a window, and with a window there is one.
    pub closed spec fn wf(&self) -> bool {
        &&& contiguous(self@.history)
        &&& self@.history.len() <= self@.window
        &&& self@.window > 0 ==> self@.history.len() > 0
        &&& self@.history.len() > 0 ==> self@.history.last().0 == self@.current
        &&& self@.current < u64::MAX
    }

    /// What the invariant says of the state.
    pub proof fn lemma_wf(&self)
        requires
            self.wf(),
        ensures
            contiguous(self@.history),
            self@.history.len() <= self@.window,
            self@.history.len() > 0 ==> self@.history.last().0 == self@.current,
    {
    }

    /// Remembers the blocks of an accepted batch, which follow the current height.
    pub fn record(&mut self, blocks: &Vec<ValidatedBlock>)
        requires
            old(self).wf(),
            consecutive(blocks@, old(self)@.current + 1),
            old(self)@.current + blocks@.len() < u64::MAX,
        ensures
            final(self).wf(),
            final(self)@ == (FollowerView {
                history: all_remembered(old(self)@.history, old(self)@.window as nat, blocks@),
                current: (old(self)@.current + blocks@.len()) as u64,
                ..old(self)@
            }),
    {
        let n: usize = blocks.len();
        if n > 0 {
            assert(blocks@[0].block.height == self@.current + 1 + 0);
            assert(blocks@[n - 1].block.height == self@.current + 1 + (n - 1));
        }
        push_blocks(&mut self.history, self.reorg_window, blocks);
        self.current_height = self.current_height + n as u64;
    }

    /// A follower at `start_height`, given the recent blocks up to there. They
    /// have to end with the block that is known there.
    pub fn begin(
        start_height: u64,
        start_hash: Hash32,
        confirmation_depth: u64,
        reorg_window: usize,
        recent: Vec<CompactBlock>,
    ) -> (r: Result<Self, PipelineError>)
        requires
            start_height < u64::MAX,
            first_tracked(start_height, reorg_window) + recent@.len() <= u64::MAX,
        ensures
            ({
                let first = first_tracked(start_height, reorg_window) as u64;
                let complete = all_fit_range(recent@, first, None) && first + recent@.len()
                    == start_height + 1;
                &&& r is Ok <==> complete && recent@.last().hash@ == start_hash@
                &&& r matches Ok(follower) ==> {
                    &&& follower.wf()
                    &&& follower@.current == start_height
                    &&& follower@.depth == confirmation_depth
                    &&& follower@.window == reorg_window
                    &&& exists|blocks: Seq<ValidatedBlock>| #[trigger]
                        validated_from(blocks, recent@) && linked_run(blocks, first as int, None)
                            && follower@.history == all_remembered(
                            Seq::empty(),
                            reorg_window as nat,
                            blocks,
                        )
                }
                &&& r matches Err(error) ==> {
                    if complete {
                        error == (PipelineError::ReorgBeyondWindow {
                            height: start_height,
                            depth: reorg_window,
                        })
                    } else {
                        range_refused(recent@, first, start_height as int, None, error)
                    }
                }
            }),
    {
        let first: u64 = history_start(start_height, reorg_window);
        let blocks = match validate_range(recent, first, start_height, None) {
            Ok(blocks) => blocks,
            Err(error) => return Err(error),
        };
        let n: usize = blocks.len();
        proof {
            lemma_hash_ext(blocks@[n - 1].hash, start_hash);
            assert(blocks@[n - 1].hash@ == recent@[n - 1].hash@);
        }
        if !hash_eq(&blocks[n - 1].hash, &start_hash) {
            return Err(
                PipelineError::ReorgBeyondWindow { height: start_height, depth: reorg_window },
            );
        }
        let mut history: VecDeque<Known> = VecDeque::new();
        proof {
            assert forall|i: int| 0 <= i < blocks@.len() implies (
            #[trigger] blocks@[i]).block.height == blocks@[0].block.height + i by {
                assert(blocks@[0].block.height == first + 0);
            }
            assert(blocks@[n - 1].block.height == first + (n - 1));
        }
        push_blocks(&mut history, reorg_window, &blocks);
        Ok(Follower { history, current_height: start_height, confirmation_depth, reorg_window })
    }

    /// The height up to which blocks have been handed on.
    pub fn current_height(&self) -> (height: u64)
        ensures
            height == self@.current,
    {
        self.current_height
    }

    /// Plans a round for the chain's tip. Where the confirmed chain ends below
    /// everything known, the fork cannot be found.
    pub fn plan_poll(&self, tip_height: u64) -> (r: Result<Poll, PipelineError>)
        requires
            confirmed(self@, tip_height) < u64::MAX,
        ensures
            r is Ok <==> oldest_known(self@) <= lower(self@.current, confirmed(self@, tip_height)),
            r matches Ok(poll) ==> poll_fits(self@, poll) && poll.target == confirmed(
                self@,
                tip_height,
            ),
            r matches Err(error) ==> error == beyond_window(self@),
    {
        let target: u64 = if tip_height >= self.confirmation_depth {
            tip_height - self.confirmation_depth
        } else {
            0
        };
        let to: u64 = if self.current_height <= target {
            self.current_height
        } else {
            target
        };
        let from: u64 = if self.history.len() == 0 {
            self.current_height
        } else {
            self.history[0].0
        };
        if to < from {
            return Err(
                PipelineError::ReorgBeyondWindow {
                    height: self.current_height,
                    depth: self.reorg_window,
                },
            );
        }
        Ok(Poll { target, from, to })
    }

    /// The hash known for a height.
    fn hash_at(&self, height: u64) -> (r: Option<Hash32>)
        requires
            self.wf(),
        ensures
            r == known_hash(self@.history, height),
    {
        if self.history.len() == 0 {
            return None;
        }
        let first: u64 = self.history[0].0;
        if height < first || height - first >= self.history.len() as u64 {
            return None;
        }
        Some(self.history[(height - first) as usize].1)
    }

    /// Looks at known heights again, in the blocks fetched for a poll, and
    /// forgets what is no longer in the chain. The fork is the last height
    /// whose block is still the one known.
    pub fn settle(&mut self, poll: &Poll, overlap: Vec<CompactBlock>) -> (r: Result<
        Advance,
        PipelineError,
    >)
        requires
            old(self).wf(),
            poll_fits(old(self)@, *poll),
            poll.from + overlap@.len() <= u64::MAX,
        ensures
            final(self).wf(),
            ({
                let complete = all_fit_range(overlap@, poll.from, None) && poll.from
                    + overlap@.len() == poll.to + 1;
                &&& r is Ok <==> complete && exists|i: int| #[trigger]
                    is_fork(old(self)@.history, overlap@, i)
                &&& r matches Err(error) ==> {
                    &&& final(self)@ == old(self)@
                    &&& if complete {
                        error == beyond_window(old(self)@)
                    } else {
                        range_refused(overlap@, poll.from, poll.to as int, None, error)
                    }
                }
                &&& r matches Ok(advance) ==> exists|i: int| #[trigger]
                    is_fork(old(self)@.history, overlap@, i) && {
                        let fork = overlap@[i].height;
                        &&& advance.rollback_to == (if fork < old(self)@.current {
                            Some(fork)
                        } else {
                            None
                        })
                        &&& final(self)@ == (FollowerView {
                            history: cut_to(old(self)@.history, fork),
                            current: fork,
                            ..old(self)@
                        })
                        &&& advance.sync == (BlockSync {
                            current: (fork + 1) as u64,
                            to: poll.target,
                            expected_prev: known_hash(old(self)@.history, fork),
                        })
                        &&& advance.sync.expected_prev is Some
                        &&& advance.sync.wf()
                        &&& fork <= poll.target
                    }
                &&& r matches Ok(advance) ==> exists|k: int, j: int|
                    {
                        &&& 0 <= k < old(self)@.history.len()
                        &&& 0 <= j < overlap@.len()
                        &&& (#[trigger] old(self)@.history[k]).0 == (
                        #[trigger] overlap@[j]).height
                        &&& old(self)@.history[k].1@ == overlap@[j].hash@
                        &&& advance.sync.current == old(self)@.history[k].0 + 1
                        &&& advance.sync.expected_prev == Some(old(self)@.history[k].1)
                        &&& advance.sync.to == poll.target
                        &&& advance.rollback_to == (if old(self)@.history[k].0
                            < old(self)@.current {
                            Some(old(self)@.history[k].0)
                        } else {
                            None
                        })
                        &&& final(self)@.history == old(self)@.history.take(k + 1)
                        &&& final(self)@.current == old(self)@.history[k].0
                    }
                &&& r matches Ok(advance) ==> forall|k: int, j: int|
                    0 <= k < old(self)@.history.len() && 0 <= j < overlap@.len() && (
                    #[trigger] old(self)@.history[k]).0 == (#[trigger] overlap@[j]).height
                        && overlap@[j].height >= advance.sync.current
                        ==> old(self)@.history[k].1@ != overlap@[j].hash@
            }),
    {
        let ghost start = self@;
        let blocks = match validate_range(overlap, poll.from, poll.to, None) {
            Ok(blocks) => blocks,
            Err(error) => return Err(error),
        };
        let mut i: usize = blocks.len();
        let mut found: Option<u64> = None;
        let mut prev: Option<Hash32> = None;
        while i > 0
            invariant_except_break
                found is None,
                prev is None,
                forall|j: int|
                    i <= j < overlap@.len() ==> !(#[trigger] still_known(
                        start.history,
                        overlap@,
                        j,
                    )),
            invariant
                i <= blocks@.len(),
                validated_from(blocks@, overlap@),
                self.wf(),
                self@ == start,
            ensures
                match found {
                    Some(fork) => exists|j: int| #[trigger]
                        is_fork(start.history, overlap@, j) && overlap@[j].height == fork && prev
                            == known_hash(start.history, fork) && prev is Some,
                    None => forall|j: int|
                        0 <= j < overlap@.len() ==> !(#[trigger] still_known(
                            start.history,
                            overlap@,
                            j,
                        )),
                },
            decreases i,
        {
            i -= 1;
            let height: u64 = blocks[i].height();
            let known = self.hash_at(height);
            assert(blocks@[i as int].block == overlap@[i as int]);
            if let Some(hash) = known {
                proof {
                    lemma_hash_ext(hash, blocks@[i as int].hash);
                }
                if hash_eq(&hash, &blocks[i].hash) {
                    assert(still_known(start.history, overlap@, i as int));
                    assert(is_fork(start.history, overlap@, i as int));
                    found = Some(height);
                    prev = Some(hash);
                    break;
                }
            }
            assert(!still_known(start.history, overlap@, i as int));
        }
        let fork: u64 = match found {
            Some(fork) => fork,
            None => {
                return Err(
                    PipelineError::ReorgBeyondWindow {
                        height: self.current_height,
                        depth: self.reorg_window,
                    },
                );
            },
        };
        let ghost at = choose|j: int| #[trigger]
            is_fork(start.history, overlap@, j) && overlap@[j].height == fork;
        proof {
            assert(blocks@[at].block == overlap@[at]);
            assert(blocks@[at].block.height == poll.from + at);
            assert(blocks@.len() == poll.to + 1 - poll.from);
        }
        let rollback_to: Option<u64> = if fork < self.current_height {
            Some(fork)
        } else {
            None
        };
        while self.history.len() > 0 && self.history[self.history.len() - 1].0 > fork
            invariant
                contiguous(self.history@),
                self.history@.len() <= start.history.len(),
                self@.current == start.current,
                self@.depth == start.depth,
                self@.window == start.window,
                cut_to(self.history@, fork) == cut_to(start.history, fork),
            decreases self.history@.len(),
        {
            let ghost before = self.history@;
            let newest = self.history.pop_back();
            proof {
                assert(before.last() == before[before.len() - 1]);
                assert(self.history@ =~= before.drop_last());
                assert forall|k: int| 0 <= k < self.history@.len() implies (
                #[trigger] self.history@[k]).0 == self.history@[0].0 + k by {
                    assert(self.history@[k] == before[k]);
                    assert(self.history@[0] == before[0]);
                }
            }
        }
        self.current_height = fork;
        proof {
            assert(is_fork(start.history, overlap@, at));
            law_fork_is_last_known(start.history, fork);
            law_fork_is_last_unchanged_block(start.history, overlap@, at);
            let k = choose|k: int|
                0 <= k < start.history.len() && (#[trigger] start.history[k]).0
                    == overlap@[at].height && start.history[k].1@ == overlap@[at].hash@;
            assert(start.history[k].0 == overlap@[at].height);
            law_rollback_forgets_only_what_is_above(start.history, k);
            assert forall|m: int| 0 <= m < overlap@.len() implies (#[trigger] overlap@[m]).height
                == poll.from + m by {
                assert(blocks@[m].block == overlap@[m]);
                assert(blocks@[m].block.height == poll.from + m);
            }
            if self.history@.len() > 0 {
                assert(self.history@.last() == self.history@[self.history@.len() - 1]);
            }
        }
        Ok(Advance { rollback_to, sync: BlockSync::new(fork + 1, poll.target, prev) })
    }
}

/// The history up to a height holds exactly what was known up to there.
pub proof fn law_cut_keeps_lower(history: Seq<Known>, height: u64, h: u64)
    requires
        contiguous(history),
    ensures
        contiguous(cut_to(history, height)),
        known_hash(cut_to(history, height), h) == (if h <= height {
            known_hash(history, h)
        } else {
            None
        }),
    decreases history.len(),
{
    if history.len() > 0 {
        assert(history.last() == history[history.len() - 1]);
        if history.last().0 > height {
            let less = history.drop_last();
            assert forall|k: int| 0 <= k < less.len() implies (#[trigger] less[k]).0 == less[0].0
                + k by {
                assert(less[k] == history[k]);
                assert(less[0] == history[0]);
            }
            law_cut_keeps_lower(less, height, h);
            if less.len() > 0 {
                assert(less[0] == history[0]);
            }
        }
    }
}

/// After a reorganisation the blocks to fetch begin right above the fork and
/// have to follow the block known there, which is the last one still known.
pub proof fn law_fork_is_last_known(history: Seq<Known>, fork: u64)
    requires
        contiguous(history),
        known_hash(history, fork) is Some,
    ensures
        cut_to(history, fork).len() > 0,
        cut_to(history, fork).last() == (fork, known_hash(history, fork)->0),
    decreases history.len(),
{
    let last = history.len() - 1;
    assert(history.last() == history[last]);
    if history.last().0 > fork {
        let less = history.drop_last();
        assert forall|k: int| 0 <= k < less.len() implies (#[trigger] less[k]).0 == less[0].0
            + k by {
            assert(less[k] == history[k]);
            assert(less[0] == history[0]);
        }
        assert(history[fork - history[0].0].0 == fork);
        assert(less[0] == history[0]);
        law_fork_is_last_known(less, fork);
    } else {
        assert(history[fork - history[0].0].0 == fork);
    }
}

} // verus!
