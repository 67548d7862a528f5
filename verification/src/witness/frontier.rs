//! The recent right edges of the tree, one per height.

use super::types::{FrontierUpdate, L0_MAX_SHARDS};
use crate::protocol::{ServerPhase, YpirScenario, ZcashNetwork};
use std::collections::VecDeque;
use vstd::prelude::*;

verus! {

/// Shards that the PIR database holds unless configured otherwise.
pub const DEFAULT_WINDOW_SHARD_LIMIT: usize = L0_MAX_SHARDS;

/// Frontiers kept at most.
pub const FRONTIER_HISTORY_LIMIT: usize = 2_000;

/// Metadata exposed via `/metadata` and attached to PIR state snapshots.
#[derive(Debug, Clone)]
pub struct WitnessMetadata {
    pub zcash_network: ZcashNetwork,
    pub commitment_pool: String,
    pub dataset_version: u32,
    pub anchor_height: u64,
    pub tree_size: u64,
    pub window_start_shard: u32,
    pub window_shard_count: u32,
    pub populated_shards: u32,
    pub phase: ServerPhase,
}

/// The number of shards to keep when `limit` are asked for: at least one, and
/// no more than the database holds.
pub fn effective_window_shard_limit(limit: usize) -> (n: usize)
    ensures
        n == (if limit < 1 {
            1
        } else if limit > 16 {
            16
        } else {
            limit as int
        }),
{
    if limit < 1 {
        1
    } else if limit > L0_MAX_SHARDS {
        L0_MAX_SHARDS
    } else {
        limit
    }
}

/// The geometry of the witness database.
pub fn witness_scenario() -> (scenario: YpirScenario)
    ensures
        scenario.num_items == 4_096,
        scenario.item_size_bits == 65_536,
        scenario.poly_len == 4_096,
{
    YpirScenario { num_items: 4_096, item_size_bits: 65_536, poly_len: 4_096 }
}

/// Heights strictly ascend.
pub open spec fn heights_ascend(updates: Seq<FrontierUpdate>) -> bool {
    forall|i: int, j: int|
        0 <= i < j < updates.len() ==> (#[trigger] updates[i]).height < (
        #[trigger] updates[j]).height
}

/// How many updates lie below `height`.
pub open spec fn count_below(updates: Seq<FrontierUpdate>, height: int) -> int
    decreases updates.len(),
{
    if updates.len() == 0 {
        0
    } else if updates.last().height < height {
        updates.len() as int
    } else {
        count_below(updates.drop_last(), height)
    }
}

proof fn lemma_count_below(updates: Seq<FrontierUpdate>, height: int)
    requires
        heights_ascend(updates),
    ensures
        0 <= count_below(updates, height) <= updates.len(),
        forall|i: int|
            0 <= i < count_below(updates, height) ==> (#[trigger] updates[i]).height < height,
        forall|i: int|
            count_below(updates, height) <= i < updates.len() ==> (#[trigger] updates[i]).height
                >= height,
    decreases updates.len(),
{
    if updates.len() > 0 {
        let last = updates.len() - 1;
        if updates.last().height < height {
            assert forall|i: int| 0 <= i < updates.len() implies (#[trigger] updates[i]).height
                < height by {
                if i < last {
                    assert(updates[i].height < updates[last].height);
                }
            }
        } else {
            let less = updates.drop_last();
            assert(heights_ascend(less));
            lemma_count_below(less, height);
            assert forall|i: int|
                count_below(updates, height) <= i < updates.len() implies (
            #[trigger] updates[i]).height >= height by {
                if i < last {
                    assert(less[i] == updates[i]);
                }
            }
            assert forall|i: int| 0 <= i < count_below(updates, height) implies (
            #[trigger] updates[i]).height < height by {
                assert(less[i] == updates[i]);
            }
        }
    }
}

/// Whether some update has this height.
pub open spec fn has_height(updates: Seq<FrontierUpdate>, height: int) -> bool {
    exists|i: int| 0 <= i < updates.len() && (#[trigger] updates[i]).height == height
}

/// The updates once `update` has arrived: those below it, then itself, less
/// the oldest where there are too many.
pub open spec fn pushed(updates: Seq<FrontierUpdate>, update: FrontierUpdate) -> Seq<
    FrontierUpdate,
> {
    let longer = updates.take(count_below(updates, update.height as int)).push(update);
    if longer.len() > 2_000 {
        longer.drop_first()
    } else {
        longer
    }
}

/// The updates once those above `height` have been dropped.
pub open spec fn cut_above(updates: Seq<FrontierUpdate>, height: u64) -> Seq<FrontierUpdate> {
    updates.take(count_below(updates, height + 1))
}

/// Whether every height of an inclusive range, no longer than the history may
/// be, has an update.
pub open spec fn range_complete(updates: Seq<FrontierUpdate>, from: u64, to: u64) -> bool {
    &&& from <= to
    &&& to - from < 2_000
    &&& forall|h: int| from <= h <= to ==> #[trigger] has_height(updates, h)
}

/// A bounded history of frontiers in ascending height order.
pub struct FrontierHistory {
    updates: VecDeque<FrontierUpdate>,
}

impl View for FrontierHistory {
    type V = Seq<FrontierUpdate>;

    closed spec fn view(&self) -> Seq<FrontierUpdate> {
        self.updates@
    }
}

impl FrontierHistory {
    /// Heights strictly ascend, and there are not too many.
    pub open spec fn wf(&self) -> bool {
        heights_ascend(self@) && self@.len() <= 2_000
    }

    /// A history without updates.
    pub fn new() -> (history: Self)
        ensures
            history.wf(),
            history@ == Seq::<FrontierUpdate>::empty(),
    {
        FrontierHistory { updates: VecDeque::with_capacity(FRONTIER_HISTORY_LIMIT) }
    }

    /// How many updates lie at or below `height`, or strictly below it.
    fn partition(&self, height: u64, inclusive: bool) -> (n: usize)
        requires
            self.wf(),
        ensures
            n == count_below(
                self@,
                if inclusive {
                    height + 1
                } else {
                    height as int
                },
            ),
    {
        let ghost bound = if inclusive {
            height + 1
        } else {
            height as int
        };
        let mut n: usize = self.updates.len();
        assert(self@.take(n as int) =~= self@);
        while n > 0
            invariant
                n <= self@.len(),
                self@ == self.updates@,
                self.wf(),
                bound == (if inclusive {
                    height + 1
                } else {
                    height as int
                }),
                count_below(self@, bound) == count_below(self@.take(n as int), bound),
            decreases n,
        {
            let last: u64 = self.updates[n - 1].height;
            proof {
                assert(self@.take(n as int).last() == self@[n - 1]);
                assert(self@.take(n as int).drop_last() =~= self@.take(n - 1));
            }
            let below: bool = if inclusive {
                last <= height
            } else {
                last < height
            };
            if below {
                return n;
            }
            n -= 1;
        }
        n
    }

    /// Takes an update in, in place of any at its height or above.
    pub fn push_frontier(&mut self, update: FrontierUpdate)
        requires
            old(self).wf(),
        ensures
            final(self).wf(),
            final(self)@ == pushed(old(self)@, update),
    {
        let keep = self.partition(update.height, false);
        let ghost before = self@;
        proof {
            lemma_count_below(before, update.height as int);
        }
        self.updates.truncate(keep);
        assert(self@ =~= before.take(keep as int));
        self.updates.push_back(update);
        let ghost longer = before.take(keep as int).push(update);
        assert(self@ =~= longer);
        assert(heights_ascend(longer)) by {
            assert forall|i: int, j: int| 0 <= i < j < longer.len() implies (
            #[trigger] longer[i]).height < (#[trigger] longer[j]).height by {
                if j < keep {
                    assert(before[i].height < before[j].height);
                } else {
                    assert(before[i].height < update.height);
                }
            }
        }
        if self.updates.len() > FRONTIER_HISTORY_LIMIT {
            let dropped = self.updates.pop_front();
            assert(self@ =~= longer.drop_first());
            assert forall|i: int, j: int| 0 <= i < j < self@.len() implies (
            #[trigger] self@[i]).height < (#[trigger] self@[j]).height by {
                assert(longer[i + 1].height < longer[j + 1].height);
            }
        }
    }

    /// Drops the updates above `height`.
    pub fn rollback_frontiers(&mut self, height: u64)
        requires
            old(self).wf(),
        ensures
            final(self).wf(),
            final(self)@ == cut_above(old(self)@, height),
    {
        let keep = self.partition(height, true);
        let ghost before = self@;
        proof {
            lemma_count_below(before, height + 1);
        }
        self.updates.truncate(keep);
        assert(self@ =~= before.take(keep as int));
        assert forall|i: int, j: int| 0 <= i < j < self@.len() implies (
        #[trigger] self@[i]).height < (#[trigger] self@[j]).height by {
            assert(before[i].height < before[j].height);
        }
    }

    /// Return an inclusive, gap-free height range, or `None` when it has been
    /// evicted or has not arrived yet.
    pub fn frontier_range(&self, from: u64, to: u64) -> (r: Option<Vec<FrontierUpdate>>)
        requires
            self.wf(),
        ensures
            r is Some <==> range_complete(self@, from, to),
            r matches Some(selected) ==> {
                &&& selected@.len() == to - from + 1
                &&& forall|i: int|
                    0 <= i < selected@.len() ==> (#[trigger] selected@[i]).height == from + i
                        && self@.contains(selected@[i])
            },
    {
        if to < from || to - from >= FRONTIER_HISTORY_LIMIT as u64 {
            return None;
        }
        let expected: usize = (to - from) as usize + 1;
        let low = self.partition(from, false);
        let high = self.partition(to, true);
        proof {
            lemma_count_below(self@, from as int);
            lemma_count_below(self@, to + 1);
            if high < low {
                assert(self@[high as int].height >= to + 1);
                assert(self@[high as int].height < from);
            }
        }
        if high - low != expected {
            proof {
                if range_complete(self@, from, to) {
                    lemma_all_present(self@, from, to);
                }
            }
            return None;
        }
        proof {
            lemma_no_gap(self@, low as int, from as int, to as int);
        }
        let mut selected: Vec<FrontierUpdate> = Vec::with_capacity(expected);
        let mut i: usize = low;
        while i < high
            invariant
                low <= i <= high <= self@.len(),
                self@ == self.updates@,
                selected@ == self@.subrange(low as int, i as int),
            decreases high - i,
        {
            selected.push(self.updates[i]);
            i += 1;
            assert(self@.subrange(low as int, i as int) =~= self@.subrange(
                low as int,
                i - 1,
            ).push(self@[i - 1]));
        }
        proof {
            assert forall|k: int| 0 <= k < selected@.len() implies (
            #[trigger] selected@[k]).height == from + k && self@.contains(selected@[k]) by {
                assert(selected@[k] == self@[low + k]);
            }
            assert forall|h: int| from <= h <= to implies #[trigger] has_height(self@, h) by {
                assert(self@[low + (h - from)].height == h);
            }
        }
        Some(selected)
    }
}

/// Ascending heights that fill a range exactly have no gap.
proof fn lemma_no_gap(updates: Seq<FrontierUpdate>, low: int, from: int, to: int)
    requires
        heights_ascend(updates),
        0 <= low,
        from <= to,
        low + (to - from) < updates.len(),
        updates[low].height >= from,
        updates[low + (to - from)].height <= to,
    ensures
        forall|i: int| 0 <= i <= to - from ==> (#[trigger] updates[low + i]).height == from + i,
    decreases to - from,
{
    if from < to {
        let top = low + (to - from);
        assert(updates[top - 1].height < updates[top].height);
        lemma_no_gap(updates, low, from, to - 1);
        assert(updates[low + (to - 1 - from)].height == to - 1);
        assert forall|i: int| 0 <= i <= to - from implies (#[trigger] updates[low + i]).height
            == from + i by {
            if i < to - from {
            } else {
                assert(updates[top - 1].height < updates[top].height);
            }
        }
    } else {
        assert forall|i: int| 0 <= i <= to - from implies (#[trigger] updates[low + i]).height
            == from + i by {}
    }
}

/// Where every height of a range is present, the range takes up that many updates.
proof fn lemma_all_present(updates: Seq<FrontierUpdate>, from: u64, to: u64)
    requires
        heights_ascend(updates),
        range_complete(updates, from, to),
    ensures
        count_below(updates, to + 1) - count_below(updates, from as int) == to - from + 1,
    decreases to - from,
{
    lemma_count_below(updates, to + 1);
    lemma_count_below(updates, to as int);
    assert(has_height(updates, to as int));
    let at = choose|i: int| 0 <= i < updates.len() && (#[trigger] updates[i]).height == to;
    let below = count_below(updates, to as int);
    let upto = count_below(updates, to + 1);
    assert(below <= at);
    assert(at < upto);
    if below < at {
        assert(updates[below].height < updates[at].height);
    }
    if at + 1 < upto {
        assert(updates[at].height < updates[at + 1].height);
    }
    if from < to {
        assert(range_complete(updates, from, (to - 1) as u64));
        lemma_all_present(updates, from, (to - 1) as u64);
    }
}

/// Once an update has arrived it is the newest, and nothing at or above its
/// height is left of what was there.
pub proof fn law_pushed_is_newest(updates: Seq<FrontierUpdate>, update: FrontierUpdate)
    requires
        heights_ascend(updates),
        updates.len() <= 2_000,
    ensures
        pushed(updates, update).len() > 0,
        pushed(updates, update).last() == update,
        pushed(updates, update).len() <= 2_000,
        forall|i: int|
            0 <= i < pushed(updates, update).len() - 1 ==> (#[trigger] pushed(
                updates,
                update,
            )[i]).height < update.height,
{
    lemma_count_below(updates, update.height as int);
    let keep = count_below(updates, update.height as int);
    let longer = updates.take(keep).push(update);
    assert forall|i: int| 0 <= i < longer.len() - 1 implies (#[trigger] longer[i]).height
        < update.height by {
        assert(longer[i] == updates[i]);
    }
    if longer.len() > 2_000 {
        assert forall|i: int| 0 <= i < longer.drop_first().len() - 1 implies (
        #[trigger] longer.drop_first()[i]).height < update.height by {
            assert(longer.drop_first()[i] == longer[i + 1]);
        }
    }
}

/// After a rollback no frontier above the height is left.
pub proof fn law_rollback_drops_higher(updates: Seq<FrontierUpdate>, height: u64, h: int)
    requires
        heights_ascend(updates),
    ensures
        has_height(cut_above(updates, height), h) <==> has_height(updates, h) && h <= height,
{
    lemma_count_below(updates, height + 1);
    let cut = cut_above(updates, height);
    if has_height(cut, h) {
        let i = choose|i: int| 0 <= i < cut.len() && (#[trigger] cut[i]).height == h;
        assert(updates[i].height == h);
    }
    if has_height(updates, h) && h <= height {
        let i = choose|i: int| 0 <= i < updates.len() && (#[trigger] updates[i]).height == h;
        assert(cut[i].height == h);
    }
}

/// In ascending updates those below a height come first.
proof fn lemma_below_is_filter(updates: Seq<FrontierUpdate>, height: int)
    requires
        heights_ascend(updates),
    ensures
        updates.take(count_below(updates, height)) == updates.filter(
            |update: FrontierUpdate| update.height < height,
        ),
    decreases updates.len(),
{
    reveal(Seq::filter);
    let low = |update: FrontierUpdate| update.height < height;
    lemma_count_below(updates, height);
    if updates.len() > 0 {
        let less = updates.drop_last();
        assert(heights_ascend(less)) by {
            assert forall|i: int, j: int| 0 <= i < j < less.len() implies (
            #[trigger] less[i]).height < (#[trigger] less[j]).height by {
                assert(updates[i].height < updates[j].height);
            }
        }
        lemma_below_is_filter(less, height);
        lemma_count_below(less, height);
        if updates.last().height < height {
            let last = updates.len() - 1;
            if count_below(less, height) < less.len() {
                let k = count_below(less, height);
                assert(less[k].height >= height);
                assert(updates[k].height < updates[last].height);
            }
            assert(less.take(less.len() as int) =~= less);
            assert(updates.take(updates.len() as int) =~= updates);
            assert(less.push(updates.last()) =~= updates);
        } else {
            assert(updates.take(count_below(less, height)) =~= less.take(
                count_below(less, height),
            ));
        }
    } else {
        assert(updates.take(0) =~= Seq::empty());
    }
}

/// An update that arrives stands after all older ones below it, and of them the
/// last 2,000 are kept.
pub proof fn law_push_keeps_the_last_updates(
    updates: Seq<FrontierUpdate>,
    update: FrontierUpdate,
)
    requires
        heights_ascend(updates),
        updates.len() <= 2_000,
    ensures
        ({
            let all = updates.filter(
                |older: FrontierUpdate| older.height < update.height as int,
            ).push(update);
            pushed(updates, update) == (if all.len() > 2_000 {
                all.skip(all.len() - 2_000)
            } else {
                all
            })
        }),
{
    lemma_below_is_filter(updates, update.height as int);
    lemma_count_below(updates, update.height as int);
    let all = updates.take(count_below(updates, update.height as int)).push(update);
    if all.len() > 2_000 {
        assert(all.drop_first() =~= all.skip(1));
    }
}

/// A rollback keeps exactly the updates up to its height, in order.
pub proof fn law_rollback_keeps_lower_updates(updates: Seq<FrontierUpdate>, height: u64)
    requires
        heights_ascend(updates),
    ensures
        cut_above(updates, height) == updates.filter(
            |update: FrontierUpdate| update.height < height + 1,
        ),
{
    lemma_below_is_filter(updates, height + 1);
}

/// A range is told exactly when it is not empty, has at most 2,000 heights, and
/// each of them has an update.
pub proof fn law_range_is_told_when_complete(
    updates: Seq<FrontierUpdate>,
    from: u64,
    to: u64,
    height: int,
)
    ensures
        range_complete(updates, from, to) <==> from <= to && to - from + 1 <= 2_000 && forall|
            h: int,
        |
            from <= h <= to ==> #[trigger] has_height(updates, h),
        has_height(updates, height) <==> exists|i: int|
            0 <= i < updates.len() && (#[trigger] updates[i]).height == height,
{
}

} // verus!
