//! When to report progress, when to save, and what to sync.

use crate::ingest::ironwood::nu6_3_activation_height;
use crate::protocol::{ServerPhase, ZcashNetwork};
use vstd::prelude::*;
#[allow(unused_imports)]
use crate::ingest::ironwood::activation_height;

verus! {

/// Blocks synced at a time while filling up backwards.
pub const BACKFILL_BATCH: u64 = 50_000;

/// The phase to report after a block of a sync: every thousandth height.
pub fn sync_progress(height: u64, target_height: u64) -> (r: Option<ServerPhase>)
    ensures
        height % 1_000 != 0 ==> r is None,
        height % 1_000 == 0 ==> r == Some(
            ServerPhase::Syncing { current_height: height, target_height },
        ),
{
    if height % 1_000 == 0 {
        Some(ServerPhase::Syncing { current_height: height, target_height })
    } else {
        None
    }
}

/// The height up to which the chain counts as confirmed.
pub fn confirmed_height(tip_height: u64, depth: u64) -> (height: u64)
    ensures
        height == (if tip_height >= depth {
            tip_height - depth
        } else {
            0
        }),
{
    if tip_height >= depth {
        tip_height - depth
    } else {
        0
    }
}

/// Blocks since the last snapshot.
pub struct SnapshotCounter {
    pub since: u64,
}

impl SnapshotCounter {
    pub fn new() -> (counter: Self)
        ensures
            counter.since == 0,
    {
        SnapshotCounter { since: 0 }
    }

    /// Counts a block, up to the largest number there is.
    pub fn count(&mut self)
        ensures
            final(self).since == (if old(self).since < u64::MAX {
                old(self).since + 1
            } else {
                u64::MAX as int
            }),
    {
        if self.since < u64::MAX {
            self.since = self.since + 1;
        }
    }

    /// Whether a snapshot is due; if it is, counting starts over.
    pub fn take_due(&mut self, interval: u64) -> (due: bool)
        ensures
            due == (old(self).since >= interval),
            final(self).since == (if due {
                0
            } else {
                old(self).since
            }),
    {
        if self.since >= interval {
            self.since = 0;
            true
        } else {
            false
        }
    }
}

/// The height after the last one held, or else the activation height.
pub fn resume_from(latest: Option<u64>, network: ZcashNetwork) -> (height: u64)
    requires
        latest != Some(u64::MAX),
    ensures
        height == (match latest {
            Some(latest) => latest + 1,
            None => activation_height(network) as int,
        }),
{
    match latest {
        Some(latest) => latest + 1,
        None => nu6_3_activation_height(network),
    }
}

/// The lowest height worth syncing: activation, where the chain has got there.
pub open spec fn sync_floor(target_height: u64, network: ZcashNetwork) -> u64 {
    if target_height >= activation_height(network) {
        activation_height(network)
    } else {
        1
    }
}

/// The lowest height worth syncing.
pub fn min_sync_height(tip_height: u64, network: ZcashNetwork) -> (height: u64)
    ensures
        height == sync_floor(tip_height, network),
{
    let activation: u64 = nu6_3_activation_height(network);
    if tip_height >= activation {
        activation
    } else {
        1
    }
}

/// Where syncing starts: after what a snapshot holds, or a batch before the
/// target but not below the floor.
pub open spec fn forward_from(
    from_snapshot: bool,
    latest: Option<u64>,
    target_height: u64,
    network: ZcashNetwork,
) -> int {
    if from_snapshot {
        match latest {
            Some(latest) => latest + 1,
            None => target_height as int,
        }
    } else {
        let initial = if target_height >= 50_000 {
            target_height - 50_000
        } else {
            0
        };
        let floor = sync_floor(target_height, network) as int;
        if initial >= floor {
            initial
        } else {
            floor
        }
    }
}

/// Where syncing starts.
pub fn forward_start(
    from_snapshot: bool,
    latest: Option<u64>,
    target_height: u64,
    network: ZcashNetwork,
) -> (height: u64)
    requires
        latest != Some(u64::MAX),
    ensures
        height == forward_from(from_snapshot, latest, target_height, network),
{
    if from_snapshot {
        match latest {
            Some(latest) => latest + 1,
            None => target_height,
        }
    } else {
        let initial: u64 = if target_height >= BACKFILL_BATCH {
            target_height - BACKFILL_BATCH
        } else {
            0
        };
        let floor: u64 = min_sync_height(target_height, network);
        if initial >= floor {
            initial
        } else {
            floor
        }
    }
}

/// Where a shared sync of both subsystems starts: at the lower of the heights
/// that each still needs, unless both lie above the target.
pub fn shared_start(nullifier_from: u64, witness_from: u64, target_height: u64) -> (r: Option<u64>)
    ensures
        r is Some <==> nullifier_from <= target_height || witness_from <= target_height,
        r matches Some(height) ==> (height == nullifier_from || height == witness_from) && height
            <= nullifier_from && height <= witness_from,
{
    let lower: u64 = if nullifier_from <= witness_from {
        nullifier_from
    } else {
        witness_from
    };
    if lower <= target_height {
        Some(lower)
    } else {
        None
    }
}

/// Filling up backwards, batch after batch, down to a floor.
pub struct Backfill {
    pub end: u64,
    pub floor: u64,
    pub done: bool,
}

/// The first height of the batch that ends at `end`.
pub open spec fn backfill_first(end: u64, floor: u64) -> u64 {
    if end >= 49_999 && end - 49_999 >= floor {
        (end - 49_999) as u64
    } else {
        floor
    }
}

/// Whether there is anything left to fill up with.
pub open spec fn backfill_left(b: Backfill) -> bool {
    !b.done && b.end >= b.floor
}

impl Backfill {
    /// Fills up below `forward_start`, down to `floor`.
    pub fn new(forward_start: u64, floor: u64) -> (backfill: Self)
        ensures
            backfill == (Backfill {
                end: if forward_start > 0 {
                    (forward_start - 1) as u64
                } else {
                    0
                },
                floor,
                done: false,
            }),
    {
        let end: u64 = if forward_start > 0 {
            forward_start - 1
        } else {
            0
        };
        Backfill { end, floor, done: false }
    }

    /// The next range to sync, while fewer than `target_size` entries are held.
    pub fn next_range(&self, held: usize, target_size: usize) -> (r: Option<(u64, u64)>)
        ensures
            r is Some <==> held < target_size && backfill_left(*self),
            r matches Some((first, last)) ==> first == backfill_first(self.end, self.floor) && last
                == self.end && self.floor <= first <= last,
    {
        if held >= target_size || self.done || self.end < self.floor {
            return None;
        }
        let first: u64 = if self.end >= BACKFILL_BATCH - 1 && self.end - (BACKFILL_BATCH - 1)
            >= self.floor {
            self.end - (BACKFILL_BATCH - 1)
        } else {
            self.floor
        };
        Some((first, self.end))
    }

    /// Goes on below the range that was synced.
    pub fn advance(&mut self)
        requires
            backfill_left(*old(self)),
        ensures
            final(self).floor == old(self).floor,
            ({
                let first = backfill_first(old(self).end, old(self).floor);
                &&& final(self).done == (first == old(self).floor)
                &&& final(self).end == (if first == old(self).floor {
                    old(self).end as int
                } else {
                    first - 1
                })
            }),
    {
        let first: u64 = if self.end >= BACKFILL_BATCH - 1 && self.end - (BACKFILL_BATCH - 1)
            >= self.floor {
            self.end - (BACKFILL_BATCH - 1)
        } else {
            self.floor
        };
        if first == self.floor {
            self.done = true;
        } else {
            self.end = first - 1;
        }
    }
}

/// The next range ends right below the one before it, so that going backwards
/// neither skips nor repeats a height; and the range that reaches the floor is
/// the last.
pub proof fn law_backfill_descends(b: Backfill, next: Backfill)
    requires
        backfill_left(b),
        next.floor == b.floor,
        next.done == (backfill_first(b.end, b.floor) == b.floor),
        next.end == (if backfill_first(b.end, b.floor) == b.floor {
            b.end as int
        } else {
            backfill_first(b.end, b.floor) - 1
        }),
    ensures
        backfill_left(next) ==> next.end + 1 == backfill_first(b.end, b.floor) && next.end < b.end,
        !backfill_left(next) ==> backfill_first(b.end, b.floor) == b.floor,
{
}

} // verus!
