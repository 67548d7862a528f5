//! The abstract state of the nullifier table and its transitions.

use super::types::Nullifier;
use crate::bytes::Hash32;
use vstd::prelude::*;
#[allow(unused_imports)]
use super::cells::{all_cleared, all_fit, all_placed, cell_count, places_for, valid_places};

verus! {

/// What the table remembers of a block: its hash and the places its nullifiers took.
#[verifier::ext_equal]
pub struct BlockView {
    pub hash: Hash32,
    pub slots: Seq<(u32, u8)>,
}

/// The table as mathematics sees it.
#[verifier::ext_equal]
pub struct TableView {
    /// All cells, bucket after bucket.
    pub cells: Seq<Nullifier>,
    /// The blocks held, by height.
    pub blocks: Map<u64, BlockView>,
    /// The height last given for each block hash.
    pub heights: Map<Hash32, u64>,
    /// The number of entries.
    pub count: nat,
}

/// The number of places that the blocks of a map remember.
pub open spec fn total_slots(blocks: Map<u64, BlockView>) -> nat
    decreases blocks.dom().len(),
    when blocks.dom().finite()
{
    if blocks.dom().len() == 0 {
        0
    } else {
        let height = blocks.dom().choose();
        blocks[height].slots.len() + total_slots(blocks.remove(height))
    }
}

/// What holds of every table: the cells are all there, remembered places name
/// cells, and no more places are remembered than there are entries.
pub open spec fn state_wf(v: TableView) -> bool {
    &&& v.cells.len() == cell_count()
    &&& v.blocks.dom().finite()
    &&& forall|h: u64| #[trigger] v.blocks.contains_key(h) ==> valid_places(v.blocks[h].slots)
    &&& total_slots(v.blocks) <= v.count
}

/// The empty table.
pub open spec fn empty_state() -> TableView {
    TableView {
        cells: Seq::new(cell_count() as nat, |i: int| super::cells::vacant()),
        blocks: Map::empty(),
        heights: Map::empty(),
        count: 0,
    }
}

/// The table once a block has been inserted.
pub open spec fn inserted(
    v: TableView,
    height: u64,
    hash: Hash32,
    nfs: Seq<Nullifier>,
) -> TableView {
    TableView {
        cells: all_placed(v.cells, nfs),
        blocks: v.blocks.insert(height, BlockView { hash, slots: places_for(v.cells, nfs) }),
        heights: v.heights.insert(hash, height),
        count: v.count + nfs.len(),
    }
}

/// Whether a block can be rolled back by its hash: the hash has a height, and
/// a block is held at that height.
pub open spec fn can_roll_back(v: TableView, hash: Hash32) -> bool {
    v.heights.contains_key(hash) && v.blocks.contains_key(v.heights[hash])
}

/// The table once a block has been rolled back by its hash. The hash is
/// forgotten even where no block is held at its height.
pub open spec fn rolled_back(v: TableView, hash: Hash32) -> TableView {
    if can_roll_back(v, hash) {
        let height = v.heights[hash];
        TableView {
            cells: all_cleared(v.cells, v.blocks[height].slots),
            blocks: v.blocks.remove(height),
            heights: v.heights.remove(hash),
            count: (v.count - v.blocks[height].slots.len()) as nat,
        }
    } else {
        TableView { heights: v.heights.remove(hash), ..v }
    }
}

/// Whether `height` is the lowest height held.
pub open spec fn is_lowest(v: TableView, height: u64) -> bool {
    v.blocks.contains_key(height) && forall|h: u64| #[trigger]
        v.blocks.contains_key(h) ==> height <= h
}

/// Whether `height` is the highest height held.
pub open spec fn is_highest(v: TableView, height: u64) -> bool {
    v.blocks.contains_key(height) && forall|h: u64| #[trigger]
        v.blocks.contains_key(h) ==> h <= height
}

/// The lowest height held.
pub open spec fn lowest(v: TableView) -> u64 {
    choose|height: u64| is_lowest(v, height)
}

/// The highest height held.
pub open spec fn highest(v: TableView) -> u64 {
    choose|height: u64| is_highest(v, height)
}

/// Whether no block is held.
pub open spec fn no_blocks(v: TableView) -> bool {
    v.blocks == Map::<u64, BlockView>::empty()
}

/// Whether the oldest block can be evicted.
pub open spec fn can_evict(v: TableView) -> bool {
    !no_blocks(v) && can_roll_back(v, v.blocks[lowest(v)].hash)
}

/// The table once its oldest block has been rolled back by its hash.
pub open spec fn evicted(v: TableView) -> TableView {
    if no_blocks(v) {
        v
    } else {
        rolled_back(v, v.blocks[lowest(v)].hash)
    }
}

/// The table once oldest blocks have been evicted until at most `target`
/// entries are left, or no more can be evicted.
pub open spec fn evicted_to(v: TableView, target: nat) -> TableView
    decreases v.blocks.dom().len(),
    when v.blocks.dom().finite()
{
    if v.count <= target {
        v
    } else if can_evict(v) {
        proof {
            lemma_rollback_shrinks(v, v.blocks[lowest(v)].hash);
        }
        evicted_to(evicted(v), target)
    } else {
        evicted(v)
    }
}

/// The table once the highest blocks above `height` have been rolled back by
/// their hashes, up to the first that cannot be.
pub open spec fn rewound(v: TableView, height: u64) -> TableView
    decreases v.blocks.dom().len(),
    when v.blocks.dom().finite()
{
    if no_blocks(v) || highest(v) <= height {
        v
    } else if can_roll_back(v, v.blocks[highest(v)].hash) {
        proof {
            lemma_rollback_shrinks(v, v.blocks[highest(v)].hash);
        }
        rewound(rolled_back(v, v.blocks[highest(v)].hash), height)
    } else {
        rolled_back(v, v.blocks[highest(v)].hash)
    }
}

/// Whether rewinding to `height` ends with every block above it rolled back.
pub open spec fn can_rewind(v: TableView, height: u64) -> bool
    decreases v.blocks.dom().len(),
    when v.blocks.dom().finite()
{
    if no_blocks(v) || highest(v) <= height {
        true
    } else if can_roll_back(v, v.blocks[highest(v)].hash) {
        proof {
            lemma_rollback_shrinks(v, v.blocks[highest(v)].hash);
        }
        can_rewind(rolled_back(v, v.blocks[highest(v)].hash), height)
    } else {
        false
    }
}

/// A block that is rolled back is held no more, so fewer are.
pub proof fn lemma_rollback_shrinks(v: TableView, hash: Hash32)
    requires
        v.blocks.dom().finite(),
        can_roll_back(v, hash),
    ensures
        rolled_back(v, hash).blocks.dom().finite(),
        rolled_back(v, hash).blocks.dom().len() + 1 == v.blocks.dom().len(),
{
    let height = v.heights[hash];
    assert(v.blocks.dom().contains(height));
    assert(v.blocks.remove(height).dom() =~= v.blocks.dom().remove(height));
}

/// The slots of a block count once, whichever block is taken out first.
pub proof fn lemma_total_remove(blocks: Map<u64, BlockView>, height: u64)
    requires
        blocks.dom().finite(),
        blocks.contains_key(height),
    ensures
        total_slots(blocks) == blocks[height].slots.len() + total_slots(blocks.remove(height)),
    decreases blocks.dom().len(),
{
    assert(blocks.dom().contains(height));
    assert(blocks.dom().len() > 0) by {
        if blocks.dom().len() == 0 {
            assert(blocks.dom() =~= Set::empty());
        }
    }
    let chosen = blocks.dom().choose();
    assert(blocks.dom().contains(chosen));
    if chosen != height {
        let smaller = blocks.remove(chosen);
        assert(smaller.dom() =~= blocks.dom().remove(chosen));
        lemma_total_remove(smaller, height);
        let other = blocks.remove(height);
        assert(other.dom() =~= blocks.dom().remove(height));
        lemma_total_remove(other, chosen);
        assert(smaller.remove(height) =~= other.remove(chosen));
    }
}

pub proof fn lemma_total_insert(blocks: Map<u64, BlockView>, height: u64, block: BlockView)
    requires
        blocks.dom().finite(),
    ensures
        blocks.insert(height, block).dom().finite(),
        total_slots(blocks.insert(height, block)) <= total_slots(blocks) + block.slots.len(),
        !blocks.contains_key(height) ==> total_slots(blocks.insert(height, block)) == total_slots(
            blocks,
        ) + block.slots.len(),
{
    let more = blocks.insert(height, block);
    assert(more.dom() =~= blocks.dom().insert(height));
    lemma_total_remove(more, height);
    assert(more.remove(height) =~= blocks.remove(height));
    if blocks.contains_key(height) {
        lemma_total_remove(blocks, height);
    } else {
        assert(blocks.remove(height) =~= blocks);
    }
}

pub proof fn lemma_empty_total()
    ensures
        total_slots(Map::<u64, BlockView>::empty()) == 0,
{
    assert(Map::<u64, BlockView>::empty().dom() =~= Set::empty());
}

/// Inserting a block keeps the table well formed.
pub proof fn lemma_inserted_wf(v: TableView, height: u64, hash: Hash32, nfs: Seq<Nullifier>)
    requires
        state_wf(v),
        all_fit(v.cells, nfs),
    ensures
        state_wf(inserted(v, height, hash, nfs)),
{
    super::cells::lemma_all_placed(v.cells, nfs);
    lemma_total_insert(v.blocks, height, BlockView { hash, slots: places_for(v.cells, nfs) });
}

/// Rolling a block back keeps the table well formed.
pub proof fn lemma_rolled_back_wf(v: TableView, hash: Hash32)
    requires
        state_wf(v),
    ensures
        state_wf(rolled_back(v, hash)),
        can_roll_back(v, hash) ==> v.blocks[v.heights[hash]].slots.len() <= v.count,
        can_roll_back(v, hash) ==> rolled_back(v, hash).blocks.dom().len() + 1
            == v.blocks.dom().len(),
{
    if can_roll_back(v, hash) {
        let height = v.heights[hash];
        assert(v.blocks.contains_key(height));
        lemma_total_remove(v.blocks, height);
        super::cells::lemma_all_cleared(v.cells, v.blocks[height].slots);
        assert(v.blocks.remove(height).dom() =~= v.blocks.dom().remove(height));
    }
}

/// A finite set of heights that is not empty has a lowest and a highest member.
proof fn lemma_extremes(s: Set<u64>) -> (r: (u64, u64))
    requires
        s.finite(),
        s.len() > 0,
    ensures
        s.contains(r.0),
        s.contains(r.1),
        forall|h: u64| #[trigger] s.contains(h) ==> r.0 <= h && h <= r.1,
    decreases s.len(),
{
    let one = s.choose();
    let rest = s.remove(one);
    if rest.len() == 0 {
        assert forall|h: u64| #[trigger] s.contains(h) implies one == h by {
            if h != one {
                assert(rest.contains(h));
                assert(rest =~= Set::empty());
            }
        }
        (one, one)
    } else {
        let (low, high) = lemma_extremes(rest);
        assert forall|h: u64| #[trigger] s.contains(h) implies h == one || rest.contains(h) by {}
        (
            if one < low {
                one
            } else {
                low
            },
            if one > high {
                one
            } else {
                high
            },
        )
    }
}

/// A table that holds a block has a lowest and a highest one.
pub proof fn lemma_has_extremes(v: TableView)
    requires
        v.blocks.dom().finite(),
        !no_blocks(v),
    ensures
        is_lowest(v, lowest(v)),
        is_highest(v, highest(v)),
        forall|h: u64| is_lowest(v, h) ==> h == lowest(v),
        forall|h: u64| is_highest(v, h) ==> h == highest(v),
{
    if v.blocks.dom().len() == 0 {
        assert(v.blocks.dom() =~= Set::empty());
        assert(v.blocks =~= Map::<u64, BlockView>::empty());
    }
    let (low, high) = lemma_extremes(v.blocks.dom());
    assert forall|h: u64| #[trigger] v.blocks.contains_key(h) implies low <= h && h <= high by {
        assert(v.blocks.dom().contains(h));
    }
    assert(is_lowest(v, low));
    assert(is_highest(v, high));
}

/// Evicting keeps the table well formed, and takes one block where it can.
pub proof fn lemma_evicted_wf(v: TableView)
    requires
        state_wf(v),
    ensures
        state_wf(evicted(v)),
        can_evict(v) ==> evicted(v).blocks.dom().len() + 1 == v.blocks.dom().len(),
{
    if !no_blocks(v) {
        lemma_rolled_back_wf(v, v.blocks[lowest(v)].hash);
    }
}

} // verus!
