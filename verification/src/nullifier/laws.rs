//! What holds of the table across operations.

use super::types::Nullifier;
use crate::bytes::Hash32;
use vstd::prelude::*;
#[allow(unused_imports)]
use super::cells::{
    all_cleared, all_fit, all_placed, bucket_cells, cell_count, cell_index, demand,
    distinct_places, first_free, free_in, has_room, held, lemma_all_cleared, lemma_all_placed,
    lemma_all_placed_distinct, lemma_all_placed_held, lemma_bucket_range, lemma_clear_undoes_place,
    lemma_count_update, lemma_count_witness, lemma_place, place_index, placed, places_for, vacant,
    valid_place,
};
#[allow(unused_imports)]
use super::state::{
    can_rewind, can_roll_back, empty_state, evicted, evicted_to, highest, inserted,
    lemma_empty_total, lemma_has_extremes, lemma_inserted_wf, lemma_rollback_shrinks,
    lemma_rolled_back_wf, lemma_total_insert, lemma_total_remove, lowest, no_blocks, rewound,
    rolled_back, state_wf, total_slots, BlockView, TableView,
};
#[allow(unused_imports)]
use super::types::bucket_of;

verus! {

/// Rolling back the block just inserted restores cells, blocks and count, when
/// no block was held at its height; and the whole table, when its hash was not
/// known either.
pub proof fn law_rollback_undoes_insert(
    v: TableView,
    height: u64,
    hash: Hash32,
    nfs: Seq<Nullifier>,
)
    requires
        state_wf(v),
        all_fit(v.cells, nfs),
        !v.blocks.contains_key(height),
    ensures
        can_roll_back(inserted(v, height, hash, nfs), hash),
        rolled_back(inserted(v, height, hash, nfs), hash) == (TableView {
            heights: v.heights.remove(hash),
            ..v
        }),
        !v.heights.contains_key(hash) ==> rolled_back(inserted(v, height, hash, nfs), hash) == v,
{
    lemma_clear_undoes_place(v.cells, nfs);
    lemma_all_placed(v.cells, nfs);
    let back = rolled_back(inserted(v, height, hash, nfs), hash);
    assert(back.blocks =~= v.blocks);
    assert(back.heights =~= v.heights.remove(hash));
    if !v.heights.contains_key(hash) {
        assert(back.heights =~= v.heights);
    }
}

proof fn lemma_slack_stays(cells: Seq<Nullifier>, nfs: Seq<Nullifier>, bucket: int)
    requires
        cells.len() == cell_count(),
        all_fit(cells, nfs),
        0 <= bucket < 16_384,
        demand(nfs, bucket) < free_in(cells, bucket),
    ensures
        free_in(all_placed(cells, nfs), bucket) > 0,
    decreases nfs.len(),
{
    if nfs.len() > 0 {
        lemma_place(cells, nfs);
        lemma_one_step(cells, nfs, bucket);
        lemma_slack_stays(placed(cells, nfs[0]), nfs.drop_first(), bucket);
    }
}

proof fn lemma_one_step(cells: Seq<Nullifier>, nfs: Seq<Nullifier>, bucket: int)
    requires
        cells.len() == cell_count(),
        nfs.len() > 0,
        all_fit(cells, nfs),
        0 <= bucket < 16_384,
    ensures
        free_in(placed(cells, nfs[0]), bucket) == free_in(cells, bucket) - (if bucket_of(nfs[0])
            == bucket && nfs[0] != vacant() {
            1int
        } else {
            0int
        }),
{
    lemma_place(cells, nfs);
    lemma_bucket_range(nfs[0]);
    let after = placed(cells, nfs[0]);
    let slot = first_free(cells, bucket_of(nfs[0]));
    if bucket == bucket_of(nfs[0]) {
        assert(bucket_cells(after, bucket) =~= bucket_cells(cells, bucket).update(slot, nfs[0]));
        lemma_count_update(bucket_cells(cells, bucket), slot, nfs[0]);
    } else {
        assert(bucket_cells(after, bucket) =~= bucket_cells(cells, bucket));
    }
}

proof fn lemma_vacant_leaves_room(cells: Seq<Nullifier>, nfs: Seq<Nullifier>, i: int)
    requires
        cells.len() == cell_count(),
        all_fit(cells, nfs),
        0 <= i < nfs.len(),
        nfs[i] == vacant(),
    ensures
        free_in(all_placed(cells, nfs), bucket_of(vacant())) > 0,
    decreases nfs.len(),
{
    let home = bucket_of(vacant());
    lemma_bucket_range(vacant());
    lemma_place(cells, nfs);
    if i == 0 {
        lemma_one_step(cells, nfs, home);
        assert(has_room(cells, nfs, home));
        lemma_slack_stays(placed(cells, nfs[0]), nfs.drop_first(), home);
    } else {
        assert(nfs.drop_first()[i - 1] == nfs[i]);
        lemma_vacant_leaves_room(placed(cells, nfs[0]), nfs.drop_first(), i - 1);
    }
}

/// Every nullifier of a block is found once the block is inserted.
pub proof fn law_inserted_are_found(
    v: TableView,
    height: u64,
    hash: Hash32,
    nfs: Seq<Nullifier>,
    i: int,
)
    requires
        state_wf(v),
        all_fit(v.cells, nfs),
        0 <= i < nfs.len(),
    ensures
        held(inserted(v, height, hash, nfs).cells, nfs[i]),
{
    if nfs[i] == vacant() {
        let after = all_placed(v.cells, nfs);
        let home = bucket_of(nfs[i]);
        lemma_bucket_range(nfs[i]);
        lemma_vacant_leaves_room(v.cells, nfs, i);
        lemma_all_placed(v.cells, nfs);
        let row = bucket_cells(after, home);
        let slot = lemma_count_witness(row);
        assert(row[slot] == after[cell_index(home, slot)]);
    } else {
        lemma_all_placed_held(v.cells, nfs, i);
    }
}

/// Inserting a block loses no nullifier that was found before; the all-zero
/// one, which stands for a free cell, is left out.
pub proof fn law_insert_keeps_found(
    v: TableView,
    height: u64,
    hash: Hash32,
    nfs: Seq<Nullifier>,
    nf: Nullifier,
)
    requires
        state_wf(v),
        all_fit(v.cells, nfs),
        held(v.cells, nf),
        nf != vacant(),
    ensures
        held(inserted(v, height, hash, nfs).cells, nf),
{
    lemma_all_placed(v.cells, nfs);
    lemma_bucket_range(nf);
    let slot = choose|slot: int|
        0 <= slot < 112 && #[trigger] v.cells[cell_index(bucket_of(nf), slot)] == nf;
    let at = cell_index(bucket_of(nf), slot);
    assert(all_placed(v.cells, nfs)[at] == v.cells[at]);
}

/// Inserting a block adds no nullifier but its own.
pub proof fn law_insert_adds_only_its_own(
    v: TableView,
    height: u64,
    hash: Hash32,
    nfs: Seq<Nullifier>,
    nf: Nullifier,
)
    requires
        state_wf(v),
        all_fit(v.cells, nfs),
        held(inserted(v, height, hash, nfs).cells, nf),
    ensures
        held(v.cells, nf) || nfs.contains(nf),
{
    lemma_all_placed(v.cells, nfs);
    lemma_bucket_range(nf);
    let after = all_placed(v.cells, nfs);
    let slot = choose|slot: int|
        0 <= slot < 112 && #[trigger] after[cell_index(bucket_of(nf), slot)] == nf;
    let at = cell_index(bucket_of(nf), slot);
    if after[at] != v.cells[at] {
        let i = choose|i: int|
            0 <= i < nfs.len() && place_index(#[trigger] places_for(v.cells, nfs)[i]) == at
                && after[at] == nfs[i];
        assert(nfs[i] == nf);
    } else {
        assert(v.cells[cell_index(bucket_of(nf), slot)] == nf);
    }
}

/// A block remembers place `i` of `h1` and place `j` of `h2` as different ones.
pub open spec fn apart(v: TableView, h1: u64, i: int, h2: u64, j: int) -> bool {
    v.blocks[h1].slots[i] != v.blocks[h2].slots[j]
}

/// Some block remembers cell `k`.
pub open spec fn remembered(v: TableView, k: int) -> bool {
    exists|h: u64, i: int|
        v.blocks.contains_key(h) && 0 <= i < v.blocks[h].slots.len() && place_index(
            #[trigger] v.blocks[h].slots[i],
        ) == k
}

/// The table that a chain of blocks leaves: hashes and heights agree, every
/// occupied cell belongs to exactly one block and lies in the bucket of what it
/// holds, and the entries are the places that blocks remember.
pub open spec fn sound(v: TableView) -> bool {
    &&& state_wf(v)
    &&& v.count == total_slots(v.blocks)
    &&& forall|h: u64| #[trigger]
        v.blocks.contains_key(h) ==> v.heights.contains_key(v.blocks[h].hash)
            && v.heights[v.blocks[h].hash] == h
    &&& forall|x: Hash32| #[trigger]
        v.heights.contains_key(x) ==> v.blocks.contains_key(v.heights[x])
            && v.blocks[v.heights[x]].hash == x
    &&& forall|h: u64| #[trigger] v.blocks.contains_key(h) ==> distinct_places(v.blocks[h].slots)
    &&& forall|h1: u64, i: int, h2: u64, j: int|
        v.blocks.contains_key(h1) && v.blocks.contains_key(h2) && h1 != h2 && 0 <= i
            < v.blocks[h1].slots.len() && 0 <= j < v.blocks[h2].slots.len() ==> #[trigger] apart(
            v,
            h1,
            i,
            h2,
            j,
        )
    &&& forall|h: u64, i: int|
        v.blocks.contains_key(h) && 0 <= i < v.blocks[h].slots.len() ==> v.cells[place_index(
            #[trigger] v.blocks[h].slots[i],
        )] != vacant()
    &&& forall|k: int|
        0 <= k < cell_count() && #[trigger] v.cells[k] != vacant() ==> remembered(v, k)
    &&& forall|k: int|
        0 <= k < cell_count() && #[trigger] v.cells[k] != vacant() ==> bucket_of(v.cells[k]) == k
            / 112
}

/// The empty table is sound.
pub proof fn law_empty_is_sound()
    ensures
        sound(empty_state()),
{
    lemma_empty_total();
}

/// Inserting a block with a new height, a new hash and no all-zero nullifier
/// keeps the table sound.
pub proof fn law_insert_keeps_sound(
    v: TableView,
    height: u64,
    hash: Hash32,
    nfs: Seq<Nullifier>,
)
    requires
        sound(v),
        all_fit(v.cells, nfs),
        !v.blocks.contains_key(height),
        !v.heights.contains_key(hash),
        !nfs.contains(vacant()),
    ensures
        sound(inserted(v, height, hash, nfs)),
{
    let n = inserted(v, height, hash, nfs);
    assert forall|i: int| 0 <= i < nfs.len() implies #[trigger] nfs[i] != vacant() by {
        assert(nfs.contains(nfs[i]));
    }
    lemma_inserted_wf(v, height, hash, nfs);
    lemma_all_placed(v.cells, nfs);
    lemma_all_placed_distinct(v.cells, nfs);
    let places = places_for(v.cells, nfs);
    lemma_total_insert(v.blocks, height, BlockView { hash, slots: places });
    assert forall|h1: u64, i: int, h2: u64, j: int|
        n.blocks.contains_key(h1) && n.blocks.contains_key(h2) && h1 != h2 && 0 <= i
            < n.blocks[h1].slots.len() && 0 <= j < n.blocks[h2].slots.len() implies #[trigger] apart(
        n,
        h1,
        i,
        h2,
        j,
    ) by {
        if h1 == height {
            assert(v.cells[place_index(v.blocks[h2].slots[j])] != vacant());
            assert(v.cells[place_index(places[i])] == vacant());
        } else if h2 == height {
            assert(v.cells[place_index(v.blocks[h1].slots[i])] != vacant());
            assert(v.cells[place_index(places[j])] == vacant());
        } else {
            assert(apart(v, h1, i, h2, j));
        }
    }
    assert forall|h: u64, i: int|
        n.blocks.contains_key(h) && 0 <= i < n.blocks[h].slots.len() implies n.cells[place_index(
        #[trigger] n.blocks[h].slots[i],
    )] != vacant() by {
        if h == height {
            assert(n.cells[place_index(places[i])] == nfs[i]);
        } else {
            let at = place_index(v.blocks[h].slots[i]);
            assert(v.cells[at] != vacant());
            assert(valid_place(v.blocks[h].slots[i]));
            assert(n.cells[at] == v.cells[at]);
        }
    }
    assert forall|k: int| 0 <= k < cell_count() && #[trigger] n.cells[k] != vacant() implies remembered(
        n,
        k,
    ) by {
        if n.cells[k] != v.cells[k] {
            let i = choose|i: int|
                0 <= i < nfs.len() && place_index(#[trigger] places[i]) == k && n.cells[k]
                    == nfs[i];
            assert(n.blocks[height].slots[i] == places[i]);
        } else {
            assert(remembered(v, k));
            let (h, i) = choose|h: u64, i: int|
                v.blocks.contains_key(h) && 0 <= i < v.blocks[h].slots.len() && place_index(
                    #[trigger] v.blocks[h].slots[i],
                ) == k;
            assert(n.blocks[h].slots[i] == v.blocks[h].slots[i]);
        }
    }
}

/// Rolling a block back empties its own cells and no others, so that what
/// other blocks inserted is still there.
pub proof fn law_rollback_drops_only_its_block(v: TableView, hash: Hash32)
    requires
        sound(v),
        can_roll_back(v, hash),
    ensures
        sound(rolled_back(v, hash)),
        forall|i: int|
            0 <= i < v.blocks[v.heights[hash]].slots.len() ==> rolled_back(
                v,
                hash,
            ).cells[place_index(#[trigger] v.blocks[v.heights[hash]].slots[i])] == vacant(),
        forall|h: u64, i: int|
            h != v.heights[hash] && v.blocks.contains_key(h) && 0 <= i < v.blocks[h].slots.len()
                ==> rolled_back(v, hash).cells[place_index(#[trigger] v.blocks[h].slots[i])]
                == v.cells[place_index(v.blocks[h].slots[i])],
{
    let height = v.heights[hash];
    let n = rolled_back(v, hash);
    let places = v.blocks[height].slots;
    lemma_rolled_back_wf(v, hash);
    lemma_all_cleared(v.cells, places);
    lemma_total_remove(v.blocks, height);
    assert forall|h: u64, i: int|
        h != height && v.blocks.contains_key(h) && 0 <= i < v.blocks[h].slots.len() implies n.cells[place_index(
        #[trigger] v.blocks[h].slots[i],
    )] == v.cells[place_index(v.blocks[h].slots[i])] by {
        let at = place_index(v.blocks[h].slots[i]);
        assert(valid_place(v.blocks[h].slots[i]));
        assert forall|j: int| 0 <= j < places.len() implies place_index(#[trigger] places[j])
            != at by {
            assert(apart(v, h, i, height, j));
            assert(valid_place(places[j]));
        }
    }
    assert forall|h1: u64, i: int, h2: u64, j: int|
        n.blocks.contains_key(h1) && n.blocks.contains_key(h2) && h1 != h2 && 0 <= i
            < n.blocks[h1].slots.len() && 0 <= j < n.blocks[h2].slots.len() implies #[trigger] apart(
        n,
        h1,
        i,
        h2,
        j,
    ) by {
        assert(apart(v, h1, i, h2, j));
    }
    assert forall|h: u64, i: int|
        n.blocks.contains_key(h) && 0 <= i < n.blocks[h].slots.len() implies n.cells[place_index(
        #[trigger] n.blocks[h].slots[i],
    )] != vacant() by {
        assert(v.blocks[h].slots[i] == n.blocks[h].slots[i]);
        assert(v.cells[place_index(v.blocks[h].slots[i])] != vacant());
    }
    assert forall|k: int| 0 <= k < cell_count() && #[trigger] n.cells[k] != vacant() implies remembered(
        n,
        k,
    ) by {
        if v.cells[k] == vacant() {
            assert(all_cleared(v.cells, places)[k] == vacant());
        }
        assert(remembered(v, k));
        let (h, i) = choose|h: u64, i: int|
            v.blocks.contains_key(h) && 0 <= i < v.blocks[h].slots.len() && place_index(
                #[trigger] v.blocks[h].slots[i],
            ) == k;
        if h == height {
            assert(n.cells[place_index(places[i])] == vacant());
        } else {
            assert(n.blocks[h].slots[i] == v.blocks[h].slots[i]);
        }
    }
}

/// In a sound table the oldest block can be evicted, and any block rolled back.
proof fn lemma_sound_can_roll_back(v: TableView, h: u64)
    requires
        sound(v),
        v.blocks.contains_key(h),
    ensures
        can_roll_back(v, v.blocks[h].hash),
        v.heights[v.blocks[h].hash] == h,
{
}

/// Whether `kept` holds exactly the blocks of `all` from `from` up.
pub open spec fn kept_from(
    all: Map<u64, BlockView>,
    kept: Map<u64, BlockView>,
    from: int,
) -> bool {
    &&& forall|h: u64| #[trigger]
        kept.contains_key(h) <==> all.contains_key(h) && from <= h
    &&& forall|h: u64| #[trigger] kept.contains_key(h) ==> kept[h] == all[h]
}

/// Evicting to a size ends at or below that size, and keeps exactly the blocks
/// from some height up.
pub proof fn law_eviction_reaches_target(v: TableView, target: nat) -> (from: int)
    requires
        sound(v),
    ensures
        sound(evicted_to(v, target)),
        evicted_to(v, target).count <= target,
        kept_from(v.blocks, evicted_to(v, target).blocks, from),
    decreases v.blocks.dom().len(),
{
    if v.count <= target {
        0
    } else {
        if no_blocks(v) {
            lemma_empty_total();
        }
        lemma_has_extremes(v);
        let low = lowest(v);
        lemma_sound_can_roll_back(v, low);
        law_rollback_drops_only_its_block(v, v.blocks[low].hash);
        lemma_rollback_shrinks(v, v.blocks[low].hash);
        let from = law_eviction_reaches_target(evicted(v), target);
        let kept = evicted_to(v, target).blocks;
        assert(evicted(v).blocks == v.blocks.remove(low));
        let least: int = if from > low { from } else { low + 1 };
        assert forall|h: u64| #[trigger] kept.contains_key(h) <==> v.blocks.contains_key(h)
            && least <= h by {
            assert(kept.contains_key(h) <==> evicted(v).blocks.contains_key(h) && from <= h);
        }
        least
    }
}

/// A table that is no larger than the target is left as it is.
pub proof fn law_small_table_keeps_everything(v: TableView, target: nat)
    requires
        v.blocks.dom().finite(),
        v.count <= target,
    ensures
        evicted_to(v, target) == v,
{
}

/// Some of the blocks remember no more places than all of them.
proof fn lemma_total_part(blocks: Map<u64, BlockView>, part: Set<u64>)
    requires
        blocks.dom().finite(),
    ensures
        blocks.restrict(part).dom().finite(),
        total_slots(blocks.restrict(part)) <= total_slots(blocks),
    decreases blocks.dom().len(),
{
    let some = blocks.restrict(part);
    assert(some.dom() =~= blocks.dom().intersect(part));
    if blocks.dom().len() == 0 {
        assert(some.dom() =~= Set::empty());
    } else {
        let h = blocks.dom().choose();
        assert(blocks.contains_key(h));
        let less = blocks.remove(h);
        assert(less.dom() =~= blocks.dom().remove(h));
        lemma_total_part(less, part);
        lemma_total_remove(blocks, h);
        if part.contains(h) {
            assert(some.remove(h) =~= less.restrict(part));
            lemma_total_remove(some, h);
        } else {
            assert(some =~= less.restrict(part));
        }
    }
}

/// Eviction takes no more than it must: a block stays exactly when it and the
/// blocks above it have at most `target` entries together. So the kept blocks
/// are the most that fit, and the last block evicted was one too many.
pub proof fn law_eviction_takes_no_more_than_needed(v: TableView, target: nat, h: u64)
    requires
        sound(v),
        v.blocks.contains_key(h),
    ensures
        evicted_to(v, target).blocks.contains_key(h) <==> total_slots(
            v.blocks.restrict(Set::new(|x: u64| h <= x)),
        ) <= target,
        evicted_to(v, target).blocks.contains_key(h) ==> evicted_to(v, target).blocks[h]
            == v.blocks[h],
        !evicted_to(v, target).blocks.contains_key(h) && (forall|x: u64|
            h < x && #[trigger] v.blocks.contains_key(x) ==> evicted_to(
                v,
                target,
            ).blocks.contains_key(x)) ==> evicted_to(v, target).count + v.blocks[h].slots.len()
            > target,
    decreases v.blocks.dom().len(),
{
    let upper = v.blocks.restrict(Set::new(|x: u64| h <= x));
    let end = evicted_to(v, target);
    if v.count <= target {
        lemma_total_part(v.blocks, Set::new(|x: u64| h <= x));
    } else {
        lemma_has_extremes(v);
        let low = lowest(v);
        lemma_sound_can_roll_back(v, low);
        law_rollback_drops_only_its_block(v, v.blocks[low].hash);
        lemma_rollback_shrinks(v, v.blocks[low].hash);
        let next = evicted(v);
        assert(next.blocks == v.blocks.remove(low));
        let from = law_eviction_reaches_target(next, target);
        if h == low {
            assert(upper =~= v.blocks);
            assert(!next.blocks.contains_key(h));
            lemma_total_remove(v.blocks, h);
            if forall|x: u64|
                h < x && #[trigger] v.blocks.contains_key(x) ==> end.blocks.contains_key(x) {
                assert forall|x: u64| #[trigger] next.blocks.contains_key(
                    x,
                ) implies end.blocks.contains_key(x) by {
                    assert(v.blocks.contains_key(x) && x != low);
                    assert(low <= x);
                }
                assert(end.blocks =~= next.blocks);
            }
        } else {
            assert(low <= h);
            assert(upper =~= next.blocks.restrict(Set::new(|x: u64| h <= x)));
            law_eviction_takes_no_more_than_needed(next, target, h);
            assert forall|x: u64| #[trigger] next.blocks.contains_key(
                x,
            ) implies v.blocks.contains_key(x) by {}
        }
    }
}

/// Rewinding a sound table to a height succeeds and keeps exactly the blocks
/// up to that height.
pub proof fn law_rewind_keeps_lower_blocks(v: TableView, height: u64)
    requires
        sound(v),
    ensures
        can_rewind(v, height),
        sound(rewound(v, height)),
        forall|h: u64| #[trigger]
            rewound(v, height).blocks.contains_key(h) <==> v.blocks.contains_key(h) && h <= height,
        forall|h: u64| #[trigger]
            rewound(v, height).blocks.contains_key(h) ==> rewound(v, height).blocks[h]
                == v.blocks[h],
    decreases v.blocks.dom().len(),
{
    if !no_blocks(v) {
        lemma_has_extremes(v);
        let top = highest(v);
        if top > height {
            lemma_sound_can_roll_back(v, top);
            law_rollback_drops_only_its_block(v, v.blocks[top].hash);
            lemma_rollback_shrinks(v, v.blocks[top].hash);
            let next = rolled_back(v, v.blocks[top].hash);
            assert(next.blocks == v.blocks.remove(top));
            law_rewind_keeps_lower_blocks(next, height);
        }
    }
}

/// In any table, inserting a block remembers it under its height and its hash,
/// with one place in its own bucket for each nullifier, counts them, and changes
/// no other block and no cell that held something.
pub proof fn law_insert_in_any_table(
    v: TableView,
    height: u64,
    hash: Hash32,
    nfs: Seq<Nullifier>,
)
    requires
        state_wf(v),
        all_fit(v.cells, nfs),
    ensures
        ({
            let n = inserted(v, height, hash, nfs);
            &&& n.blocks.dom() == v.blocks.dom().insert(height)
            &&& n.blocks.remove(height) == v.blocks.remove(height)
            &&& n.blocks[height].hash == hash
            &&& n.blocks[height].slots.len() == nfs.len()
            &&& n.heights == v.heights.insert(hash, height)
            &&& n.count == v.count + nfs.len()
            &&& n.cells.len() == v.cells.len()
            &&& forall|i: int|
                0 <= i < nfs.len() ==> (#[trigger] n.blocks[height].slots[i]).0 == bucket_of(
                    nfs[i],
                ) && v.cells[place_index(n.blocks[height].slots[i])] == vacant()
            &&& forall|k: int|
                0 <= k < v.cells.len() && v.cells[k] != vacant() ==> #[trigger] n.cells[k]
                    == v.cells[k]
            &&& !nfs.contains(vacant()) ==> forall|i: int|
                0 <= i < nfs.len() ==> n.cells[place_index(#[trigger] n.blocks[height].slots[i])]
                    == nfs[i]
        }),
{
    let n = inserted(v, height, hash, nfs);
    lemma_all_placed(v.cells, nfs);
    assert(n.blocks.dom() =~= v.blocks.dom().insert(height));
    assert(n.blocks.remove(height) =~= v.blocks.remove(height));
    if !nfs.contains(vacant()) {
        assert forall|i: int| 0 <= i < nfs.len() implies #[trigger] nfs[i] != vacant() by {
            assert(nfs.contains(nfs[i]));
        }
        lemma_all_placed_distinct(v.cells, nfs);
    }
}

/// In any table, a block whose hash and height are known can be rolled back:
/// its places are emptied, it is forgotten and no longer counted, and nothing else
/// changes. Otherwise nothing but the hash is forgotten.
pub proof fn law_rollback_in_any_table(v: TableView, hash: Hash32)
    requires
        state_wf(v),
    ensures
        can_roll_back(v, hash) <==> v.heights.contains_key(hash) && v.blocks.contains_key(
            v.heights[hash],
        ),
        rolled_back(v, hash).heights == v.heights.remove(hash),
        can_roll_back(v, hash) ==> ({
            let n = rolled_back(v, hash);
            let places = v.blocks[v.heights[hash]].slots;
            &&& n.blocks == v.blocks.remove(v.heights[hash])
            &&& n.count + places.len() == v.count
            &&& n.cells.len() == v.cells.len()
            &&& forall|i: int|
                0 <= i < places.len() ==> n.cells[place_index(#[trigger] places[i])] == vacant()
            &&& forall|k: int|
                0 <= k < v.cells.len() && (forall|i: int|
                    0 <= i < places.len() ==> place_index(#[trigger] places[i]) != k)
                    ==> #[trigger] n.cells[k] == v.cells[k]
        }),
        !can_roll_back(v, hash) ==> rolled_back(v, hash).cells == v.cells && rolled_back(
            v,
            hash,
        ).blocks == v.blocks && rolled_back(v, hash).count == v.count,
{
    if can_roll_back(v, hash) {
        let places = v.blocks[v.heights[hash]].slots;
        lemma_rolled_back_wf(v, hash);
        lemma_all_cleared(v.cells, places);
    }
}

/// The lowest and the highest height are those of blocks that are held, and no
/// block lies below or above.
pub proof fn law_extremes_are_held(v: TableView, h: u64)
    requires
        v.blocks.dom().finite(),
        v.blocks.contains_key(h),
    ensures
        v.blocks.contains_key(lowest(v)),
        v.blocks.contains_key(highest(v)),
        lowest(v) <= h <= highest(v),
        !no_blocks(v),
{
    if no_blocks(v) {
        assert(!Map::<u64, BlockView>::empty().contains_key(h));
    }
    lemma_has_extremes(v);
}

} // verus!
