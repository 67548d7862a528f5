//! What the database bytes hold: the nullifiers of the live blocks, each in its
//! own bucket's row, and nothing else.

use super::table::HashTableDb;
use super::types::Nullifier;
use crate::bytes::Hash32;
use vstd::multiset::Multiset;
use vstd::prelude::*;
#[allow(unused_imports)]
use super::cells::{
    all_cleared, all_fit, bucket_cells, cell_count, cell_index, count_free, demand,
    distinct_places, has_room, held, lemma_all_placed, lemma_all_placed_distinct,
    lemma_bucket_range, place_index, places_for, vacant, valid_place, valid_places,
};
#[allow(unused_imports)]
use super::laws::{
    kept_from, law_eviction_reaches_target, law_insert_keeps_sound, law_rewind_keeps_lower_blocks,
    law_rollback_drops_only_its_block, remembered, sound,
};
#[allow(unused_imports)]
use super::state::{
    can_roll_back, evicted, evicted_to, highest, inserted, lemma_empty_total, lemma_has_extremes,
    lemma_rollback_shrinks, lemma_total_remove, lowest, no_blocks, rewound, rolled_back, BlockView, TableView,
};
#[allow(unused_imports)]
use super::types::bucket_of;
#[allow(unused_imports)]
use crate::bytes::{array_at, concat_hashes, lemma_hash_read};

verus! {

/// The 32-byte entries of a database, in order.
pub open spec fn entries(bytes: Seq<u8>) -> Seq<Nullifier> {
    Seq::new(bytes.len() / 32, |k: int| array_at(bytes, 32 * k))
}

/// The entries that are not all zero, each as often as it occurs.
pub open spec fn occupied(cells: Seq<Nullifier>) -> Multiset<Nullifier> {
    cells.to_multiset().filter(|cell: Nullifier| cell != vacant())
}

/// The nullifiers at places that a block remembers.
pub open spec fn held_at(cells: Seq<Nullifier>, places: Seq<(u32, u8)>) -> Seq<Nullifier> {
    places.map_values(|place: (u32, u8)| cells[place_index(place)])
}

/// The nullifiers of each live block, by height.
pub open spec fn live_nullifiers(v: TableView) -> Map<u64, Seq<Nullifier>> {
    v.blocks.map_values(|block: BlockView| held_at(v.cells, block.slots))
}

/// The nullifiers of all blocks together, each as often as it occurs.
pub open spec fn gathered(live: Map<u64, Seq<Nullifier>>) -> Multiset<Nullifier>
    decreases live.dom().len(),
    when live.dom().finite()
{
    if live.dom().len() == 0 {
        Multiset::empty()
    } else {
        let height = live.dom().choose();
        live[height].to_multiset().add(gathered(live.remove(height)))
    }
}

/// Any block can be gathered first.
pub proof fn law_gathered_in_any_order(live: Map<u64, Seq<Nullifier>>, height: u64)
    requires
        live.dom().finite(),
        live.contains_key(height),
    ensures
        gathered(live) == live[height].to_multiset().add(gathered(live.remove(height))),
    decreases live.dom().len(),
{
    let first = live.dom().choose();
    assert(live.dom().contains(height));
    assert(live.dom().len() > 0);
    assert(live.remove(height).dom() =~= live.dom().remove(height));
    assert(live.remove(first).dom() =~= live.dom().remove(first));
    if first != height {
        law_gathered_in_any_order(live.remove(first), height);
        law_gathered_in_any_order(live.remove(height), first);
        assert(live.remove(first).remove(height) =~= live.remove(height).remove(first));
        assert(gathered(live) =~= live[height].to_multiset().add(gathered(live.remove(height))));
    }
}

/// A block inserted at a new height is live with its nullifiers, and every
/// other block keeps its own.
pub proof fn law_insert_adds_its_nullifiers(
    v: TableView,
    height: u64,
    hash: Hash32,
    nfs: Seq<Nullifier>,
)
    requires
        sound(v),
        all_fit(v.cells, nfs),
        !v.blocks.contains_key(height),
        !v.heights.contains_key(hash),
        !nfs.contains(vacant()),
    ensures
        sound(inserted(v, height, hash, nfs)),
        live_nullifiers(inserted(v, height, hash, nfs)) == live_nullifiers(v).insert(height, nfs),
{
    law_insert_keeps_sound(v, height, hash, nfs);
    assert forall|i: int| 0 <= i < nfs.len() implies #[trigger] nfs[i] != vacant() by {
        assert(nfs.contains(nfs[i]));
    }
    lemma_all_placed(v.cells, nfs);
    lemma_all_placed_distinct(v.cells, nfs);
    let n = inserted(v, height, hash, nfs);
    let expected = live_nullifiers(v).insert(height, nfs);
    assert forall|h: u64| n.blocks.contains_key(h) implies #[trigger] live_nullifiers(n)[h]
        == expected[h] by {
        if h == height {
            assert(held_at(n.cells, places_for(v.cells, nfs)) =~= nfs);
        } else {
            lemma_same_held(v, n, h);
        }
    }
    assert(live_nullifiers(n) =~= expected);
}

/// A block that keeps its places and what they hold keeps its nullifiers.
proof fn lemma_same_held(v: TableView, n: TableView, h: u64)
    requires
        v.blocks.contains_key(h),
        n.blocks.contains_key(h),
        n.blocks[h].slots == v.blocks[h].slots,
        forall|i: int|
            0 <= i < v.blocks[h].slots.len() ==> n.cells[place_index(
                #[trigger] v.blocks[h].slots[i],
            )] == v.cells[place_index(v.blocks[h].slots[i])],
    ensures
        live_nullifiers(n)[h] == live_nullifiers(v)[h],
{
    assert(held_at(n.cells, n.blocks[h].slots) =~= held_at(v.cells, v.blocks[h].slots));
}

/// Rolling a block back takes its nullifiers away, and every other block keeps
/// its own.
pub proof fn law_rollback_takes_its_nullifiers(v: TableView, hash: Hash32)
    requires
        sound(v),
        can_roll_back(v, hash),
    ensures
        sound(rolled_back(v, hash)),
        live_nullifiers(rolled_back(v, hash)) == live_nullifiers(v).remove(v.heights[hash]),
{
    law_rollback_drops_only_its_block(v, hash);
    let n = rolled_back(v, hash);
    let expected = live_nullifiers(v).remove(v.heights[hash]);
    assert forall|h: u64| n.blocks.contains_key(h) implies #[trigger] live_nullifiers(n)[h]
        == expected[h] by {
        lemma_same_held(v, n, h);
    }
    assert(live_nullifiers(n) =~= expected);
}

/// Evicting to a size leaves the blocks that stay with their nullifiers.
pub proof fn law_eviction_keeps_nullifiers(v: TableView, target: nat)
    requires
        sound(v),
    ensures
        sound(evicted_to(v, target)),
        live_nullifiers(evicted_to(v, target)) == live_nullifiers(v).restrict(
            evicted_to(v, target).blocks.dom(),
        ),
    decreases v.blocks.dom().len(),
{
    let end = evicted_to(v, target);
    if v.count > target {
        if no_blocks(v) {
            lemma_empty_total();
        }
        lemma_has_extremes(v);
        let low = lowest(v);
        law_rollback_takes_its_nullifiers(v, v.blocks[low].hash);
        lemma_rollback_shrinks(v, v.blocks[low].hash);
        law_eviction_keeps_nullifiers(evicted(v), target);
        let later = law_eviction_reaches_target(evicted(v), target);
        assert(kept_from(evicted(v).blocks, end.blocks, later));
    }
    assert(live_nullifiers(end) =~= live_nullifiers(v).restrict(end.blocks.dom()));
}

/// Rewinding to a height leaves the blocks up to it with their nullifiers.
pub proof fn law_rewind_keeps_nullifiers(v: TableView, height: u64)
    requires
        sound(v),
    ensures
        sound(rewound(v, height)),
        live_nullifiers(rewound(v, height)) == live_nullifiers(v).restrict(
            rewound(v, height).blocks.dom(),
        ),
    decreases v.blocks.dom().len(),
{
    let end = rewound(v, height);
    law_rewind_keeps_lower_blocks(v, height);
    if !no_blocks(v) {
        lemma_has_extremes(v);
        let top = highest(v);
        if top > height {
            law_rollback_takes_its_nullifiers(v, v.blocks[top].hash);
            lemma_rollback_shrinks(v, v.blocks[top].hash);
            let next = rolled_back(v, v.blocks[top].hash);
            law_rewind_keeps_nullifiers(next, height);
            law_rewind_keeps_lower_blocks(next, height);
        }
    }
    assert(live_nullifiers(end) =~= live_nullifiers(v).restrict(end.blocks.dom()));
}

/// Writing a cell takes one copy of what it held and adds one of what it holds.
proof fn lemma_update_counts(cells: Seq<Nullifier>, k: int, nf: Nullifier)
    requires
        0 <= k < cells.len(),
    ensures
        cells.update(k, nf).to_multiset() == cells.to_multiset().remove(cells[k]).insert(nf),
{
    broadcast use vstd::seq_lib::group_to_multiset_ensures;

    assert(cells.update(k, nf) =~= cells.remove(k).insert(k, nf));
    vstd::seq_lib::to_multiset_remove(cells, k);
    vstd::seq_lib::to_multiset_insert(cells.remove(k), k, nf);
}

/// Clearing places that hold nullifiers takes exactly those away.
proof fn lemma_clear_takes(cells: Seq<Nullifier>, places: Seq<(u32, u8)>)
    requires
        cells.len() == cell_count(),
        valid_places(places),
        distinct_places(places),
        forall|i: int|
            0 <= i < places.len() ==> cells[place_index(#[trigger] places[i])] != vacant(),
    ensures
        occupied(cells) == held_at(cells, places).to_multiset().add(
            occupied(all_cleared(cells, places)),
        ),
    decreases places.len(),
{
    broadcast use vstd::seq_lib::group_to_multiset_ensures;

    let held = held_at(cells, places);
    if places.len() == 0 {
        assert(held =~= Seq::empty());
        assert(held.to_multiset() =~= Multiset::empty());
        assert(occupied(cells) =~= held.to_multiset().add(occupied(cells)));
    } else {
        let rest = places.drop_first();
        let k = place_index(places[0]);
        assert(valid_place(places[0]));
        let next = cells.update(k, vacant());
        assert forall|i: int| 0 <= i < rest.len() implies next[place_index(#[trigger] rest[i])]
            == cells[place_index(rest[i])] && next[place_index(rest[i])] != vacant() by {
            assert(rest[i] == places[i + 1]);
            assert(valid_place(places[i + 1]));
            assert(places[0] != places[i + 1]);
        }
        assert(valid_places(rest));
        assert(distinct_places(rest)) by {
            assert forall|i: int, j: int| 0 <= i < j < rest.len() implies #[trigger] rest[i]
                != #[trigger] rest[j] by {
                assert(places[i + 1] != places[j + 1]);
            }
        }
        lemma_clear_takes(next, rest);
        assert(held_at(next, rest) =~= held.drop_first());
        lemma_update_counts(cells, k, vacant());
        assert(cells.contains(cells[k]));
        assert(occupied(cells) =~= occupied(next).insert(held[0]));
        assert(held =~= held.drop_first().insert(0, held[0]));
        vstd::seq_lib::to_multiset_insert(held.drop_first(), 0, held[0]);
        assert(occupied(cells) =~= held.to_multiset().add(occupied(all_cleared(cells, places))));
    }
}

/// In a sound table the occupied cells hold the nullifiers of the live blocks.
proof fn lemma_occupied(v: TableView)
    requires
        sound(v),
    ensures
        live_nullifiers(v).dom().finite(),
        occupied(v.cells) == gathered(live_nullifiers(v)),
        gathered(live_nullifiers(v)).len() == v.count,
    decreases v.blocks.dom().len(),
{
    broadcast use vstd::seq_lib::group_to_multiset_ensures;

    let live = live_nullifiers(v);
    assert(live.dom() =~= v.blocks.dom());
    if live.dom().len() == 0 {
        assert(v.blocks =~= Map::empty());
        lemma_empty_total();
        assert forall|nf: Nullifier| #[trigger] occupied(v.cells).count(nf) == 0 by {
            if nf != vacant() && v.cells.to_multiset().count(nf) > 0 {
                assert(v.cells.contains(nf));
                let k = choose|k: int| 0 <= k < v.cells.len() && v.cells[k] == nf;
                assert(remembered(v, k));
            }
        }
        assert(occupied(v.cells) =~= Multiset::empty());
    } else {
        let h = live.dom().choose();
        assert(v.blocks.contains_key(h));
        let hash = v.blocks[h].hash;
        law_rollback_takes_its_nullifiers(v, hash);
        lemma_rollback_shrinks(v, hash);
        lemma_occupied(rolled_back(v, hash));
        lemma_clear_takes(v.cells, v.blocks[h].slots);
        assert(live[h] == held_at(v.cells, v.blocks[h].slots));
        lemma_total_remove(v.blocks, h);
    }
}

/// The database of a sound table has an entry for every cell. The entries that
/// are not zero are the nullifiers of the live blocks, as many as the table
/// counts, and each lies in its own bucket's row.
pub proof fn law_database_holds_live_nullifiers(v: TableView)
    requires
        sound(v),
    ensures
        concat_hashes(v.cells).len() == 16_384 * 112 * 32,
        entries(concat_hashes(v.cells)).len() == 16_384 * 112,
        forall|k: int|
            0 <= k < 16_384 * 112 && (#[trigger] entries(concat_hashes(v.cells))[k]) != vacant()
                ==> bucket_of(entries(concat_hashes(v.cells))[k]) == k / 112,
        live_nullifiers(v).dom() == v.blocks.dom(),
        occupied(entries(concat_hashes(v.cells))) == gathered(live_nullifiers(v)),
        gathered(live_nullifiers(v)).len() == v.count,
{
    let bytes = concat_hashes(v.cells);
    assert forall|k: int| 0 <= k < cell_count() implies #[trigger] entries(bytes)[k]
        == v.cells[k] by {
        lemma_hash_read(Seq::empty(), v.cells, Seq::empty(), k);
        assert(Seq::<u8>::empty() + bytes + Seq::<u8>::empty() =~= bytes);
    }
    assert(entries(bytes) =~= v.cells);
    lemma_occupied(v);
    assert(live_nullifiers(v).dom() =~= v.blocks.dom());
}

/// In a sound table a nullifier is found exactly when some cell holds it, which
/// is when some live block has it.
pub proof fn law_found_means_live(v: TableView, nf: Nullifier)
    requires
        sound(v),
        nf != vacant(),
    ensures
        held(v.cells, nf) <==> v.cells.contains(nf),
        held(v.cells, nf) <==> exists|h: u64, i: int|
            v.blocks.contains_key(h) && 0 <= i < live_nullifiers(v)[h].len()
                && #[trigger] live_nullifiers(v)[h][i] == nf,
{
    lemma_bucket_range(nf);
    if held(v.cells, nf) {
        let slot = choose|slot: int|
            0 <= slot < 112 && #[trigger] v.cells[cell_index(bucket_of(nf), slot)] == nf;
        assert(v.cells[cell_index(bucket_of(nf), slot)] == nf);
    }
    if v.cells.contains(nf) {
        let k = choose|k: int| 0 <= k < v.cells.len() && v.cells[k] == nf;
        assert(bucket_of(v.cells[k]) == k / 112);
        assert(k == cell_index(bucket_of(nf), k % 112));
        assert(remembered(v, k));
        let (h, i) = choose|h: u64, i: int|
            v.blocks.contains_key(h) && 0 <= i < v.blocks[h].slots.len()
                && place_index(#[trigger] v.blocks[h].slots[i]) == k;
        assert(live_nullifiers(v)[h][i] == nf);
    }
    if exists|h: u64, i: int|
        v.blocks.contains_key(h) && 0 <= i < live_nullifiers(v)[h].len()
            && #[trigger] live_nullifiers(v)[h][i] == nf {
        let (h, i) = choose|h: u64, i: int|
            v.blocks.contains_key(h) && 0 <= i < live_nullifiers(v)[h].len()
                && #[trigger] live_nullifiers(v)[h][i] == nf;
        let place = v.blocks[h].slots[i];
        assert(valid_place(place));
        assert(v.cells[place_index(place)] == nf);
    }
}

/// How many free cells a row has.
proof fn lemma_free_counted(cells: Seq<Nullifier>)
    ensures
        count_free(cells) == cells.filter(|cell: Nullifier| cell == vacant()).len(),
    decreases cells.len(),
{
    let free = |cell: Nullifier| cell == vacant();
    if cells.len() > 0 {
        lemma_free_counted(cells.drop_first());
        assert(cells =~= seq![cells[0]] + cells.drop_first());
        Seq::filter_distributes_over_add(seq![cells[0]], cells.drop_first(), free);
        lemma_filter_one(cells[0], free);
    } else {
        reveal(Seq::filter);
    }
}

/// How many nullifiers belong in a bucket.
proof fn lemma_demand_counted(nfs: Seq<Nullifier>, bucket: int)
    ensures
        demand(nfs, bucket) == nfs.filter(|nf: Nullifier| bucket_of(nf) == bucket).len(),
    decreases nfs.len(),
{
    let wanted = |nf: Nullifier| bucket_of(nf) == bucket;
    if nfs.len() > 0 {
        lemma_demand_counted(nfs.drop_first(), bucket);
        assert(nfs =~= seq![nfs[0]] + nfs.drop_first());
        Seq::filter_distributes_over_add(seq![nfs[0]], nfs.drop_first(), wanted);
        lemma_filter_one(nfs[0], wanted);
    } else {
        reveal(Seq::filter);
    }
}

proof fn lemma_filter_one(nf: Nullifier, keep: spec_fn(Nullifier) -> bool)
    ensures
        seq![nf].filter(keep).len() == (if keep(nf) {
            1int
        } else {
            0int
        }),
{
    reveal(Seq::filter);
    assert(seq![nf].drop_last() =~= Seq::empty());
    assert(seq![nf].drop_last().filter(keep) =~= Seq::empty());
}

/// A block is taken in exactly when every bucket has a free cell for each of the
/// block's nullifiers that belong in it.
pub proof fn law_block_fits_exactly_when_cells_are_free(
    cells: Seq<Nullifier>,
    nfs: Seq<Nullifier>,
    bucket: int,
)
    ensures
        all_fit(cells, nfs) <==> forall|b: int|
            0 <= b < 16_384 ==> #[trigger] has_room(cells, nfs, b),
        has_room(cells, nfs, bucket) <==> nfs.filter(
            |nf: Nullifier| bucket_of(nf) == bucket,
        ).len() <= cells.subrange(bucket * 112, bucket * 112 + 112).filter(
            |cell: Nullifier| cell == vacant(),
        ).len(),
{
    lemma_demand_counted(nfs, bucket);
    lemma_free_counted(bucket_cells(cells, bucket));
}

/// A sound table says that it contains a nullifier exactly when a live block has it.
pub proof fn law_table_contains_what_is_live(db: HashTableDb, nf: Nullifier, r: bool)
    requires
        sound(db@),
        nf != vacant(),
        call_ensures(HashTableDb::contains, (&db, &nf), r),
    ensures
        r <==> db@.cells.contains(nf),
        r <==> exists|h: u64, i: int|
            db@.blocks.contains_key(h) && 0 <= i < live_nullifiers(db@)[h].len()
                && #[trigger] live_nullifiers(db@)[h][i] == nf,
{
    law_found_means_live(db@, nf);
}

/// The database that a sound table gives out holds its live nullifiers, each in
/// its own bucket's row, and zeros elsewhere.
pub proof fn law_pir_bytes_hold_what_is_live(db: HashTableDb, bytes: Vec<u8>, k: int)
    requires
        sound(db@),
        call_ensures(HashTableDb::to_pir_bytes, (&db,), bytes),
        0 <= k < 16_384 * 112,
    ensures
        bytes@.len() == 16_384 * 112 * 32,
        entries(bytes@)[k] != vacant() ==> bucket_of(entries(bytes@)[k]) == k / 112,
        occupied(entries(bytes@)) == gathered(live_nullifiers(db@)),
        gathered(live_nullifiers(db@)).len() == db@.count,
{
    law_database_holds_live_nullifiers(db@);
}

} // verus!
