//! The cells of the table: placing nullifiers in buckets and clearing them.
//!
//! A table has `NUM_BUCKETS` buckets of `BUCKET_CAPACITY` cells, laid out one
//! after the other. An all-zero cell is free.

use super::types::Nullifier;
use vstd::prelude::*;
#[allow(unused_imports)]
use super::types::bucket_of;

verus! {

/// The content of a free cell: 32 zero bytes.
pub open spec fn vacant() -> Nullifier {
    vstd::array::spec_array_fill_for_copy_type::<u8, 32>(0u8)
}

/// The content of a free cell.
pub fn vacant_cell() -> (cell: Nullifier)
    ensures
        cell == vacant(),
{
    [0u8;32]
}

/// The number of cells.
pub open spec fn cell_count() -> int {
    1_835_008
}

/// Where slot `slot` of bucket `bucket` lies.
pub open spec fn cell_index(bucket: int, slot: int) -> int {
    bucket * 112 + slot
}

/// Whether `place` names a bucket and a slot of it.
pub open spec fn valid_place(place: (u32, u8)) -> bool {
    place.0 < 16_384 && place.1 < 112
}

/// Where a recorded place lies.
pub open spec fn place_index(place: (u32, u8)) -> int {
    cell_index(place.0 as int, place.1 as int)
}

/// The cells of one bucket.
pub open spec fn bucket_cells(cells: Seq<Nullifier>, bucket: int) -> Seq<Nullifier> {
    cells.subrange(cell_index(bucket, 0), cell_index(bucket, 112))
}

/// How many cells are free.
pub open spec fn count_free(cells: Seq<Nullifier>) -> nat
    decreases cells.len(),
{
    if cells.len() == 0 {
        0
    } else {
        count_free(cells.drop_first()) + (if cells[0] == vacant() {
            1nat
        } else {
            0nat
        })
    }
}

/// How many cells of a bucket are free.
pub open spec fn free_in(cells: Seq<Nullifier>, bucket: int) -> nat {
    count_free(bucket_cells(cells, bucket))
}

/// How many of `nfs` belong in `bucket`.
pub open spec fn demand(nfs: Seq<Nullifier>, bucket: int) -> nat
    decreases nfs.len(),
{
    if nfs.len() == 0 {
        0
    } else {
        demand(nfs.drop_first(), bucket) + (if bucket_of(nfs[0]) == bucket {
            1nat
        } else {
            0nat
        })
    }
}

/// Whether `bucket` has room for those of `nfs` that belong in it.
pub open spec fn has_room(cells: Seq<Nullifier>, nfs: Seq<Nullifier>, bucket: int) -> bool {
    demand(nfs, bucket) <= free_in(cells, bucket)
}

/// Whether every bucket has room for those of `nfs` that belong in it.
pub open spec fn all_fit(cells: Seq<Nullifier>, nfs: Seq<Nullifier>) -> bool {
    forall|bucket: int| 0 <= bucket < 16_384 ==> #[trigger] has_room(cells, nfs, bucket)
}

/// Whether `slot` is the first free slot of `bucket`.
pub open spec fn is_first_free(cells: Seq<Nullifier>, bucket: int, slot: int) -> bool {
    &&& 0 <= slot < 112
    &&& cells[cell_index(bucket, slot)] == vacant()
    &&& forall|s: int| 0 <= s < slot ==> #[trigger] cells[cell_index(bucket, s)] != vacant()
}

/// The first free slot of `bucket`.
pub open spec fn first_free(cells: Seq<Nullifier>, bucket: int) -> int {
    choose|slot: int| is_first_free(cells, bucket, slot)
}

/// The place that `nf` takes: the first free slot of its bucket.
pub open spec fn place_for(cells: Seq<Nullifier>, nf: Nullifier) -> (u32, u8) {
    (bucket_of(nf) as u32, first_free(cells, bucket_of(nf)) as u8)
}

/// The cells once `nf` has taken its place.
pub open spec fn placed(cells: Seq<Nullifier>, nf: Nullifier) -> Seq<Nullifier> {
    cells.update(place_index(place_for(cells, nf)), nf)
}

/// The cells once `nfs` have taken their places, one after the other.
pub open spec fn all_placed(cells: Seq<Nullifier>, nfs: Seq<Nullifier>) -> Seq<Nullifier>
    decreases nfs.len(),
{
    if nfs.len() == 0 {
        cells
    } else {
        all_placed(placed(cells, nfs[0]), nfs.drop_first())
    }
}

/// The places that `nfs` take, one after the other.
pub open spec fn places_for(cells: Seq<Nullifier>, nfs: Seq<Nullifier>) -> Seq<(u32, u8)>
    decreases nfs.len(),
{
    if nfs.len() == 0 {
        Seq::empty()
    } else {
        seq![place_for(cells, nfs[0])] + places_for(placed(cells, nfs[0]), nfs.drop_first())
    }
}

/// The cells once `places` have been cleared.
pub open spec fn all_cleared(cells: Seq<Nullifier>, places: Seq<(u32, u8)>) -> Seq<Nullifier>
    decreases places.len(),
{
    if places.len() == 0 {
        cells
    } else {
        all_cleared(cells.update(place_index(places[0]), vacant()), places.drop_first())
    }
}

/// Whether some cell of the bucket of `nf` holds it.
pub open spec fn held(cells: Seq<Nullifier>, nf: Nullifier) -> bool {
    exists|slot: int|
        0 <= slot < 112 && #[trigger] cells[cell_index(bucket_of(nf), slot)] == nf
}

/// Every place names a cell.
pub open spec fn valid_places(places: Seq<(u32, u8)>) -> bool {
    forall|i: int| 0 <= i < places.len() ==> valid_place(#[trigger] places[i])
}

/// No place occurs twice.
pub open spec fn distinct_places(places: Seq<(u32, u8)>) -> bool {
    forall|i: int, j: int|
        0 <= i < j < places.len() ==> #[trigger] places[i] != #[trigger] places[j]
}

pub proof fn lemma_bucket_range(nf: Nullifier)
    ensures
        0 <= bucket_of(nf) < 16_384,
{
}

pub proof fn lemma_count_update(cells: Seq<Nullifier>, i: int, nf: Nullifier)
    requires
        0 <= i < cells.len(),
    ensures
        count_free(cells.update(i, nf)) == count_free(cells) - (if cells[i] == vacant() {
            1int
        } else {
            0int
        }) + (if nf == vacant() {
            1int
        } else {
            0int
        }),
    decreases cells.len(),
{
    let changed = cells.update(i, nf);
    if i == 0 {
        assert(changed.drop_first() =~= cells.drop_first());
    } else {
        lemma_count_update(cells.drop_first(), i - 1, nf);
        assert(changed.drop_first() =~= cells.drop_first().update(i - 1, nf));
    }
}

pub proof fn lemma_count_witness(cells: Seq<Nullifier>) -> (i: int)
    requires
        count_free(cells) > 0,
    ensures
        0 <= i < cells.len(),
        cells[i] == vacant(),
        forall|j: int| 0 <= j < i ==> cells[j] != vacant(),
    decreases cells.len(),
{
    if cells[0] == vacant() {
        0
    } else {
        let j = lemma_count_witness(cells.drop_first());
        assert forall|k: int| 0 <= k < j + 1 implies cells[k] != vacant() by {
            if k > 0 {
                assert(cells.drop_first()[k - 1] == cells[k]);
            }
        }
        j + 1
    }
}

/// A bucket with a free cell has a first free slot, and only one.
pub proof fn lemma_first_free(cells: Seq<Nullifier>, bucket: int)
    requires
        cells.len() == cell_count(),
        0 <= bucket < 16_384,
        free_in(cells, bucket) > 0,
    ensures
        is_first_free(cells, bucket, first_free(cells, bucket)),
{
    let row = bucket_cells(cells, bucket);
    let s = lemma_count_witness(row);
    assert(row[s] == cells[cell_index(bucket, s)]);
    assert forall|t: int| 0 <= t < s implies #[trigger] cells[cell_index(bucket, t)] != vacant() by {
        assert(row[t] == cells[cell_index(bucket, t)]);
    }
    assert(is_first_free(cells, bucket, s));
}

pub proof fn lemma_first_free_unique(cells: Seq<Nullifier>, bucket: int, slot: int)
    requires
        is_first_free(cells, bucket, slot),
    ensures
        first_free(cells, bucket) == slot,
{
    let other = first_free(cells, bucket);
    assert(is_first_free(cells, bucket, other));
    if other < slot {
        assert(cells[cell_index(bucket, other)] != vacant());
    } else if slot < other {
        assert(cells[cell_index(bucket, slot)] != vacant());
    }
}

/// Placing one nullifier takes a free cell of its bucket and touches no other.
pub proof fn lemma_place(cells: Seq<Nullifier>, nfs: Seq<Nullifier>)
    requires
        cells.len() == cell_count(),
        nfs.len() > 0,
        all_fit(cells, nfs),
    ensures
        valid_place(place_for(cells, nfs[0])),
        place_for(cells, nfs[0]).0 == bucket_of(nfs[0]),
        is_first_free(cells, bucket_of(nfs[0]), first_free(cells, bucket_of(nfs[0]))),
        place_for(cells, nfs[0]).1 == first_free(cells, bucket_of(nfs[0])),
        0 <= place_index(place_for(cells, nfs[0])) < cell_count(),
        cells[place_index(place_for(cells, nfs[0]))] == vacant(),
        placed(cells, nfs[0]).len() == cell_count(),
        all_fit(placed(cells, nfs[0]), nfs.drop_first()),
{
    let nf = nfs[0];
    let home = bucket_of(nf);
    lemma_bucket_range(nf);
    assert(has_room(cells, nfs, home));
    lemma_first_free(cells, home);
    let slot = first_free(cells, home);
    let after = placed(cells, nf);
    let at = place_index(place_for(cells, nf));
    assert(at == cell_index(home, slot));
    assert forall|bucket: int| 0 <= bucket < 16_384 implies #[trigger] has_room(
        after,
        nfs.drop_first(),
        bucket,
    ) by {
        assert(has_room(cells, nfs, bucket));
        if bucket == home {
            assert(bucket_cells(after, bucket) =~= bucket_cells(cells, bucket).update(slot, nf));
            lemma_count_update(bucket_cells(cells, bucket), slot, nf);
        } else {
            assert(bucket_cells(after, bucket) =~= bucket_cells(cells, bucket));
        }
    }
}

/// What placing keeps: other cells stay, and the places lie in the buckets of
/// the nullifiers.
pub proof fn lemma_all_placed(cells: Seq<Nullifier>, nfs: Seq<Nullifier>)
    requires
        cells.len() == cell_count(),
        all_fit(cells, nfs),
    ensures
        all_placed(cells, nfs).len() == cell_count(),
        places_for(cells, nfs).len() == nfs.len(),
        valid_places(places_for(cells, nfs)),
        forall|i: int|
            0 <= i < nfs.len() ==> (#[trigger] places_for(cells, nfs)[i]).0 == bucket_of(nfs[i]),
        forall|i: int|
            0 <= i < nfs.len() ==> cells[place_index(#[trigger] places_for(cells, nfs)[i])] == vacant(),
        forall|k: int|
            0 <= k < cell_count() && cells[k] != vacant() ==> #[trigger] all_placed(cells, nfs)[k]
                == cells[k],
        forall|k: int|
            0 <= k < cell_count() && #[trigger] all_placed(cells, nfs)[k] != cells[k] ==> exists|
                i: int,
            |
                0 <= i < nfs.len() && place_index(#[trigger] places_for(cells, nfs)[i]) == k
                    && all_placed(cells, nfs)[k] == nfs[i],
    decreases nfs.len(),
{
    if nfs.len() > 0 {
        lemma_place(cells, nfs);
        let next = placed(cells, nfs[0]);
        let rest = nfs.drop_first();
        let first = place_for(cells, nfs[0]);
        lemma_all_placed(next, rest);
        let places = places_for(cells, nfs);
        let tail = places_for(next, rest);
        assert(places[0] == first);
        assert forall|i: int| 0 < i < nfs.len() implies #[trigger] places[i] == tail[i - 1] by {}
        assert forall|i: int| 0 <= i < nfs.len() implies cells[place_index(#[trigger] places[i])]
            == vacant() by {
            if i > 0 {
                assert(places[i] == tail[i - 1]);
                assert(next[place_index(tail[i - 1])] == vacant());
            }
        }
        assert forall|k: int|
            0 <= k < cell_count() && #[trigger] all_placed(cells, nfs)[k] != cells[k] implies exists|
            i: int,
        |
            0 <= i < nfs.len() && place_index(#[trigger] places[i]) == k && all_placed(cells, nfs)[k]
                == nfs[i] by {
            if all_placed(next, rest)[k] != next[k] {
                let j = choose|j: int|
                    0 <= j < rest.len() && place_index(#[trigger] tail[j]) == k && all_placed(
                        next,
                        rest,
                    )[k] == rest[j];
                assert(places[j + 1] == tail[j]);
            } else {
                assert(place_index(places[0]) == k);
            }
        }
    }
}

/// Every nullifier that was placed is held, unless it is the free content.
pub proof fn lemma_all_placed_held(cells: Seq<Nullifier>, nfs: Seq<Nullifier>, i: int)
    requires
        cells.len() == cell_count(),
        all_fit(cells, nfs),
        0 <= i < nfs.len(),
        nfs[i] != vacant(),
    ensures
        held(all_placed(cells, nfs), nfs[i]),
    decreases nfs.len(),
{
    lemma_place(cells, nfs);
    let next = placed(cells, nfs[0]);
    let rest = nfs.drop_first();
    if i == 0 {
        lemma_all_placed(next, rest);
        let slot = first_free(cells, bucket_of(nfs[0]));
        let at = cell_index(bucket_of(nfs[0]), slot);
        assert(next[at] == nfs[0]);
        assert(all_placed(next, rest)[at] == nfs[0]);
    } else {
        lemma_all_placed_held(next, rest, i - 1);
        assert(rest[i - 1] == nfs[i]);
    }
}

/// Nullifiers other than the free content never share a place, and each lies
/// in its own.
pub proof fn lemma_all_placed_distinct(cells: Seq<Nullifier>, nfs: Seq<Nullifier>)
    requires
        cells.len() == cell_count(),
        all_fit(cells, nfs),
        forall|i: int| 0 <= i < nfs.len() ==> #[trigger] nfs[i] != vacant(),
    ensures
        distinct_places(places_for(cells, nfs)),
        forall|i: int|
            0 <= i < nfs.len() ==> all_placed(cells, nfs)[place_index(
                #[trigger] places_for(cells, nfs)[i],
            )] == nfs[i],
    decreases nfs.len(),
{
    if nfs.len() > 0 {
        lemma_place(cells, nfs);
        let next = placed(cells, nfs[0]);
        let rest = nfs.drop_first();
        assert forall|i: int| 0 <= i < rest.len() implies #[trigger] rest[i] != vacant() by {
            assert(rest[i] == nfs[i + 1]);
        }
        lemma_all_placed_distinct(next, rest);
        lemma_all_placed(next, rest);
        let places = places_for(cells, nfs);
        let tail = places_for(next, rest);
        assert forall|i: int| 0 < i < nfs.len() implies #[trigger] places[i] == tail[i - 1] by {}
        assert forall|i: int, j: int| 0 <= i < j < places.len() implies #[trigger] places[i]
            != #[trigger] places[j] by {
            assert(places[j] == tail[j - 1]);
            if i == 0 {
                assert(next[place_index(places[0])] == nfs[0]);
                assert(next[place_index(tail[j - 1])] == vacant());
            } else {
                assert(places[i] == tail[i - 1]);
            }
        }
        assert forall|i: int| 0 <= i < nfs.len() implies all_placed(cells, nfs)[place_index(
            #[trigger] places[i],
        )] == nfs[i] by {
            if i > 0 {
                assert(places[i] == tail[i - 1]);
                assert(rest[i - 1] == nfs[i]);
            }
        }
    }
}

/// Clearing empties the named cells and leaves the others.
pub proof fn lemma_all_cleared(cells: Seq<Nullifier>, places: Seq<(u32, u8)>)
    requires
        cells.len() == cell_count(),
        valid_places(places),
    ensures
        all_cleared(cells, places).len() == cell_count(),
        forall|i: int|
            0 <= i < places.len() ==> all_cleared(cells, places)[place_index(#[trigger] places[i])]
                == vacant(),
        forall|k: int|
            0 <= k < cell_count() && (forall|i: int|
                0 <= i < places.len() ==> place_index(#[trigger] places[i]) != k)
                ==> #[trigger] all_cleared(cells, places)[k] == cells[k],
        forall|k: int|
            0 <= k < cell_count() && cells[k] == vacant() ==> #[trigger] all_cleared(cells, places)[k]
                == vacant(),
    decreases places.len(),
{
    if places.len() > 0 {
        let next = cells.update(place_index(places[0]), vacant());
        let rest = places.drop_first();
        assert(valid_place(places[0]));
        assert forall|i: int| 0 <= i < rest.len() implies valid_place(#[trigger] rest[i]) by {
            assert(rest[i] == places[i + 1]);
        }
        lemma_all_cleared(next, rest);
        assert forall|i: int| 0 <= i < places.len() implies all_cleared(cells, places)[place_index(
            #[trigger] places[i],
        )] == vacant() by {
            if i > 0 {
                assert(rest[i - 1] == places[i]);
            } else {
                assert(next[place_index(places[0])] == vacant());
            }
        }
        assert forall|k: int|
            0 <= k < cell_count() && (forall|i: int|
                0 <= i < places.len() ==> place_index(#[trigger] places[i])
                    != k) implies #[trigger] all_cleared(cells, places)[k] == cells[k] by {
            assert(place_index(places[0]) != k);
            assert forall|i: int| 0 <= i < rest.len() implies place_index(#[trigger] rest[i])
                != k by {
                assert(rest[i] == places[i + 1]);
            }
            assert(all_cleared(next, rest)[k] == next[k]);
        }
    }
}

/// Clearing the places just taken restores the cells.
pub proof fn lemma_clear_undoes_place(cells: Seq<Nullifier>, nfs: Seq<Nullifier>)
    requires
        cells.len() == cell_count(),
        all_fit(cells, nfs),
    ensures
        all_cleared(all_placed(cells, nfs), places_for(cells, nfs)) == cells,
{
    lemma_all_placed(cells, nfs);
    let full = all_placed(cells, nfs);
    let places = places_for(cells, nfs);
    lemma_all_cleared(full, places);
    let back = all_cleared(full, places);
    assert forall|k: int| 0 <= k < cell_count() implies back[k] == cells[k] by {
        if exists|i: int| 0 <= i < places.len() && place_index(#[trigger] places[i]) == k {
            let i = choose|i: int| 0 <= i < places.len() && place_index(#[trigger] places[i]) == k;
            assert(cells[place_index(places[i])] == vacant());
            assert(back[place_index(places[i])] == vacant());
        } else {
            assert(back[k] == full[k]);
            if full[k] != cells[k] {
                let i = choose|i: int|
                    0 <= i < nfs.len() && place_index(#[trigger] places[i]) == k && full[k]
                        == nfs[i];
                assert(place_index(places[i]) == k);
            }
        }
    }
    assert(back =~= cells);
}

pub proof fn lemma_no_demand(nfs: Seq<Nullifier>, bucket: int)
    requires
        forall|i: int| 0 <= i < nfs.len() ==> bucket_of(#[trigger] nfs[i]) != bucket,
    ensures
        demand(nfs, bucket) == 0,
    decreases nfs.len(),
{
    if nfs.len() > 0 {
        let rest = nfs.drop_first();
        assert forall|i: int| 0 <= i < rest.len() implies bucket_of(#[trigger] rest[i])
            != bucket by {
            assert(rest[i] == nfs[i + 1]);
        }
        lemma_no_demand(rest, bucket);
    }
}

} // verus!
