//! The bucketed hash table of recent nullifiers.

use super::cells::vacant_cell;
use super::types::{hash_to_bucket, Nullifier, TARGET_SIZE};
use crate::bytes::{hash_eq, push_hashes, Hash32};
use crate::hash_index::HashIndex;
use crate::ordered::OrderedMap;
use crate::text::{around_number, join};
use std::collections::HashMap;
use vstd::prelude::*;
#[allow(unused_imports)]
use super::cells::{
    all_cleared, all_fit, all_placed, bucket_cells, cell_count, cell_index, count_free, demand,
    first_free, free_in, has_room, held, is_first_free, lemma_bucket_range, lemma_first_free,
    lemma_first_free_unique, lemma_no_demand, lemma_place, place_for, placed, places_for, vacant,
    valid_place, valid_places,
};
#[allow(unused_imports)]
use super::state::{
    can_evict, can_rewind, can_roll_back, empty_state, evicted, evicted_to, highest, inserted,
    is_highest, is_lowest, lemma_empty_total, lemma_evicted_wf, lemma_has_extremes,
    lemma_inserted_wf, lemma_rolled_back_wf, lowest, no_blocks, rewound, rolled_back, state_wf,
    BlockView, TableView,
};
#[allow(unused_imports)]
use super::types::bucket_of;
#[allow(unused_imports)]
use crate::bytes::concat_hashes;
#[allow(unused_imports)]
use crate::text::decimal_text;

verus! {

/// Why the table refused a block or a snapshot.
#[derive(Debug)]
pub enum HashTableError {
    /// A bucket has no room for a block's nullifiers.
    BucketOverflow { bucket_idx: u32 },
    /// No block is held under the hash.
    BlockNotFound,
    /// A snapshot does not describe a table.
    Snapshot(String),
}

impl HashTableError {
    /// The text shown to a person.
    pub open spec fn text(&self) -> Seq<char> {
        match self {
            HashTableError::BucketOverflow { bucket_idx } => "bucket "@ + decimal_text(
                *bucket_idx as nat,
            ) + " overflow"@,
            HashTableError::BlockNotFound => "block hash not found for rollback"@,
            HashTableError::Snapshot(reason) => "snapshot error: "@ + reason@,
        }
    }

    /// The text shown to a person.
    pub fn message(&self) -> (s: String)
        ensures
            s@ == self.text(),
    {
        match self {
            HashTableError::BucketOverflow { bucket_idx } => around_number(
                "bucket ",
                *bucket_idx as u64,
                " overflow",
            ),
            HashTableError::BlockNotFound => "block hash not found for rollback".to_owned(),
            HashTableError::Snapshot(reason) => join("snapshot error: ", reason.as_str()),
        }
    }
}

/// What the table remembers of a block.
pub struct BlockRecord {
    pub block_hash: Hash32,
    pub slots: Vec<(u32, u8)>,
}

impl View for BlockRecord {
    type V = BlockView;

    open spec fn view(&self) -> BlockView {
        BlockView { hash: self.block_hash, slots: self.slots@ }
    }
}

/// A fixed-capacity hash table of nullifiers that remembers which block each
/// came from, so that blocks can be rolled back and evicted.
pub struct HashTableDb {
    pub(super) cells: Vec<Nullifier>,
    pub(super) blocks: OrderedMap<BlockRecord>,
    pub(super) heights: HashIndex,
    pub(super) num_entries: usize,
}

impl View for HashTableDb {
    type V = TableView;

    closed spec fn view(&self) -> TableView {
        TableView {
            cells: self.cells@,
            blocks: self.blocks@.map_values(|r: BlockRecord| r@),
            heights: self.heights@,
            count: self.num_entries as nat,
        }
    }
}

impl HashTableDb {
    /// The invariant of a table.
    pub closed spec fn wf(&self) -> bool {
        &&& self.blocks.wf()
        &&& self.heights.wf()
        &&& state_wf(self@)
        &&& self@.count <= usize::MAX
    }

    /// A well-formed table has a well-formed state that a machine can count.
    pub proof fn lemma_wf(&self)
        requires
            self.wf(),
        ensures
            state_wf(self@),
            self@.count <= usize::MAX,
    {
    }

    /// What the invariant and the view say of the parts.
    pub(super) proof fn lemma_parts(&self)
        ensures
            self.wf() <==> self.blocks.wf() && self.heights.wf() && state_wf(self@)
                && self@.count <= usize::MAX,
            self@ == (TableView {
                cells: self.cells@,
                blocks: self.blocks@.map_values(|r: BlockRecord| r@),
                heights: self.heights@,
                count: self.num_entries as nat,
            }),
    {
    }

    /// A table without entries.
    pub fn new() -> (db: Self)
        ensures
            db.wf(),
            db@ == empty_state(),
    {
        let mut cells: Vec<Nullifier> = Vec::with_capacity(1_835_008);
        let mut i: usize = 0;
        while i < 1_835_008
            invariant
                i <= 1_835_008,
                cells@.len() == i,
                forall|k: int| 0 <= k < i ==> #[trigger] cells@[k] == vacant(),
            decreases 1_835_008 - i,
        {
            cells.push(vacant_cell());
            i += 1;
        }
        let db = HashTableDb {
            cells,
            blocks: OrderedMap::new(),
            heights: HashIndex::new(),
            num_entries: 0,
        };
        proof {
            assert(db@.blocks =~= Map::empty());
            lemma_empty_total();
            assert(db@ =~= empty_state());
        }
        db
    }

    /// The number of free cells of a bucket.
    fn count_free_cells(&self, bucket: u32) -> (n: usize)
        requires
            self.wf(),
            bucket < 16_384,
        ensures
            n == free_in(self@.cells, bucket as int),
            n <= 112,
    {
        let mut slot: usize = 112;
        let mut n: usize = 0;
        let ghost row = bucket_cells(self@.cells, bucket as int);
        let base: usize = bucket as usize * 112;
        while slot > 0
            invariant
                slot <= 112,
                n <= 112 - slot,
                n == count_free(row.subrange(slot as int, 112)),
                row == bucket_cells(self@.cells, bucket as int),
                bucket < 16_384,
                base == bucket * 112,
                self.cells@.len() == cell_count(),
            decreases slot,
        {
            proof {
                assert(row.subrange(slot - 1, 112).drop_first() =~= row.subrange(slot as int, 112));
                assert(row[slot - 1] == self.cells@[base + slot - 1]);
            }
            slot -= 1;
            if hash_eq(&self.cells[base + slot], &vacant_cell()) {
                n += 1;
            }
        }
        assert(row.subrange(0, 112) =~= row);
        n
    }

    /// The first free slot of a bucket that has one.
    fn find_free_slot(&self, bucket: u32) -> (slot: usize)
        requires
            self.cells@.len() == cell_count(),
            bucket < 16_384,
            free_in(self.cells@, bucket as int) > 0,
        ensures
            is_first_free(self.cells@, bucket as int, slot as int),
            slot == first_free(self.cells@, bucket as int),
    {
        proof {
            lemma_first_free(self.cells@, bucket as int);
        }
        let base: usize = bucket as usize * 112;
        let mut slot: usize = 0;
        while !hash_eq(&self.cells[base + slot], &vacant_cell())
            invariant
                slot < 112,
                bucket < 16_384,
                base == bucket * 112,
                self.cells@.len() == cell_count(),
                is_first_free(
                    self.cells@,
                    bucket as int,
                    first_free(self.cells@, bucket as int),
                ),
                forall|s: int|
                    0 <= s < slot ==> #[trigger] self.cells@[cell_index(bucket as int, s)]
                        != vacant(),
            decreases 112 - slot,
        {
            assert(self.cells@[cell_index(bucket as int, slot as int)] != vacant());
            if slot == 111 {
                assert(self.cells@[cell_index(
                    bucket as int,
                    first_free(self.cells@, bucket as int),
                )] == vacant());
            }
            slot += 1;
        }
        assert(self.cells@[cell_index(bucket as int, slot as int)] == vacant());
        proof {
            lemma_first_free_unique(self.cells@, bucket as int, slot as int);
        }
        slot
    }

    /// How many of `nullifiers` belong in each bucket.
    fn count_demand(nullifiers: &[Nullifier]) -> (required: HashMap<u32, usize>)
        ensures
            forall|i: int|
                0 <= i < nullifiers@.len() ==> required@.contains_key(
                    bucket_of(#[trigger] nullifiers@[i]) as u32,
                ),
            forall|bucket: u32| #[trigger]
                required@.contains_key(bucket) ==> required@[bucket] == demand(
                    nullifiers@,
                    bucket as int,
                ),
    {
        let mut required: HashMap<u32, usize> = HashMap::new();
        let mut i: usize = nullifiers.len();
        assert(nullifiers@.skip(i as int) =~= Seq::empty());
        while i > 0
            invariant
                i <= nullifiers@.len(),
                forall|k: int|
                    i <= k < nullifiers@.len() ==> required@.contains_key(
                        bucket_of(#[trigger] nullifiers@[k]) as u32,
                    ),
                forall|bucket: u32| #[trigger]
                    required@.contains_key(bucket) ==> required@[bucket] == demand(
                        nullifiers@.skip(i as int),
                        bucket as int,
                    ),
                forall|bucket: u32|
                    !(#[trigger] required@.contains_key(bucket)) ==> demand(
                        nullifiers@.skip(i as int),
                        bucket as int,
                    ) == 0,
                forall|bucket: u32| #[trigger]
                    required@.contains_key(bucket) ==> required@[bucket] <= nullifiers@.len() - i,
            decreases i,
        {
            proof {
                assert(nullifiers@.skip(i - 1).drop_first() =~= nullifiers@.skip(i as int));
                assert(nullifiers@.skip(i - 1)[0] == nullifiers@[i - 1]);
                lemma_bucket_range(nullifiers@[i - 1]);
            }
            i -= 1;
            let bucket = hash_to_bucket(&nullifiers[i]);
            let before: usize = match required.get(&bucket) {
                Some(n) => *n,
                None => 0,
            };
            required.insert(bucket, before + 1);
        }
        assert(nullifiers@.skip(0) =~= nullifiers@);
        required
    }

    /// Inserts a block's nullifiers, all of them or, where a bucket has no
    /// room, none.
    pub fn insert_block(
        &mut self,
        height: u64,
        block_hash: Hash32,
        nullifiers: &[Nullifier],
    ) -> (r: Result<(), HashTableError>)
        requires
            old(self).wf(),
            old(self)@.count + nullifiers@.len() <= usize::MAX,
        ensures
            final(self).wf(),
            r is Ok <==> all_fit(old(self)@.cells, nullifiers@),
            r is Ok ==> final(self)@ == inserted(old(self)@, height, block_hash, nullifiers@),
            r is Err ==> final(self)@ == old(self)@,
            r is Err ==> r->Err_0 is BucketOverflow && r->Err_0->bucket_idx < 16_384 && !has_room(
                old(self)@.cells,
                nullifiers@,
                r->Err_0->bucket_idx as int,
            ),
    {
        let required = HashTableDb::count_demand(nullifiers);
        let mut i: usize = 0;
        while i < nullifiers.len()
            invariant
                i <= nullifiers@.len(),
                *self == *old(self),
                self.wf(),
                forall|k: int|
                    0 <= k < nullifiers@.len() ==> required@.contains_key(
                        bucket_of(#[trigger] nullifiers@[k]) as u32,
                    ),
                forall|bucket: u32| #[trigger]
                    required@.contains_key(bucket) ==> required@[bucket] == demand(
                        nullifiers@,
                        bucket as int,
                    ),
                forall|k: int|
                    0 <= k < i ==> has_room(
                        self@.cells,
                        nullifiers@,
                        bucket_of(#[trigger] nullifiers@[k]),
                    ),
            decreases nullifiers@.len() - i,
        {
            let bucket_idx = hash_to_bucket(&nullifiers[i]);
            assert(required@.contains_key(bucket_of(nullifiers@[i as int]) as u32));
            let free = self.count_free_cells(bucket_idx);
            let count: usize = match required.get(&bucket_idx) {
                Some(n) => *n,
                None => 0,
            };
            if count > free {
                assert(!has_room(self@.cells, nullifiers@, bucket_idx as int));
                return Err(HashTableError::BucketOverflow { bucket_idx });
            }
            i += 1;
        }
        proof {
            assert forall|bucket: int| 0 <= bucket < 16_384 implies #[trigger] has_room(
                self@.cells,
                nullifiers@,
                bucket,
            ) by {
                if exists|k: int|
                    0 <= k < nullifiers@.len() && bucket_of(#[trigger] nullifiers@[k]) == bucket {
                } else {
                    lemma_no_demand(nullifiers@, bucket);
                }
            }
        }

        let ghost start = self@;
        let mut slots: Vec<(u32, u8)> = Vec::with_capacity(nullifiers.len());
        let mut i: usize = 0;
        assert(nullifiers@.skip(0) =~= nullifiers@);
        while i < nullifiers.len()
            invariant
                i <= nullifiers@.len(),
                self.blocks.wf(),
                self.heights.wf(),
                self@.cells.len() == cell_count(),
                self@.blocks == start.blocks,
                self@.heights == start.heights,
                self@.count == start.count + i,
                start.count + nullifiers@.len() <= usize::MAX,
                all_fit(self@.cells, nullifiers@.skip(i as int)),
                all_placed(start.cells, nullifiers@) == all_placed(
                    self@.cells,
                    nullifiers@.skip(i as int),
                ),
                places_for(start.cells, nullifiers@) == slots@ + places_for(
                    self@.cells,
                    nullifiers@.skip(i as int),
                ),
            decreases nullifiers@.len() - i,
        {
            let ghost rest = nullifiers@.skip(i as int);
            let ghost cells = self@.cells;
            proof {
                assert(rest[0] == nullifiers@[i as int]);
                assert(rest.drop_first() =~= nullifiers@.skip(i + 1));
                lemma_place(cells, rest);
                assert(has_room(cells, rest, bucket_of(rest[0])));
            }
            let nf = nullifiers[i];
            let bucket_idx = hash_to_bucket(&nf);
            let slot: usize = self.find_free_slot(bucket_idx);
            let ghost taken = slots@;
            self.cells[bucket_idx as usize * 112 + slot] = nf;
            slots.push((bucket_idx, slot as u8));
            self.num_entries += 1;
            i += 1;
            proof {
                assert(self@.cells =~= placed(cells, nf));
                assert(slots@ =~= taken + seq![place_for(cells, nf)]);
                assert(slots@ + places_for(self@.cells, nullifiers@.skip(i as int)) =~= taken
                    + places_for(cells, rest));
            }
        }
        assert(nullifiers@.skip(i as int) =~= Seq::empty());
        assert(slots@ + Seq::<(u32, u8)>::empty() =~= slots@);
        let ghost record = BlockRecord { block_hash, slots };
        self.blocks.insert(height, BlockRecord { block_hash, slots });
        self.heights.insert(block_hash, height);
        proof {
            assert(self@.blocks =~= start.blocks.insert(height, record@));
            assert(self@ =~= inserted(start, height, block_hash, nullifiers@));
            lemma_inserted_wf(start, height, block_hash, nullifiers@);
        }
        Ok(())
    }

    /// Takes back the block inserted last under `block_hash`.
    pub fn rollback_block(&mut self, block_hash: &Hash32) -> (r: Result<(), HashTableError>)
        requires
            old(self).wf(),
        ensures
            final(self).wf(),
            final(self)@ == rolled_back(old(self)@, *block_hash),
            r is Ok <==> can_roll_back(old(self)@, *block_hash),
            r is Err ==> r->Err_0 is BlockNotFound,
    {
        let ghost start = self@;
        proof {
            lemma_rolled_back_wf(start, *block_hash);
        }
        let height: u64 = match self.heights.remove(block_hash) {
            Some(height) => height,
            None => {
                assert(self@ =~= rolled_back(start, *block_hash));
                return Err(HashTableError::BlockNotFound);
            },
        };
        let record = match self.blocks.remove(height) {
            Some(record) => record,
            None => {
                assert(self@.blocks =~= start.blocks);
                assert(self@ =~= rolled_back(start, *block_hash));
                return Err(HashTableError::BlockNotFound);
            },
        };
        proof {
            assert(start.blocks.contains_key(height));
            assert(record@ == start.blocks[height]);
            assert(self@.blocks =~= start.blocks.remove(height));
        }
        let mut i: usize = 0;
        assert(record.slots@.skip(0) =~= record.slots@);
        while i < record.slots.len()
            invariant
                i <= record.slots@.len(),
                self.blocks.wf(),
                self.heights.wf(),
                self@.cells.len() == cell_count(),
                valid_places(record.slots@),
                self@.blocks == start.blocks.remove(height),
                self@.heights == start.heights.remove(*block_hash),
                self@.count == start.count,
                all_cleared(start.cells, record.slots@) == all_cleared(
                    self@.cells,
                    record.slots@.skip(i as int),
                ),
            decreases record.slots@.len() - i,
        {
            let ghost rest = record.slots@.skip(i as int);
            let (bucket, slot) = record.slots[i];
            assert(valid_place(record.slots@[i as int]));
            assert(rest[0] == (bucket, slot));
            assert(rest.drop_first() =~= record.slots@.skip(i + 1));
            self.cells[bucket as usize * 112 + slot as usize] = vacant_cell();
            i += 1;
        }
        assert(record.slots@.skip(i as int) =~= Seq::empty());
        self.num_entries -= record.slots.len();
        assert(self@ =~= rolled_back(start, *block_hash));
        Ok(())
    }

    /// Rolls the oldest block back by its hash and says which height it had.
    pub fn evict_oldest_block(&mut self) -> (r: Option<u64>)
        requires
            old(self).wf(),
        ensures
            final(self).wf(),
            final(self)@ == evicted(old(self)@),
            r is Some <==> can_evict(old(self)@),
            r is Some ==> r->0 == lowest(old(self)@),
    {
        let height: u64 = match self.earliest_height() {
            Some(height) => height,
            None => return None,
        };
        let ghost start = self@;
        let hash = match self.blocks.get(height) {
            Some(record) => record.block_hash,
            None => return None,
        };
        assert(start.blocks[height].hash == hash);
        match self.rollback_block(&hash) {
            Ok(()) => Some(height),
            Err(_) => None,
        }
    }

    /// Evicts oldest blocks until at most `TARGET_SIZE` entries are left.
    pub fn evict_to_target(&mut self)
        requires
            old(self).wf(),
        ensures
            final(self).wf(),
            final(self)@ == evicted_to(old(self)@, TARGET_SIZE as nat),
            old(self)@.count <= 1_000_000 ==> final(self)@ == old(self)@,
    {
        self.evict_to_size(TARGET_SIZE)
    }

    /// Evicts oldest blocks until at most `target_size` entries are left.
    pub fn evict_to_size(&mut self, target_size: usize)
        requires
            old(self).wf(),
        ensures
            final(self).wf(),
            final(self)@ == evicted_to(old(self)@, target_size as nat),
            old(self)@.count <= target_size ==> final(self)@ == old(self)@,
    {
        let ghost whole = evicted_to(self@, target_size as nat);
        while self.num_entries > target_size
            invariant_except_break
                evicted_to(self@, target_size as nat) == whole,
            invariant
                self.wf(),
            ensures
                self@ == whole,
            decreases self@.blocks.dom().len(),
        {
            proof {
                lemma_evicted_wf(self@);
            }
            if self.evict_oldest_block().is_none() {
                break;
            }
        }
    }

    /// Rolls the highest blocks above `height` back, one after the other.
    pub fn rewind_to(&mut self, height: u64) -> (r: Result<(), HashTableError>)
        requires
            old(self).wf(),
        ensures
            final(self).wf(),
            final(self)@ == rewound(old(self)@, height),
            r is Ok <==> can_rewind(old(self)@, height),
            r is Err ==> r->Err_0 is BlockNotFound,
    {
        let ghost start = self@;
        loop
            invariant
                start == old(self)@,
                self.wf(),
                rewound(self@, height) == rewound(start, height),
                can_rewind(self@, height) == can_rewind(start, height),
            decreases self@.blocks.dom().len(),
        {
            let latest: u64 = match self.latest_height() {
                Some(latest) => latest,
                None => return Ok(()),
            };
            if latest <= height {
                return Ok(());
            }
            let hash = match self.blocks.get(latest) {
                Some(record) => record.block_hash,
                None => return Ok(()),
            };
            proof {
                assert(self@.blocks[latest].hash == hash);
                if can_roll_back(self@, hash) {
                    lemma_rolled_back_wf(self@, hash);
                }
            }
            match self.rollback_block(&hash) {
                Ok(()) => {},
                Err(error) => return Err(error),
            }
        }
    }

    /// Whether a cell of the bucket of `nf` holds it.
    pub fn contains(&self, nf: &Nullifier) -> (r: bool)
        requires
            self.wf(),
        ensures
            r == held(self@.cells, *nf),
    {
        let bucket = hash_to_bucket(nf);
        let base: usize = bucket as usize * 112;
        let mut slot: usize = 0;
        while slot < 112
            invariant
                slot <= 112,
                bucket == bucket_of(*nf),
                bucket < 16_384,
                base == bucket * 112,
                self.cells@.len() == cell_count(),
                forall|s: int|
                    0 <= s < slot ==> #[trigger] self.cells@[cell_index(bucket_of(*nf), s)] != *nf,
            decreases 112 - slot,
        {
            assert(cell_index(bucket_of(*nf), slot as int) == base + slot);
            if hash_eq(&self.cells[base + slot], nf) {
                assert(self.cells@[cell_index(bucket_of(*nf), slot as int)] == *nf);
                return true;
            }
            slot += 1;
        }
        false
    }

    /// The PIR database: every cell's bytes, bucket after bucket.
    pub fn to_pir_bytes(&self) -> (bytes: Vec<u8>)
        requires
            self.wf(),
        ensures
            bytes@ == concat_hashes(self@.cells),
            bytes@.len() == 58_720_256,
    {
        let mut bytes: Vec<u8> = Vec::with_capacity(58_720_256);
        push_hashes(&mut bytes, &self.cells);
        assert(bytes@ =~= concat_hashes(self@.cells));
        bytes
    }

    /// The number of entries.
    pub fn len(&self) -> (n: usize)
        ensures
            n == self@.count,
    {
        self.num_entries
    }

    /// Whether there are no entries.
    pub fn is_empty(&self) -> (r: bool)
        ensures
            r == (self@.count == 0),
    {
        self.num_entries == 0
    }

    /// The lowest height held.
    pub fn earliest_height(&self) -> (r: Option<u64>)
        requires
            self.wf(),
        ensures
            r is None <==> no_blocks(self@),
            r is Some ==> r->0 == lowest(self@) && is_lowest(self@, r->0),
    {
        let r = self.blocks.first_key();
        proof {
            self.lemma_same_heights();
            if r is Some {
                assert(self@.blocks.contains_key(r->0));
                lemma_has_extremes(self@);
                assert(is_lowest(self@, r->0));
            }
        }
        r
    }

    /// The highest height held.
    pub fn latest_height(&self) -> (r: Option<u64>)
        requires
            self.wf(),
        ensures
            r is None <==> no_blocks(self@),
            r is Some ==> r->0 == highest(self@) && is_highest(self@, r->0),
    {
        let r = self.blocks.last_key();
        proof {
            self.lemma_same_heights();
            if r is Some {
                assert(self@.blocks.contains_key(r->0));
                lemma_has_extremes(self@);
                assert(is_highest(self@, r->0));
            }
        }
        r
    }

    /// The hash of the block at the highest height held.
    pub fn latest_block_hash(&self) -> (r: Option<Hash32>)
        requires
            self.wf(),
        ensures
            r is None <==> no_blocks(self@),
            r is Some ==> r->0 == self@.blocks[highest(self@)].hash,
    {
        match self.latest_height() {
            Some(height) => match self.blocks.get(height) {
                Some(record) => Some(record.block_hash),
                None => None,
            },
            None => None,
        }
    }

    /// The number of blocks held.
    pub fn num_blocks(&self) -> (n: usize)
        requires
            self.wf(),
        ensures
            n == self@.blocks.dom().len(),
    {
        proof {
            self.lemma_same_heights();
        }
        self.blocks.len()
    }

    proof fn lemma_same_heights(&self)
        ensures
            self@.blocks.dom() =~= self.blocks@.dom(),
            no_blocks(self@) <==> self.blocks@ == Map::<u64, BlockRecord>::empty(),
    {
        assert(self@.blocks.dom() =~= self.blocks@.dom());
        if no_blocks(self@) {
            assert(self.blocks@.dom() =~= Set::empty());
            assert(self.blocks@ =~= Map::<u64, BlockRecord>::empty());
        }
        if self.blocks@ == Map::<u64, BlockRecord>::empty() {
            assert(self@.blocks =~= Map::<u64, BlockView>::empty());
        }
    }
}

impl Default for HashTableDb {
    fn default() -> (db: Self)
        ensures
            db.wf(),
            db@ == empty_state(),
    {
        HashTableDb::new()
    }
}

} // verus!
