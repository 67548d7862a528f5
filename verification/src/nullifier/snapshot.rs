//! Snapshots of the nullifier table.
//!
//! A snapshot is a header, the number of entries, every cell, the blocks in
//! ascending height order and the heights of block hashes. All numbers are
//! eight little-endian bytes; a place is the number of its cell.

use super::table::{BlockRecord, HashTableDb, HashTableError};
use super::types::Nullifier;
use crate::bytes::{hash_at, push_hash, push_hashes, push_u64, read_hashes, read_u64, Hash32};
use crate::hash_index::HashIndex;
use crate::ordered::OrderedMap;
use vstd::prelude::*;
#[allow(unused_imports)]
use super::cells::{cell_count, place_index, valid_place, valid_places};
#[allow(unused_imports)]
use super::state::{lemma_empty_total, lemma_total_insert, total_slots, BlockView, TableView};
#[allow(unused_imports)]
use crate::bytes::{
    array_at, concat_hashes, le_bytes, lemma_array_of, lemma_hash_read, lemma_hashes_rewritten,
    lemma_le_bytes_len, lemma_u64_in, lemma_u64_rewritten, u64_at,
};
#[allow(unused_imports)]
use crate::hash_index::{distinct, index_map, index_position, lemma_index_map};
#[allow(unused_imports)]
use crate::ordered::{ascending, lemma_map_of, map_of, position_of};

verus! {

/// The number that opens a snapshot.
pub const SNAPSHOT_HEADER: u64 = 0x0002_5249_504c_554e;

/// The place of the cell with number `index`.
pub open spec fn place_of(index: nat) -> (u32, u8) {
    ((index / 112) as u32, (index % 112) as u8)
}

/// The places held from `at` on, when each names a cell.
pub open spec fn parse_places(b: Seq<u8>, at: int, n: nat) -> Option<Seq<(u32, u8)>> {
    if at + 8 * n <= b.len() && forall|i: int|
        0 <= i < n ==> #[trigger] u64_at(b, at + 8 * i) < cell_count() {
        Some(Seq::new(n, |i: int| place_of(u64_at(b, at + 8 * i))))
    } else {
        None
    }
}

/// The blocks of a snapshot, as far as they have been read.
#[verifier::ext_equal]
pub struct BlocksRead {
    pub blocks: Map<u64, BlockView>,
    pub total: nat,
    pub next: int,
}

/// Reads `n` blocks from `acc.next` on, whose heights ascend from `least`.
#[verifier::opaque]
pub open spec fn parse_blocks(b: Seq<u8>, n: nat, least: int, acc: BlocksRead) -> Option<BlocksRead>
    decreases n,
{
    let at = acc.next;
    if n == 0 {
        Some(acc)
    } else if at + 48 > b.len() {
        None
    } else {
        let height = u64_at(b, at);
        let k = u64_at(b, at + 40);
        match parse_places(b, at + 48, k) {
            Some(slots) => if height < least {
                None
            } else {
                parse_blocks(
                    b,
                    (n - 1) as nat,
                    height as int + 1,
                    BlocksRead {
                        blocks: acc.blocks.insert(
                            height as u64,
                            BlockView { hash: array_at(b, at + 8), slots },
                        ),
                        total: acc.total + k,
                        next: at + 48 + 8 * k,
                    },
                )
            },
            None => None,
        }
    }
}

/// Reads the heights of `n` hashes, which must be the rest of the snapshot.
pub open spec fn parse_heights(b: Seq<u8>, at: int, n: nat, acc: Map<Hash32, u64>) -> Option<
    Map<Hash32, u64>,
>
    decreases n,
{
    if n == 0 {
        if at == b.len() {
            Some(acc)
        } else {
            None
        }
    } else if at + 40 > b.len() {
        None
    } else {
        parse_heights(
            b,
            at + 40,
            (n - 1) as nat,
            acc.insert(array_at(b, at), u64_at(b, at + 32) as u64),
        )
    }
}

/// The cells held from `at` on.
pub open spec fn parse_cells(b: Seq<u8>, at: int) -> Seq<Nullifier> {
    Seq::new(cell_count() as nat, |i: int| array_at(b, at + 32 * i))
}

/// Where the blocks of a snapshot begin.
pub open spec fn blocks_start() -> int {
    58_720_280
}

/// The table that a snapshot describes, if it describes one.
pub open spec fn decode(b: Seq<u8>) -> Option<TableView> {
    if b.len() < blocks_start() || u64_at(b, 0) != SNAPSHOT_HEADER {
        None
    } else {
        let start = BlocksRead { blocks: Map::empty(), total: 0, next: blocks_start() };
        match parse_blocks(b, u64_at(b, 58_720_272), 0, start) {
            Some(read) => if read.total > u64_at(b, 8) || u64_at(b, 8) > usize::MAX || read.next + 8
                > b.len() {
                None
            } else {
                match parse_heights(b, read.next + 8, u64_at(b, read.next), Map::empty()) {
                    Some(heights) => Some(
                        TableView {
                            cells: parse_cells(b, 16),
                            blocks: read.blocks,
                            heights,
                            count: u64_at(b, 8),
                        },
                    ),
                    None => None,
                }
            },
            None => None,
        }
    }
}

/// The bytes of places.
pub open spec fn places_bytes(slots: Seq<(u32, u8)>) -> Seq<u8>
    decreases slots.len(),
{
    if slots.len() == 0 {
        Seq::empty()
    } else {
        places_bytes(slots.drop_last()) + le_bytes(place_index(slots.last()) as nat, 8)
    }
}

/// The bytes of a block.
pub open spec fn block_bytes(height: u64, block: BlockView) -> Seq<u8> {
    le_bytes(height as nat, 8) + block.hash@ + le_bytes(block.slots.len(), 8) + places_bytes(
        block.slots,
    )
}

/// The bytes of blocks, one after the other.
pub open spec fn blocks_bytes(list: Seq<(u64, BlockView)>) -> Seq<u8>
    decreases list.len(),
{
    if list.len() == 0 {
        Seq::empty()
    } else {
        blocks_bytes(list.drop_last()) + block_bytes(list.last().0, list.last().1)
    }
}

/// The bytes of heights by hash, one after the other.
pub open spec fn heights_bytes(list: Seq<(Hash32, u64)>) -> Seq<u8>
    decreases list.len(),
{
    if list.len() == 0 {
        Seq::empty()
    } else {
        heights_bytes(list.drop_last()) + (list.last().0@ + le_bytes(list.last().1 as nat, 8))
    }
}

proof fn lemma_places_bytes(slots: Seq<(u32, u8)>)
    ensures
        places_bytes(slots).len() == 8 * slots.len(),
    decreases slots.len(),
{
    if slots.len() > 0 {
        lemma_places_bytes(slots.drop_last());
        lemma_le_bytes_len(place_index(slots.last()) as nat, 8);
    }
}

/// A place can be told from the number of its cell.
proof fn lemma_place_number(place: (u32, u8))
    requires
        valid_place(place),
    ensures
        0 <= place_index(place) < cell_count(),
        place_of(place_index(place) as nat) == place,
{
}

proof fn lemma_place_read(pre: Seq<u8>, slots: Seq<(u32, u8)>, post: Seq<u8>, i: int)
    requires
        valid_places(slots),
        0 <= i < slots.len(),
    ensures
        u64_at(pre + places_bytes(slots) + post, pre.len() + 8 * i) == place_index(slots[i]),
    decreases slots.len(),
{
    let b = pre + places_bytes(slots) + post;
    let shorter = slots.drop_last();
    lemma_places_bytes(shorter);
    lemma_le_bytes_len(place_index(slots.last()) as nat, 8);
    assert(valid_place(slots[i]));
    lemma_place_number(slots[i]);
    if i == slots.len() - 1 {
        lemma_u64_in(pre + places_bytes(shorter), place_index(slots.last()) as nat, post);
        assert(b =~= pre + places_bytes(shorter) + le_bytes(place_index(slots.last()) as nat, 8)
            + post);
    } else {
        assert forall|j: int| 0 <= j < shorter.len() implies valid_place(
            #[trigger] shorter[j],
        ) by {
            assert(shorter[j] == slots[j]);
        }
        let more = le_bytes(place_index(slots.last()) as nat, 8) + post;
        lemma_place_read(pre, shorter, more, i);
        assert(b =~= pre + places_bytes(shorter) + more);
    }
}

proof fn lemma_places_read(pre: Seq<u8>, slots: Seq<(u32, u8)>, post: Seq<u8>)
    requires
        valid_places(slots),
    ensures
        places_bytes(slots).len() == 8 * slots.len(),
        parse_places(pre + places_bytes(slots) + post, pre.len() as int, slots.len()) == Some(slots),
{
    let b = pre + places_bytes(slots) + post;
    lemma_places_bytes(slots);
    assert forall|i: int| 0 <= i < slots.len() implies #[trigger] u64_at(b, pre.len() + 8 * i)
        == place_index(slots[i]) && valid_place(slots[i]) by {
        lemma_place_read(pre, slots, post, i);
        assert(valid_place(slots[i]));
    }
    assert forall|i: int| 0 <= i < slots.len() implies #[trigger] u64_at(b, pre.len() + 8 * i)
        < cell_count() by {
        lemma_place_number(slots[i]);
    }
    let read = Seq::new(slots.len(), |i: int| place_of(u64_at(b, pre.len() + 8 * i)));
    assert forall|i: int| 0 <= i < slots.len() implies read[i] == slots[i] by {
        assert(u64_at(b, pre.len() + 8 * i) == place_index(slots[i]));
        lemma_place_number(slots[i]);
    }
    assert(read =~= slots);
}

/// The number of places of listed blocks.
pub open spec fn list_total(list: Seq<(u64, BlockView)>) -> nat
    decreases list.len(),
{
    if list.len() == 0 {
        0
    } else {
        list_total(list.drop_last()) + list.last().1.slots.len()
    }
}

proof fn lemma_list_total(list: Seq<(u64, BlockView)>)
    requires
        ascending(list),
    ensures
        map_of(list).dom().finite(),
        list_total(list) == total_slots(map_of(list)),
    decreases list.len(),
{
    if list.len() == 0 {
        assert(map_of(list) =~= Map::empty());
        lemma_empty_total();
    } else {
        let shorter = list.drop_last();
        assert(ascending(shorter));
        lemma_list_total(shorter);
        lemma_map_of_push(shorter, list.last().0, list.last().1);
        assert(shorter.push(list.last()) =~= list);
        lemma_total_insert(map_of(shorter), list.last().0, list.last().1);
    }
}

/// A listed block extends the map of those before it.
proof fn lemma_map_of_push(list: Seq<(u64, BlockView)>, height: u64, block: BlockView)
    requires
        ascending(list.push((height, block))),
    ensures
        map_of(list.push((height, block))) == map_of(list).insert(height, block),
        !map_of(list).contains_key(height),
{
    let more = list.push((height, block));
    assert forall|i: int, j: int| 0 <= i < j < list.len() implies (#[trigger] list[i]).0 < (
    #[trigger] list[j]).0 by {
        assert(more[i].0 < more[j].0);
    }
    lemma_map_of(more, list.len() as int);
    if map_of(list).contains_key(height) {
        let p = position_of(list, height);
        assert(more[p].0 < more[list.len() as int].0);
    }
    assert forall|x: u64| map_of(more).contains_key(x) <==> #[trigger] map_of(list).insert(
        height,
        block,
    ).contains_key(x) by {
        if map_of(more).contains_key(x) && x != height {
            let p = position_of(more, x);
            assert(list[p].0 == x);
        }
        if map_of(list).contains_key(x) {
            let p = position_of(list, x);
            assert(more[p].0 == x);
        }
    }
    assert forall|x: u64| #[trigger] map_of(more).contains_key(x) implies map_of(more)[x] == map_of(
        list,
    ).insert(height, block)[x] by {
        if x != height {
            let p = position_of(more, x);
            lemma_map_of(more, p);
            lemma_map_of(list, p);
        }
    }
    assert(map_of(more) =~= map_of(list).insert(height, block));
}

/// What has been read after the first `i` listed blocks.
spec fn read_so_far(pre: Seq<u8>, list: Seq<(u64, BlockView)>, i: int) -> BlocksRead {
    BlocksRead {
        blocks: map_of(list.take(i)),
        total: list_total(list.take(i)),
        next: pre.len() as int + blocks_bytes(list.take(i)).len(),
    }
}

proof fn lemma_blocks_split(list: Seq<(u64, BlockView)>, i: int)
    requires
        0 <= i < list.len(),
    ensures
        blocks_bytes(list.take(i + 1)) == blocks_bytes(list.take(i)) + block_bytes(
            list[i].0,
            list[i].1,
        ),
        list_total(list.take(i + 1)) == list_total(list.take(i)) + list[i].1.slots.len(),
{
    assert(list.take(i + 1).drop_last() =~= list.take(i));
}

proof fn lemma_blocks_tail(list: Seq<(u64, BlockView)>, i: int) -> (tail: Seq<u8>)
    requires
        0 <= i <= list.len(),
    ensures
        blocks_bytes(list) == blocks_bytes(list.take(i)) + tail,
    decreases list.len() - i,
{
    if i == list.len() {
        assert(list.take(i) =~= list);
        assert(blocks_bytes(list) + Seq::<u8>::empty() =~= blocks_bytes(list));
        Seq::empty()
    } else {
        lemma_blocks_split(list, i);
        let rest = lemma_blocks_tail(list, i + 1);
        let tail = block_bytes(list[i].0, list[i].1) + rest;
        assert(blocks_bytes(list.take(i + 1)) + rest =~= blocks_bytes(list.take(i)) + tail);
        tail
    }
}

proof fn lemma_block_read(front: Seq<u8>, height: u64, block: BlockView, post: Seq<u8>)
    requires
        valid_places(block.slots),
        block.slots.len() <= u64::MAX,
    ensures
        ({
            let b = front + block_bytes(height, block) + post;
            let at = front.len() as int;
            &&& block_bytes(height, block).len() == 48 + 8 * block.slots.len()
            &&& at + 48 + 8 * block.slots.len() <= b.len()
            &&& u64_at(b, at) == height
            &&& array_at(b, at + 8) == block.hash
            &&& u64_at(b, at + 40) == block.slots.len()
            &&& parse_places(b, at + 48, block.slots.len()) == Some(block.slots)
        }),
{
    let b = front + block_bytes(height, block) + post;
    let n = block.slots.len();
    let hash = block.hash@;
    let places = places_bytes(block.slots);
    lemma_le_bytes_len(height as nat, 8);
    lemma_le_bytes_len(n, 8);
    lemma_places_bytes(block.slots);
    let rest = hash + le_bytes(n, 8) + places + post;
    assert(b =~= front + le_bytes(height as nat, 8) + rest);
    lemma_u64_in(front, height as nat, rest);
    assert(b.subrange(front.len() as int + 8, front.len() as int + 40) =~= hash);
    lemma_array_of(block.hash, hash);
    let named = front + le_bytes(height as nat, 8) + hash;
    assert(b =~= named + le_bytes(n, 8) + (places + post));
    lemma_u64_in(named, n, places + post);
    let counted = named + le_bytes(n, 8);
    assert(b =~= counted + places + post);
    lemma_places_read(counted, block.slots, post);
}

/// Reading one more block.
proof fn lemma_parse_step(b: Seq<u8>, n: nat, least: int, acc: BlocksRead, height: u64, block: BlockView)
    requires
        n > 0,
        acc.next + 48 <= b.len(),
        u64_at(b, acc.next) == height,
        array_at(b, acc.next + 8) == block.hash,
        u64_at(b, acc.next + 40) == block.slots.len(),
        parse_places(b, acc.next + 48, block.slots.len()) == Some(block.slots),
        least <= height,
    ensures
        parse_blocks(b, n, least, acc) == parse_blocks(
            b,
            (n - 1) as nat,
            height + 1,
            BlocksRead {
                blocks: acc.blocks.insert(height, block),
                total: acc.total + block.slots.len(),
                next: acc.next + 48 + 8 * block.slots.len(),
            },
        ),
{
    reveal(parse_blocks);
    assert(BlockView { hash: block.hash, slots: block.slots } == block);
}

/// What has been read after one more listed block.
proof fn lemma_read_step(pre: Seq<u8>, list: Seq<(u64, BlockView)>, i: int)
    requires
        ascending(list),
        0 <= i < list.len(),
    ensures
        read_so_far(pre, list, i + 1) == (BlocksRead {
            blocks: read_so_far(pre, list, i).blocks.insert(list[i].0, list[i].1),
            total: read_so_far(pre, list, i).total + list[i].1.slots.len(),
            next: read_so_far(pre, list, i).next + block_bytes(list[i].0, list[i].1).len(),
        }),
{
    lemma_blocks_split(list, i);
    let longer = list.take(i + 1);
    assert(longer =~= list.take(i).push(list[i]));
    assert forall|p: int, q: int| 0 <= p < q < longer.len() implies (#[trigger] longer[p]).0 < (
    #[trigger] longer[q]).0 by {
        assert(list[p].0 < list[q].0);
    }
    lemma_map_of_push(list.take(i), list[i].0, list[i].1);
}

proof fn lemma_blocks_read(pre: Seq<u8>, list: Seq<(u64, BlockView)>, post: Seq<u8>, i: int)
    requires
        ascending(list),
        forall|k: int| 0 <= k < list.len() ==> valid_places((#[trigger] list[k]).1.slots),
        forall|k: int| 0 <= k < list.len() ==> (#[trigger] list[k]).1.slots.len() <= u64::MAX,
        0 <= i <= list.len(),
    ensures
        parse_blocks(
            pre + blocks_bytes(list) + post,
            (list.len() - i) as nat,
            if i == 0 {
                0
            } else {
                list[i - 1].0 + 1
            },
            read_so_far(pre, list, i),
        ) == Some(read_so_far(pre, list, list.len() as int)),
    decreases list.len() - i,
{
    if i < list.len() {
        let b = pre + blocks_bytes(list) + post;
        let acc = read_so_far(pre, list, i);
        let (height, block) = list[i];
        let least: int = if i == 0 {
            0
        } else {
            list[i - 1].0 + 1
        };
        assert(least <= height) by {
            if i > 0 {
                assert(list[i - 1].0 < list[i].0);
            }
        }
        assert(valid_places(list[i].1.slots));
        let front = pre + blocks_bytes(list.take(i));
        let tail = lemma_blocks_tail(list, i + 1);
        assert(b == front + block_bytes(height, block) + (tail + post)) by {
            lemma_blocks_split(list, i);
            assert(b =~= front + block_bytes(height, block) + (tail + post));
        }
        lemma_block_read(front, height, block, tail + post);
        assert(acc.next == front.len());
        lemma_parse_step(b, (list.len() - i) as nat, least, acc, height, block);
        lemma_read_step(pre, list, i);
        lemma_blocks_read(pre, list, post, i + 1);
    } else {
        reveal(parse_blocks);
    }
}

proof fn lemma_heights_len(list: Seq<(Hash32, u64)>)
    ensures
        heights_bytes(list).len() == 40 * list.len(),
    decreases list.len(),
{
    if list.len() > 0 {
        lemma_heights_len(list.drop_last());
        lemma_le_bytes_len(list.last().1 as nat, 8);
    }
}

proof fn lemma_height_read(pre: Seq<u8>, list: Seq<(Hash32, u64)>, i: int)
    requires
        0 <= i < list.len(),
    ensures
        array_at(pre + heights_bytes(list), pre.len() + 40 * i) == list[i].0,
        u64_at(pre + heights_bytes(list), pre.len() + 40 * i + 32) == list[i].1,
    decreases list.len(),
{
    let b = pre + heights_bytes(list);
    let shorter = list.drop_last();
    lemma_heights_len(shorter);
    lemma_heights_len(list);
    lemma_le_bytes_len(list.last().1 as nat, 8);
    if i == list.len() - 1 {
        let front = pre + heights_bytes(shorter);
        assert(b =~= (front + list.last().0@) + le_bytes(list.last().1 as nat, 8) + Seq::<
            u8,
        >::empty());
        lemma_u64_in(front + list.last().0@, list.last().1 as nat, Seq::empty());
        assert(b.subrange(front.len() as int, front.len() as int + 32) =~= list.last().0@);
        lemma_array_of(list.last().0, list.last().0@);
    } else {
        lemma_height_read(pre, shorter, i);
        let less = pre + heights_bytes(shorter);
        let at = pre.len() + 40 * i;
        assert(b.subrange(at, at + 32) =~= less.subrange(at, at + 32));
        assert(b.subrange(at + 32, at + 40) =~= less.subrange(at + 32, at + 40));
    }
}

proof fn lemma_index_map_push(list: Seq<(Hash32, u64)>, hash: Hash32, height: u64)
    requires
        distinct(list.push((hash, height))),
    ensures
        index_map(list.push((hash, height))) == index_map(list).insert(hash, height),
{
    let more = list.push((hash, height));
    assert forall|i: int, j: int| 0 <= i < j < list.len() implies (#[trigger] list[i]).0 != (
    #[trigger] list[j]).0 by {
        assert(more[i].0 != more[j].0);
    }
    lemma_index_map(more, list.len() as int);
    assert forall|x: Hash32| index_map(more).contains_key(x) <==> #[trigger] index_map(list).insert(
        hash,
        height,
    ).contains_key(x) by {
        if index_map(more).contains_key(x) && x != hash {
            let p = index_position(more, x);
            assert(list[p].0 == x);
        }
        if index_map(list).contains_key(x) {
            let p = index_position(list, x);
            assert(more[p].0 == x);
        }
    }
    assert forall|x: Hash32| #[trigger] index_map(more).contains_key(x) implies index_map(more)[x]
        == index_map(list).insert(hash, height)[x] by {
        if x != hash {
            let p = index_position(more, x);
            lemma_index_map(more, p);
            lemma_index_map(list, p);
        }
    }
    assert(index_map(more) =~= index_map(list).insert(hash, height));
}

proof fn lemma_heights_read(pre: Seq<u8>, list: Seq<(Hash32, u64)>, i: int)
    requires
        distinct(list),
        0 <= i <= list.len(),
    ensures
        parse_heights(
            pre + heights_bytes(list),
            pre.len() + 40 * i,
            (list.len() - i) as nat,
            index_map(list.take(i)),
        ) == Some(index_map(list)),
    decreases list.len() - i,
{
    lemma_heights_len(list);
    if i == list.len() {
        assert(list.take(i) =~= list);
    } else {
        lemma_height_read(pre, list, i);
        assert(list.take(i + 1) =~= list.take(i).push(list[i]));
        assert forall|p: int, q: int| 0 <= p < q < i + 1 implies (#[trigger] list.take(i + 1)[p]).0
            != (#[trigger] list.take(i + 1)[q]).0 by {
            assert(list[p].0 != list[q].0);
        }
        lemma_index_map_push(list.take(i), list[i].0, list[i].1);
        lemma_heights_read(pre, list, i + 1);
    }
}

/// The bytes of a snapshot.
pub open spec fn snapshot_bytes(
    count: nat,
    cells: Seq<Nullifier>,
    blocks: Seq<(u64, BlockView)>,
    heights: Seq<(Hash32, u64)>,
) -> Seq<u8> {
    le_bytes(SNAPSHOT_HEADER as nat, 8) + le_bytes(count, 8) + concat_hashes(cells) + le_bytes(
        blocks.len(),
        8,
    ) + blocks_bytes(blocks) + le_bytes(heights.len(), 8) + heights_bytes(heights)
}

/// A snapshot describes the table it was made from.
proof fn lemma_snapshot_decodes(
    count: nat,
    cells: Seq<Nullifier>,
    blocks: Seq<(u64, BlockView)>,
    heights: Seq<(Hash32, u64)>,
)
    requires
        count <= usize::MAX,
        cells.len() == cell_count(),
        ascending(blocks),
        distinct(heights),
        blocks.len() <= u64::MAX,
        heights.len() <= u64::MAX,
        forall|k: int| 0 <= k < blocks.len() ==> valid_places((#[trigger] blocks[k]).1.slots),
        forall|k: int| 0 <= k < blocks.len() ==> (#[trigger] blocks[k]).1.slots.len() <= u64::MAX,
        list_total(blocks) <= count,
    ensures
        decode(snapshot_bytes(count, cells, blocks, heights)) == Some(
            TableView { cells, blocks: map_of(blocks), heights: index_map(heights), count },
        ),
{
    let b = snapshot_bytes(count, cells, blocks, heights);
    let head = le_bytes(SNAPSHOT_HEADER as nat, 8);
    let raw = concat_hashes(cells);
    let nb = le_bytes(blocks.len(), 8);
    let body = blocks_bytes(blocks);
    let nh = le_bytes(heights.len(), 8);
    let tail = heights_bytes(heights);
    lemma_le_bytes_len(SNAPSHOT_HEADER as nat, 8);
    lemma_le_bytes_len(count, 8);
    lemma_le_bytes_len(blocks.len(), 8);
    lemma_le_bytes_len(heights.len(), 8);
    lemma_heights_len(heights);
    let e = Seq::<u8>::empty();
    let cnt = le_bytes(count, 8);
    assert(b =~= e + head + (cnt + raw + nb + body + nh + tail));
    lemma_u64_in(e, SNAPSHOT_HEADER as nat, cnt + raw + nb + body + nh + tail);
    assert(b =~= head + cnt + (raw + nb + body + nh + tail));
    lemma_u64_in(head, count, raw + nb + body + nh + tail);
    assert(b =~= (head + cnt + raw) + nb + (body + nh + tail));
    lemma_u64_in(head + cnt + raw, blocks.len(), body + nh + tail);
    let pre = head + cnt + raw + nb;
    assert(b =~= pre + body + (nh + tail));
    lemma_blocks_read(pre, blocks, nh + tail, 0);
    assert(blocks.take(0) =~= Seq::empty());
    assert(map_of(blocks.take(0)) =~= Map::empty());
    assert(read_so_far(pre, blocks, 0) == BlocksRead {
        blocks: Map::empty(),
        total: 0,
        next: blocks_start(),
    });
    assert(blocks.take(blocks.len() as int) =~= blocks);
    assert(b =~= (pre + body) + nh + tail);
    lemma_u64_in(pre + body, heights.len(), tail);
    assert(b =~= (pre + body + nh) + tail);
    lemma_heights_read(pre + body + nh, heights, 0);
    assert(heights.take(0) =~= Seq::empty());
    assert(index_map(heights.take(0)) =~= Map::empty());
    let got = parse_cells(b, 16);
    assert(b =~= (head + cnt) + raw + (nb + body + nh + tail));
    assert forall|i: int| 0 <= i < cell_count() implies got[i] == cells[i] by {
        lemma_hash_read(head + cnt, cells, nb + body + nh + tail, i);
    }
    assert(got =~= cells);
}

/// Reads `k` places that all fit before the end of `bytes`.
fn read_places(bytes: &[u8], at: usize, k: usize) -> (r: Option<Vec<(u32, u8)>>)
    requires
        at + 8 * k <= bytes@.len(),
    ensures
        r is Some <==> parse_places(bytes@, at as int, k as nat) is Some,
        r is Some ==> Some(r->0@) == parse_places(bytes@, at as int, k as nat),
        r is Some ==> valid_places(r->0@),
{
    let total: usize = bytes.len();
    let mut slots: Vec<(u32, u8)> = Vec::new();
    let mut i: usize = 0;
    while i < k
        invariant
            i <= k,
            at + 8 * k <= total == bytes@.len(),
            slots@.len() == i,
            forall|j: int| 0 <= j < i ==> #[trigger] u64_at(bytes@, at + 8 * j) < cell_count(),
            forall|j: int|
                0 <= j < i ==> #[trigger] slots@[j] == place_of(u64_at(bytes@, at + 8 * j)),
            valid_places(slots@),
        decreases k - i,
    {
        let index: u64 = read_u64(bytes, at + 8 * i);
        assert(index == u64_at(bytes@, at + 8 * i));
        if index >= 1_835_008 {
            return None;
        }
        slots.push(((index / 112) as u32, (index % 112) as u8));
        i += 1;
    }
    assert(slots@ =~= Seq::new(k as nat, |j: int| place_of(u64_at(bytes@, at + 8 * j))));
    Some(slots)
}

/// Blocks read from a snapshot, the number of their places, and where they end.
struct BlocksFound {
    blocks: OrderedMap<BlockRecord>,
    total: usize,
    next: usize,
}

/// Reads `n` blocks.
fn read_blocks(bytes: &[u8], n: u64) -> (r: Option<BlocksFound>)
    requires
        bytes@.len() >= blocks_start(),
    ensures
        ({
            let start = BlocksRead { blocks: Map::empty(), total: 0, next: blocks_start() };
            match parse_blocks(bytes@, n as nat, 0, start) {
                Some(read) => r is Some && r->0.blocks.wf() && r->0.blocks@.map_values(
                    |x: BlockRecord| x@,
                ) == read.blocks && r->0.total == read.total && r->0.next == read.next
                    && r->0.next <= bytes@.len() && total_slots(read.blocks) == read.total
                    && read.blocks.dom().finite() && (forall|h: u64| #[trigger]
                    read.blocks.contains_key(h) ==> valid_places(read.blocks[h].slots)),
                None => r is None,
            }
        }),
{
    let size: usize = bytes.len();
    let ghost start = BlocksRead { blocks: Map::empty(), total: 0, next: blocks_start() };
    let mut blocks: OrderedMap<BlockRecord> = OrderedMap::new();
    let mut total: usize = 0;
    let mut at: usize = 58_720_280;
    let mut left: u64 = n;
    let mut last: Option<u64> = None;
    let ghost mut acc = start;
    let ghost mut least: int = 0;
    proof {
        reveal(parse_blocks);
        assert(blocks@.map_values(|x: BlockRecord| x@) =~= Map::empty());
        lemma_empty_total();
    }
    while left > 0
        invariant
            start == (BlocksRead { blocks: Map::empty(), total: 0, next: blocks_start() }),
            size == bytes@.len(),
            at <= size,
            8 * total <= at,
            blocks.wf(),
            blocks@.map_values(|x: BlockRecord| x@) == acc.blocks,
            total == acc.total,
            at == acc.next,
            acc.blocks.dom().finite(),
            total_slots(acc.blocks) == acc.total,
            forall|h: u64| #[trigger] acc.blocks.contains_key(h) ==> valid_places(
                acc.blocks[h].slots,
            ),
            forall|h: u64| #[trigger] acc.blocks.contains_key(h) ==> h < least,
            least == (match last {
                Some(h) => h + 1,
                None => 0int,
            }),
            parse_blocks(bytes@, n as nat, 0, start) == parse_blocks(
                bytes@,
                left as nat,
                least,
                acc,
            ),
        decreases left,
    {
        proof {
            reveal(parse_blocks);
        }
        if size - at < 48 {
            return None;
        }
        let height: u64 = read_u64(bytes, at);
        let block_hash = hash_at(bytes, at + 8);
        let k: u64 = read_u64(bytes, at + 40);
        proof {
            lemma_array_of(block_hash, bytes@.subrange(at + 8, at + 40));
            assert(height == u64_at(bytes@, at as int));
            assert(k == u64_at(bytes@, at + 40));
        }
        let room: usize = (size - at - 48) / 8;
        if k > room as u64 {
            return None;
        }
        let count: usize = k as usize;
        let slots = match read_places(bytes, at + 48, count) {
            Some(slots) => slots,
            None => return None,
        };
        let low: bool = match last {
            Some(h) => height <= h,
            None => false,
        };
        if low {
            return None;
        }
        let ghost record = BlockRecord { block_hash, slots };
        let ghost before = acc;
        blocks.insert(height, BlockRecord { block_hash, slots });
        total = total + count;
        at = at + 48 + 8 * count;
        left = left - 1;
        last = Some(height);
        proof {
            acc = BlocksRead {
                blocks: before.blocks.insert(height, record@),
                total: before.total + k as nat,
                next: before.next + 48 + 8 * k,
            };
            least = height + 1;
            assert(blocks@.map_values(|x: BlockRecord| x@) =~= acc.blocks);
            if before.blocks.contains_key(height) {
                assert(height < least);
            }
            lemma_total_insert(before.blocks, height, record@);
        }
    }
    Some(BlocksFound { blocks, total, next: at })
}

fn read_heights(bytes: &[u8], start: usize, n: u64) -> (r: Option<HashIndex>)
    requires
        start <= bytes@.len(),
    ensures
        match parse_heights(bytes@, start as int, n as nat, Map::empty()) {
            Some(heights) => r is Some && r->0.wf() && r->0@ == heights,
            None => r is None,
        },
{
    let size: usize = bytes.len();
    let mut heights = HashIndex::new();
    let mut at: usize = start;
    let mut left: u64 = n;
    while left > 0
        invariant
            size == bytes@.len(),
            at <= size,
            heights.wf(),
            parse_heights(bytes@, start as int, n as nat, Map::empty()) == parse_heights(
                bytes@,
                at as int,
                left as nat,
                heights@,
            ),
        decreases left,
    {
        if size - at < 40 {
            return None;
        }
        let hash = hash_at(bytes, at);
        let height: u64 = read_u64(bytes, at + 32);
        proof {
            lemma_array_of(hash, bytes@.subrange(at as int, at + 32));
            assert(height == u64_at(bytes@, at + 32));
        }
        heights.insert(hash, height);
        at = at + 40;
        left = left - 1;
    }
    if at == size {
        Some(heights)
    } else {
        None
    }
}

impl HashTableDb {
    /// The table that a snapshot describes.
    pub fn from_snapshot(bytes: &[u8]) -> (r: Result<Self, HashTableError>)
        ensures
            r is Ok <==> decode(bytes@) is Some,
            r is Ok ==> r->Ok_0.wf() && Some(r->Ok_0@) == decode(bytes@),
            r is Err ==> (r->Err_0 matches HashTableError::Snapshot(reason) && reason@
                == "malformed snapshot"@),
    {
        match HashTableDb::parse_snapshot(bytes) {
            Some(db) => Ok(db),
            None => Err(HashTableError::Snapshot("malformed snapshot".to_owned())),
        }
    }

    fn parse_snapshot(bytes: &[u8]) -> (r: Option<Self>)
        ensures
            r is Some <==> decode(bytes@) is Some,
            r is Some ==> r->0.wf() && Some(r->0@) == decode(bytes@),
    {
        let size: usize = bytes.len();
        if size < 58_720_280 {
            return None;
        }
        let header: u64 = read_u64(bytes, 0);
        assert(header == u64_at(bytes@, 0));
        if header != SNAPSHOT_HEADER {
            return None;
        }
        let entries: u64 = read_u64(bytes, 8);
        assert(entries == u64_at(bytes@, 8));
        let n: u64 = read_u64(bytes, 58_720_272);
        assert(n == u64_at(bytes@, 58_720_272));
        let BlocksFound { blocks, total, next } = match read_blocks(bytes, n) {
            Some(read) => read,
            None => return None,
        };
        if total as u64 > entries || entries > usize::MAX as u64 || size - next < 8 {
            return None;
        }
        let m: u64 = read_u64(bytes, next);
        assert(m == u64_at(bytes@, next as int));
        let heights = match read_heights(bytes, next + 8, m) {
            Some(heights) => heights,
            None => return None,
        };
        let cells: Vec<Nullifier> = read_hashes(bytes, 16, 1_835_008);
        assert(cells@ =~= parse_cells(bytes@, 16));
        let db = HashTableDb { cells, blocks, heights, num_entries: entries as usize };
        proof {
            db.lemma_parts();
            assert(db@ =~= decode(bytes@)->0);
        }
        Some(db)
    }

    /// A snapshot from which the table can be restored.
    pub fn to_snapshot(&self) -> (bytes: Vec<u8>)
        requires
            self.wf(),
        ensures
            decode(bytes@) == Some(self@),
    {
        proof {
            self.lemma_parts();
        }
        let ghost blocks = self.blocks.list().map_values(|e: (u64, BlockRecord)| (e.0, e.1@));
        let ghost heights = self.heights.list();
        let mut out: Vec<u8> = Vec::with_capacity(58_720_288);
        push_u64(&mut out, SNAPSHOT_HEADER);
        push_u64(&mut out, self.num_entries as u64);
        let ghost front = out@;
        push_hashes(&mut out, &self.cells);
        let n: usize = self.blocks.entry_count();
        push_u64(&mut out, n as u64);
        let ghost pre = out@;
        let mut i: usize = 0;
        assert(blocks.take(0) =~= Seq::empty());
        assert(out@ =~= pre + blocks_bytes(blocks.take(0)));
        while i < n
            invariant
                i <= n,
                n == self.blocks.list().len(),
                blocks == self.blocks.list().map_values(|e: (u64, BlockRecord)| (e.0, e.1@)),
                out@ == pre + blocks_bytes(blocks.take(i as int)),
            decreases n - i,
        {
            let (height, record) = self.blocks.entry(i);
            proof {
                assert(blocks[i as int] == (height, record@));
                lemma_blocks_split(blocks, i as int);
            }
            let ghost before = out@;
            push_u64(&mut out, height);
            push_hash(&mut out, &record.block_hash);
            push_u64(&mut out, record.slots.len() as u64);
            let ghost opened = out@;
            let mut k: usize = 0;
            assert(record.slots@.take(0) =~= Seq::empty());
            assert(out@ =~= opened + places_bytes(record.slots@.take(0)));
            while k < record.slots.len()
                invariant
                    k <= record.slots@.len(),
                    out@ == opened + places_bytes(record.slots@.take(k as int)),
                decreases record.slots@.len() - k,
            {
                let (bucket, slot) = record.slots[k];
                let number: u64 = bucket as u64 * 112 + slot as u64;
                push_u64(&mut out, number);
                k += 1;
                proof {
                    assert(record.slots@.take(k as int).drop_last() =~= record.slots@.take(k - 1));
                    assert(number == place_index(record.slots@[k - 1]));
                    assert(out@ =~= opened + places_bytes(record.slots@.take(k as int)));
                }
            }
            i += 1;
            proof {
                assert(record.slots@.take(k as int) =~= record.slots@);
                assert(out@ =~= before + block_bytes(height, record@));
                assert(out@ =~= pre + blocks_bytes(blocks.take(i as int)));
            }
        }
        assert(blocks.take(i as int) =~= blocks);
        let m: usize = self.heights.entry_count();
        push_u64(&mut out, m as u64);
        let ghost pre = out@;
        let mut i: usize = 0;
        assert(heights.take(0) =~= Seq::empty());
        assert(out@ =~= pre + heights_bytes(heights.take(0)));
        while i < m
            invariant
                i <= m,
                m == heights.len(),
                heights == self.heights.list(),
                out@ == pre + heights_bytes(heights.take(i as int)),
            decreases m - i,
        {
            let (hash, height) = self.heights.entry(i);
            push_hash(&mut out, &hash);
            push_u64(&mut out, height);
            i += 1;
            proof {
                assert(heights.take(i as int).drop_last() =~= heights.take(i - 1));
                assert(out@ =~= pre + heights_bytes(heights.take(i as int)));
            }
        }
        proof {
            assert(heights.take(i as int) =~= heights);
            assert(out@ =~= snapshot_bytes(self@.count, self@.cells, blocks, heights));
            self.blocks.lemma_list();
            self.heights.lemma_list();
            let list = self.blocks.list();
            assert forall|p: int, q: int| 0 <= p < q < blocks.len() implies (#[trigger] blocks[p]).0
                < (#[trigger] blocks[q]).0 by {
                assert(list[p].0 < list[q].0);
            }
            assert(map_of(blocks) =~= self@.blocks) by {
                assert forall|h: u64| map_of(blocks).contains_key(h)
                    <==> #[trigger] self@.blocks.contains_key(h) by {
                    if map_of(blocks).contains_key(h) {
                        let p = position_of(blocks, h);
                        assert(list[p].0 == h);
                    }
                    if self@.blocks.contains_key(h) {
                        let p = position_of(list, h);
                        assert(blocks[p].0 == h);
                    }
                }
                assert forall|h: u64| #[trigger] map_of(blocks).contains_key(h) implies map_of(
                    blocks,
                )[h] == self@.blocks[h] by {
                    let p = position_of(blocks, h);
                    lemma_map_of(blocks, p);
                    lemma_map_of(list, p);
                }
            }
            assert forall|p: int| 0 <= p < blocks.len() implies valid_places(
                (#[trigger] blocks[p]).1.slots,
            ) && blocks[p].1.slots.len() <= u64::MAX by {
                lemma_map_of(blocks, p);
                assert(self@.blocks.contains_key(blocks[p].0));
                assert(list[p].1.slots@.len() == list[p].1.slots.len());
            }
            lemma_list_total(blocks);
            lemma_snapshot_decodes(self@.count, self@.cells, blocks, heights);
        }
        out
    }
}

/// A snapshot that is read opens with the header, the count and the very cells of
/// the table, and its blocks remember no more places than it counts.
pub proof fn law_snapshot_opens_with_the_cells(b: Seq<u8>, v: TableView)
    requires
        decode(b) == Some(v),
    ensures
        b.subrange(0, 8) == le_bytes(SNAPSHOT_HEADER as nat, 8),
        b.subrange(8, 16) == le_bytes(v.count, 8),
        b.subrange(16, 58_720_272) == concat_hashes(v.cells),
        v.cells.len() == 16_384 * 112,
{
    lemma_u64_rewritten(b, 0);
    lemma_u64_rewritten(b, 8);
    lemma_hashes_rewritten(b, 16, cell_count() as nat);
}

/// Bytes that are added at the end do not change what is read before them.
proof fn lemma_reads_stay(b: Seq<u8>, extra: Seq<u8>, at: int)
    requires
        0 <= at,
    ensures
        at + 8 <= b.len() ==> u64_at(b + extra, at) == u64_at(b, at),
        at + 32 <= b.len() ==> array_at(b + extra, at) == array_at(b, at),
{
    if at + 8 <= b.len() {
        assert((b + extra).subrange(at, at + 8) =~= b.subrange(at, at + 8));
    }
    if at + 32 <= b.len() {
        assert((b + extra).subrange(at, at + 32) =~= b.subrange(at, at + 32));
    }
}

proof fn lemma_places_stay(b: Seq<u8>, extra: Seq<u8>, at: int, n: nat)
    requires
        0 <= at,
        parse_places(b, at, n) is Some,
    ensures
        parse_places(b + extra, at, n) == parse_places(b, at, n),
{
    assert forall|i: int| 0 <= i < n implies #[trigger] u64_at(b + extra, at + 8 * i) == u64_at(
        b,
        at + 8 * i,
    ) by {
        lemma_reads_stay(b, extra, at + 8 * i);
    }
    assert(parse_places(b + extra, at, n)->0 =~= parse_places(b, at, n)->0);
}

proof fn lemma_blocks_stay(b: Seq<u8>, extra: Seq<u8>, n: nat, least: int, acc: BlocksRead)
    requires
        0 <= acc.next,
        parse_blocks(b, n, least, acc) is Some,
    ensures
        parse_blocks(b + extra, n, least, acc) == parse_blocks(b, n, least, acc),
        parse_blocks(b, n, least, acc)->0.next >= 0,
    decreases n,
{
    reveal(parse_blocks);
    if n > 0 {
        let at = acc.next;
        lemma_reads_stay(b, extra, at);
        lemma_reads_stay(b, extra, at + 8);
        lemma_reads_stay(b, extra, at + 40);
        let height = u64_at(b, at);
        let k = u64_at(b, at + 40);
        lemma_places_stay(b, extra, at + 48, k);
        let slots = parse_places(b, at + 48, k)->0;
        lemma_blocks_stay(
            b,
            extra,
            (n - 1) as nat,
            height as int + 1,
            BlocksRead {
                blocks: acc.blocks.insert(
                    height as u64,
                    BlockView { hash: array_at(b, at + 8), slots },
                ),
                total: acc.total + k,
                next: at + 48 + 8 * k,
            },
        );
    }
}

proof fn lemma_heights_end(b: Seq<u8>, extra: Seq<u8>, at: int, n: nat, acc: Map<Hash32, u64>)
    requires
        0 <= at,
        extra.len() > 0,
        parse_heights(b, at, n, acc) is Some,
    ensures
        parse_heights(b + extra, at, n, acc) is None,
    decreases n,
{
    if n > 0 {
        lemma_reads_stay(b, extra, at);
        lemma_reads_stay(b, extra, at + 32);
        lemma_heights_end(
            b,
            extra,
            at + 40,
            (n - 1) as nat,
            acc.insert(array_at(b, at), u64_at(b, at + 32) as u64),
        );
    }
}

/// A snapshot that goes on after its end is refused.
pub proof fn law_continued_snapshot_is_refused(b: Seq<u8>, extra: Seq<u8>)
    requires
        decode(b) is Some,
        extra.len() > 0,
    ensures
        decode(b + extra) is None,
{
    let start = BlocksRead { blocks: Map::empty(), total: 0, next: blocks_start() };
    lemma_reads_stay(b, extra, 0);
    lemma_reads_stay(b, extra, 8);
    lemma_reads_stay(b, extra, 58_720_272);
    let n = u64_at(b, 58_720_272);
    lemma_blocks_stay(b, extra, n, 0, start);
    let read = parse_blocks(b, n, 0, start)->0;
    lemma_reads_stay(b, extra, read.next);
    lemma_heights_end(b, extra, read.next + 8, u64_at(b, read.next), Map::empty());
}

} // verus!
