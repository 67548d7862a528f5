//! Snapshots of the commitment tree.
//!
//! A snapshot is a header, the position of the first leaf held, the roots of
//! the shards before it, the leaves, and the blocks. Counts and numbers are
//! eight little-endian bytes.

use super::merkle::all_canonical;
use super::tree::{CommitmentTreeDb, TreeBlock};
use crate::bytes::{hash_at, push_hash, push_hashes, push_u64, read_hashes, read_u64};
use vstd::prelude::*;
#[allow(unused_imports)]
use super::tree::{tree_wf, TreeView};
#[allow(unused_imports)]
use crate::bytes::{
    array_at, concat_hashes, le_bytes, lemma_array_exists, lemma_array_of, lemma_hash_read,
    lemma_hashes_rewritten, lemma_le_bytes_len, lemma_le_nat_bound, lemma_pow256_small,
    lemma_u64_in, lemma_u64_rewritten, u64_at,
};

verus! {

/// The number that opens a snapshot of a tree.
pub const TREE_SNAPSHOT_HEADER: u64 = 0x0002_5249_5054_4957;

/// Where the leaves of a snapshot are counted.
pub open spec fn leaves_at(b: Seq<u8>) -> int {
    16 + 32 * (u64_at(b, 8) as int / 65_536)
}

/// Where the blocks of a snapshot are counted.
pub open spec fn blocks_at(b: Seq<u8>) -> int {
    leaves_at(b) + 8 + 32 * u64_at(b, leaves_at(b))
}

/// Whether the parts of a snapshot fill it exactly.
pub open spec fn well_sized(b: Seq<u8>) -> bool {
    &&& b.len() >= 16
    &&& u64_at(b, 0) == TREE_SNAPSHOT_HEADER
    &&& u64_at(b, 8) as int % 65_536 == 0
    &&& leaves_at(b) + 8 <= b.len()
    &&& blocks_at(b) + 8 <= b.len()
    &&& blocks_at(b) + 8 + 48 * u64_at(b, blocks_at(b)) == b.len()
}

/// The block that begins at `at`.
pub open spec fn block_at(b: Seq<u8>, at: int) -> TreeBlock {
    TreeBlock {
        height: u64_at(b, at) as u64,
        hash: array_at(b, at + 8),
        leaves_before: u64_at(b, at + 40) as usize,
    }
}

/// The parts of a snapshot.
pub open spec fn parts_of(b: Seq<u8>) -> TreeView {
    TreeView {
        offset: u64_at(b, 8),
        prefetched: Seq::new(
            (u64_at(b, 8) as int / 65_536) as nat,
            |i: int| array_at(b, 16 + 32 * i),
        ),
        leaves: Seq::new(u64_at(b, leaves_at(b)), |i: int| array_at(b, leaves_at(b) + 8 + 32 * i)),
        blocks: Seq::new(
            u64_at(b, blocks_at(b)),
            |i: int| block_at(b, blocks_at(b) + 8 + 48 * i),
        ),
    }
}

/// Whether every block of a snapshot counts no more leaves than there are.
pub open spec fn counts_fit(b: Seq<u8>) -> bool {
    forall|i: int|
        0 <= i < u64_at(b, blocks_at(b)) ==> #[trigger] u64_at(b, blocks_at(b) + 8 + 48 * i + 40)
            <= u64_at(b, leaves_at(b))
}

/// The tree that a snapshot describes, if it describes one.
pub open spec fn decode_tree(b: Seq<u8>) -> Option<TreeView> {
    if well_sized(b) && counts_fit(b) && tree_wf(parts_of(b)) {
        Some(parts_of(b))
    } else {
        None
    }
}

/// The bytes of a block.
pub open spec fn tree_block_bytes(block: TreeBlock) -> Seq<u8> {
    le_bytes(block.height as nat, 8) + block.hash@ + le_bytes(block.leaves_before as nat, 8)
}

/// The bytes of blocks, one after the other.
pub open spec fn tree_blocks_bytes(blocks: Seq<TreeBlock>) -> Seq<u8>
    decreases blocks.len(),
{
    if blocks.len() == 0 {
        Seq::empty()
    } else {
        tree_blocks_bytes(blocks.drop_last()) + tree_block_bytes(blocks.last())
    }
}

/// The bytes of a snapshot.
pub open spec fn tree_snapshot_bytes(v: TreeView) -> Seq<u8> {
    le_bytes(TREE_SNAPSHOT_HEADER as nat, 8) + le_bytes(v.offset, 8) + concat_hashes(v.prefetched)
        + le_bytes(v.leaves.len(), 8) + concat_hashes(v.leaves) + le_bytes(v.blocks.len(), 8)
        + tree_blocks_bytes(v.blocks)
}

proof fn lemma_blocks_len(blocks: Seq<TreeBlock>)
    ensures
        tree_blocks_bytes(blocks).len() == 48 * blocks.len(),
    decreases blocks.len(),
{
    if blocks.len() > 0 {
        lemma_blocks_len(blocks.drop_last());
        lemma_le_bytes_len(blocks.last().height as nat, 8);
        lemma_le_bytes_len(blocks.last().leaves_before as nat, 8);
    }
}

proof fn lemma_block_read(pre: Seq<u8>, blocks: Seq<TreeBlock>, i: int)
    requires
        0 <= i < blocks.len(),
    ensures
        block_at(pre + tree_blocks_bytes(blocks), pre.len() + 48 * i) == blocks[i],
        u64_at(pre + tree_blocks_bytes(blocks), pre.len() + 48 * i + 40) == blocks[i].leaves_before,
    decreases blocks.len(),
{
    let b = pre + tree_blocks_bytes(blocks);
    let shorter = blocks.drop_last();
    lemma_blocks_len(shorter);
    lemma_blocks_len(blocks);
    let last = blocks.last();
    let height = le_bytes(last.height as nat, 8);
    let count = le_bytes(last.leaves_before as nat, 8);
    lemma_le_bytes_len(last.height as nat, 8);
    lemma_le_bytes_len(last.leaves_before as nat, 8);
    if i == blocks.len() - 1 {
        let front = pre + tree_blocks_bytes(shorter);
        let e = Seq::<u8>::empty();
        assert(b =~= front + height + (last.hash@ + count));
        lemma_u64_in(front, last.height as nat, last.hash@ + count);
        assert(b =~= (front + height + last.hash@) + count + e);
        lemma_u64_in(front + height + last.hash@, last.leaves_before as nat, e);
        let at = front.len() as int;
        assert(b.subrange(at + 8, at + 40) =~= last.hash@);
        lemma_array_of(last.hash, last.hash@);
    } else {
        let less = pre + tree_blocks_bytes(shorter);
        lemma_block_read(pre, shorter, i);
        let at = pre.len() + 48 * i;
        assert(b.subrange(at, at + 8) =~= less.subrange(at, at + 8));
        assert(b.subrange(at + 8, at + 40) =~= less.subrange(at + 8, at + 40));
        assert(b.subrange(at + 40, at + 48) =~= less.subrange(at + 40, at + 48));
    }
}

/// Reading a snapshot gives back the tree it was written from.
pub proof fn law_tree_snapshot_restores(v: TreeView)
    requires
        tree_wf(v),
        v.blocks.len() <= u64::MAX,
    ensures
        decode_tree(tree_snapshot_bytes(v)) == Some(v),
{
    let b = tree_snapshot_bytes(v);
    let e = Seq::<u8>::empty();
    let head = le_bytes(TREE_SNAPSHOT_HEADER as nat, 8);
    let off = le_bytes(v.offset, 8);
    let roots = concat_hashes(v.prefetched);
    let nl = le_bytes(v.leaves.len(), 8);
    let leaves = concat_hashes(v.leaves);
    let nb = le_bytes(v.blocks.len(), 8);
    let body = tree_blocks_bytes(v.blocks);
    lemma_le_bytes_len(TREE_SNAPSHOT_HEADER as nat, 8);
    lemma_le_bytes_len(v.offset, 8);
    lemma_le_bytes_len(v.leaves.len(), 8);
    lemma_le_bytes_len(v.blocks.len(), 8);
    lemma_blocks_len(v.blocks);
    assert(b =~= e + head + (off + roots + nl + leaves + nb + body));
    lemma_u64_in(e, TREE_SNAPSHOT_HEADER as nat, off + roots + nl + leaves + nb + body);
    assert(b =~= head + off + (roots + nl + leaves + nb + body));
    lemma_u64_in(head, v.offset, roots + nl + leaves + nb + body);
    assert(v.offset as int / 65_536 == v.prefetched.len());
    let first = head + off + roots;
    assert(b =~= first + nl + (leaves + nb + body));
    lemma_u64_in(first, v.leaves.len(), leaves + nb + body);
    assert(leaves_at(b) == first.len());
    let second = first + nl + leaves;
    assert(b =~= second + nb + body);
    lemma_u64_in(second, v.blocks.len(), body);
    assert(blocks_at(b) == second.len());
    let third = second + nb;
    assert(b =~= third + body);
    let got = parts_of(b);
    assert forall|i: int| 0 <= i < v.prefetched.len() implies got.prefetched[i]
        == v.prefetched[i] by {
        assert(b =~= (head + off) + roots + (nl + leaves + nb + body));
        lemma_hash_read(head + off, v.prefetched, nl + leaves + nb + body, i);
    }
    assert forall|i: int| 0 <= i < v.leaves.len() implies got.leaves[i] == v.leaves[i] by {
        assert(b =~= (first + nl) + leaves + (nb + body));
        lemma_hash_read(first + nl, v.leaves, nb + body, i);
    }
    assert forall|i: int| 0 <= i < v.blocks.len() implies got.blocks[i] == v.blocks[i] && u64_at(
        b,
        blocks_at(b) + 8 + 48 * i + 40,
    ) == v.blocks[i].leaves_before by {
        lemma_block_read(third, v.blocks, i);
    }
    assert forall|i: int|
        0 <= i < u64_at(b, blocks_at(b)) implies #[trigger] u64_at(
        b,
        blocks_at(b) + 8 + 48 * i + 40,
    ) <= u64_at(b, leaves_at(b)) by {
        assert(got.blocks[i] == v.blocks[i]);
    }
    assert(got =~= v);
}

/// Reads `n` blocks, each of which may count at most `limit` leaves.
fn read_tree_blocks(bytes: &[u8], at: usize, n: usize, limit: usize) -> (r: Option<Vec<TreeBlock>>)
    requires
        at + 48 * n <= bytes@.len(),
    ensures
        r is Some <==> forall|i: int|
            0 <= i < n ==> #[trigger] u64_at(bytes@, at + 48 * i + 40) <= limit,
        r is Some ==> r->0@ == Seq::new(n as nat, |i: int| block_at(bytes@, at + 48 * i)),
{
    let size: usize = bytes.len();
    let mut blocks: Vec<TreeBlock> = Vec::with_capacity(n);
    let mut i: usize = 0;
    while i < n
        invariant
            i <= n,
            at + 48 * n <= size == bytes@.len(),
            blocks@.len() == i,
            forall|k: int| 0 <= k < i ==> #[trigger] u64_at(bytes@, at + 48 * k + 40) <= limit,
            forall|k: int| 0 <= k < i ==> #[trigger] blocks@[k] == block_at(bytes@, at + 48 * k),
        decreases n - i,
    {
        let height: u64 = read_u64(bytes, at + 48 * i);
        let hash = hash_at(bytes, at + 48 * i + 8);
        let count: u64 = read_u64(bytes, at + 48 * i + 40);
        proof {
            lemma_array_of(hash, bytes@.subrange(at + 48 * i + 8, at + 48 * i + 40));
            assert(count == u64_at(bytes@, at + 48 * i + 40));
        }
        if count > limit as u64 {
            return None;
        }
        blocks.push(TreeBlock { height, hash, leaves_before: count as usize });
        i += 1;
    }
    assert(blocks@ =~= Seq::new(n as nat, |k: int| block_at(bytes@, at + 48 * k)));
    Some(blocks)
}

fn counts_ascend(blocks: &Vec<TreeBlock>) -> (r: bool)
    ensures
        r == (forall|i: int, j: int|
            0 <= i < j < blocks@.len() ==> (#[trigger] blocks@[i]).leaves_before <= (
            #[trigger] blocks@[j]).leaves_before),
{
    let mut i: usize = 1;
    while i < blocks.len()
        invariant
            1 <= i,
            forall|p: int, q: int|
                0 <= p < q < i && q < blocks@.len() ==> (#[trigger] blocks@[p]).leaves_before <= (
                #[trigger] blocks@[q]).leaves_before,
        decreases blocks@.len() - i,
    {
        if blocks[i - 1].leaves_before > blocks[i].leaves_before {
            assert(blocks@[i - 1].leaves_before > blocks@[i as int].leaves_before);
            return false;
        }
        assert forall|p: int, q: int| 0 <= p < q < i + 1 && q < blocks@.len() implies (
        #[trigger] blocks@[p]).leaves_before <= (#[trigger] blocks@[q]).leaves_before by {
            if q == i && p < i - 1 {
                assert(blocks@[p].leaves_before <= blocks@[i - 1].leaves_before);
            }
        }
        i += 1;
    }
    true
}

impl CommitmentTreeDb {
    /// The tree that a snapshot describes.
    pub fn from_snapshot(bytes: &[u8]) -> (r: Option<Self>)
        ensures
            r is Some <==> decode_tree(bytes@) is Some,
            r is Some ==> r->0.wf() && Some(r->0@) == decode_tree(bytes@),
    {
        let size: usize = bytes.len();
        if size < 16 {
            return None;
        }
        let header: u64 = read_u64(bytes, 0);
        assert(header == u64_at(bytes@, 0));
        if header != TREE_SNAPSHOT_HEADER {
            return None;
        }
        let offset: u64 = read_u64(bytes, 8);
        assert(offset == u64_at(bytes@, 8));
        if offset % 65_536 != 0 || offset > 0x1_0000_0000 {
            return None;
        }
        let shards: usize = (offset / 65_536) as usize;
        let at: usize = 16 + 32 * shards;
        assert(at == leaves_at(bytes@));
        if size < at || size - at < 8 {
            return None;
        }
        let n: u64 = read_u64(bytes, at);
        assert(n == u64_at(bytes@, at as int));
        let room: usize = (size - at - 8) / 32;
        if n > room as u64 || offset + n > 0x1_0000_0000 {
            return None;
        }
        let count: usize = n as usize;
        let next: usize = at + 8 + 32 * count;
        assert(next == blocks_at(bytes@));
        if size - next < 8 {
            return None;
        }
        let m: u64 = read_u64(bytes, next);
        assert(m == u64_at(bytes@, next as int));
        let left: usize = size - next - 8;
        if left % 48 != 0 || m != (left / 48) as u64 {
            return None;
        }
        assert(well_sized(bytes@));
        let prefetched = read_hashes(bytes, 16, shards);
        let leaves = read_hashes(bytes, at + 8, count);
        let blocks = match read_tree_blocks(bytes, next + 8, m as usize, count) {
            Some(blocks) => blocks,
            None => return None,
        };
        assert(prefetched@ =~= parts_of(bytes@).prefetched);
        assert(leaves@ =~= parts_of(bytes@).leaves);
        assert(blocks@ =~= parts_of(bytes@).blocks);
        if !counts_ascend(&blocks) || !all_canonical(prefetched.as_slice()) || !all_canonical(
            leaves.as_slice(),
        ) {
            return None;
        }
        proof {
            assert forall|i: int| 0 <= i < blocks@.len() implies (
            #[trigger] blocks@[i]).leaves_before <= leaves@.len() by {
                assert(u64_at(bytes@, next + 8 + 48 * i + 40) <= count);
            }
            assert(tree_wf(parts_of(bytes@)));
        }
        Some(CommitmentTreeDb::from_parts(offset, prefetched, leaves, blocks))
    }

    /// A snapshot from which the tree can be restored.
    pub fn to_snapshot(&self) -> (bytes: Vec<u8>)
        requires
            self.wf(),
        ensures
            bytes@ == tree_snapshot_bytes(self@),
            decode_tree(bytes@) == Some(self@),
    {
        let (prefetched, leaves, blocks) = self.parts();
        let mut out: Vec<u8> = Vec::new();
        push_u64(&mut out, TREE_SNAPSHOT_HEADER);
        push_u64(&mut out, self.leaf_offset());
        push_hashes(&mut out, prefetched);
        push_u64(&mut out, leaves.len() as u64);
        push_hashes(&mut out, leaves);
        let n: usize = blocks.len();
        push_u64(&mut out, n as u64);
        let ghost pre = out@;
        let mut i: usize = 0;
        assert(blocks@.take(0) =~= Seq::empty());
        assert(out@ =~= pre + tree_blocks_bytes(blocks@.take(0)));
        while i < n
            invariant
                i <= n == blocks@.len(),
                out@ == pre + tree_blocks_bytes(blocks@.take(i as int)),
            decreases n - i,
        {
            let block = blocks[i];
            push_u64(&mut out, block.height);
            push_hash(&mut out, &block.hash);
            push_u64(&mut out, block.leaves_before as u64);
            i += 1;
            proof {
                assert(blocks@.take(i as int).drop_last() =~= blocks@.take(i - 1));
                assert(out@ =~= pre + tree_blocks_bytes(blocks@.take(i as int)));
            }
        }
        proof {
            assert(blocks@.take(i as int) =~= blocks@);
            assert(out@ =~= tree_snapshot_bytes(self@));
            self.lemma_wf();
            law_tree_snapshot_restores(self@);
        }
        out
    }
}

/// Blocks read from bytes are written as those.
proof fn lemma_blocks_rewritten(b: Seq<u8>, at: int, n: nat)
    requires
        0 <= at,
        at + 48 * n <= b.len(),
        forall|i: int| 0 <= i < n ==> #[trigger] u64_at(b, at + 48 * i + 40) <= usize::MAX,
    ensures
        tree_blocks_bytes(Seq::new(n, |i: int| block_at(b, at + 48 * i))) == b.subrange(
            at,
            at + 48 * n,
        ),
    decreases n,
{
    let blocks = Seq::new(n, |i: int| block_at(b, at + 48 * i));
    if n > 0 {
        let m = (n - 1) as nat;
        let last = at + 48 * m;
        lemma_blocks_rewritten(b, at, m);
        assert(blocks.drop_last() =~= Seq::new(m, |i: int| block_at(b, at + 48 * i)));
        lemma_u64_rewritten(b, last);
        lemma_u64_rewritten(b, last + 40);
        lemma_array_exists(b.subrange(last + 8, last + 40));
        lemma_u64_fits(b, last);
        assert(u64_at(b, at + 48 * m + 40) <= usize::MAX);
        assert(tree_block_bytes(blocks.last()) =~= b.subrange(last, last + 48));
        assert(tree_blocks_bytes(blocks) =~= b.subrange(at, at + 48 * n));
    } else {
        assert(tree_blocks_bytes(blocks) =~= b.subrange(at, at));
    }
}

proof fn lemma_u64_fits(b: Seq<u8>, at: int)
    requires
        0 <= at,
        at + 8 <= b.len(),
    ensures
        u64_at(b, at) <= u64::MAX,
{
    lemma_le_nat_bound(b.subrange(at, at + 8));
    lemma_pow256_small();
}

/// The only bytes from which a tree is restored are its own snapshot: anything
/// else, damaged, cut short or continued, is refused or is another tree's.
pub proof fn law_only_its_snapshot_restores_a_tree(b: Seq<u8>, v: TreeView)
    requires
        decode_tree(b) == Some(v),
        v.leaves.len() <= usize::MAX,
    ensures
        b == tree_snapshot_bytes(v),
{
    let (l, k) = (leaves_at(b), blocks_at(b));
    let shards = (u64_at(b, 8) as int / 65_536) as nat;
    lemma_u64_rewritten(b, 0);
    lemma_u64_rewritten(b, 8);
    lemma_hashes_rewritten(b, 16, shards);
    lemma_u64_rewritten(b, l);
    lemma_hashes_rewritten(b, l + 8, u64_at(b, l));
    lemma_u64_rewritten(b, k);
    assert forall|i: int| 0 <= i < u64_at(b, k) implies #[trigger] u64_at(b, k + 8 + 48 * i + 40)
        <= usize::MAX by {}
    lemma_blocks_rewritten(b, k + 8, u64_at(b, k));
    assert(b.subrange(0, 8) + b.subrange(8, 16) + b.subrange(16, l) + b.subrange(l, l + 8)
        + b.subrange(l + 8, k) + b.subrange(k, k + 8) + b.subrange(k + 8, b.len() as int) =~= b);
}

} // verus!
