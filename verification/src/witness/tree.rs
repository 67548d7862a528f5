//! The Ironwood note commitment tree behind the witness database.
//!
//! A tree may begin in the middle: the roots of the shards before its first
//! leaf are given, and only leaves from there on are held.

use super::merkle::{empty_root, is_canonical, subtree_root};
use super::types::{BroadcastData, CapData, SubshardRoots};
use crate::bytes::{push_hash, Hash32};
use vstd::prelude::*;
#[allow(unused_imports)]
use super::merkle::{
    canonical, canonical_all, empty_node, lemma_same_below, lemma_shifted, lemma_stacked,
    lemma_width_values, node_at, padded, width, Nodes,
};

verus! {

/// A block whose commitments are in the tree.
#[derive(Debug, Clone, Copy, PartialEq, Eq)]
pub struct TreeBlock {
    pub height: u64,
    pub hash: Hash32,
    /// Leaves held before the block was appended.
    pub leaves_before: usize,
}

/// The tree as mathematics sees it.
#[verifier::ext_equal]
pub struct TreeView {
    /// The position of the first leaf held.
    pub offset: nat,
    /// The roots of the shards before it.
    pub prefetched: Seq<Hash32>,
    /// The leaves held.
    pub leaves: Seq<Hash32>,
    /// The blocks appended, in order.
    pub blocks: Seq<TreeBlock>,
}

/// What holds of every tree.
pub open spec fn tree_wf(v: TreeView) -> bool {
    &&& v.offset == 65_536 * v.prefetched.len()
    &&& v.offset + v.leaves.len() <= 0x1_0000_0000
    &&& canonical_all(v.prefetched)
    &&& canonical_all(v.leaves)
    &&& forall|i: int|
        0 <= i < v.blocks.len() ==> (#[trigger] v.blocks[i]).leaves_before <= v.leaves.len()
    &&& forall|i: int, j: int|
        0 <= i < j < v.blocks.len() ==> (#[trigger] v.blocks[i]).leaves_before <= (
        #[trigger] v.blocks[j]).leaves_before
}

/// The number of leaves, held or before those held.
pub open spec fn size_of(v: TreeView) -> nat {
    v.offset + v.leaves.len()
}

/// The number of shards with a leaf.
pub open spec fn populated(v: TreeView) -> nat {
    (size_of(v) + 65_535) / 65_536
}

/// The first shard of the PIR database: the last 16 populated shards are in
/// it, as far as their leaves are held.
pub open spec fn window_start(v: TreeView) -> nat {
    if populated(v) > v.prefetched.len() + 16 {
        (populated(v) - 16) as nat
    } else {
        v.prefetched.len()
    }
}

/// The number of shards in the PIR database.
pub open spec fn window_count(v: TreeView) -> nat {
    (populated(v) - window_start(v)) as nat
}

/// The leaves, empty where none is held.
pub open spec fn leaf_level(v: TreeView) -> Nodes {
    |i: int|
        if v.offset <= i < v.offset + v.leaves.len() {
            v.leaves[i - v.offset]@
        } else {
            empty_node(0)
        }
}

/// The roots of all shards: those given, and those of the leaves held.
pub open spec fn shard_level(v: TreeView) -> Nodes {
    |i: int|
        if 0 <= i < v.prefetched.len() {
            v.prefetched[i]@
        } else {
            node_at(leaf_level(v), 0, 16, i)
        }
}

/// The root of the tree.
pub open spec fn root_of(v: TreeView) -> Seq<u8> {
    node_at(shard_level(v), 16, 16, 0)
}

/// The tree once a block has been appended.
pub open spec fn appended(
    v: TreeView,
    height: u64,
    hash: Hash32,
    commitments: Seq<Hash32>,
) -> TreeView {
    TreeView {
        leaves: v.leaves + commitments,
        blocks: v.blocks.push(
            TreeBlock { height, hash, leaves_before: v.leaves.len() as usize },
        ),
        ..v
    }
}

/// The tree once its last block has been taken back.
pub open spec fn popped(v: TreeView) -> TreeView {
    TreeView {
        leaves: v.leaves.take(v.blocks.last().leaves_before as int),
        blocks: v.blocks.drop_last(),
        ..v
    }
}

/// The tree once its last blocks above `height` have been taken back.
pub open spec fn rolled_back_to(v: TreeView, height: u64) -> TreeView
    decreases v.blocks.len(),
{
    if v.blocks.len() == 0 || v.blocks.last().height <= height {
        v
    } else {
        rolled_back_to(popped(v), height)
    }
}

/// The PIR database: the leaves of the window, row after row, then zeros.
pub open spec fn database(v: TreeView) -> Seq<u8> {
    Seq::new(
        33_554_432,
        |i: int|
            if i < window_count(v) * 2_097_152 {
                leaf_level(v)(window_start(v) * 65_536 + i / 32)[i % 32]
            } else {
                0u8
            },
    )
}

/// Whether subshard roots are those of shard `shard`.
pub open spec fn subroots_describe(v: TreeView, roots: Seq<Hash32>, shard: int) -> bool {
    &&& roots.len() == 256
    &&& canonical_all(roots)
    &&& forall|j: int|
        0 <= j < 256 ==> (#[trigger] roots[j])@ == node_at(leaf_level(v), 0, 8, shard * 256 + j)
}

/// Whether shard roots are those of the first `n` shards.
pub open spec fn caps_describe(v: TreeView, roots: Seq<Hash32>, n: nat) -> bool {
    &&& roots.len() == n
    &&& canonical_all(roots)
    &&& forall|i: int| 0 <= i < n ==> (#[trigger] roots[i])@ == shard_level(v)(i)
}

/// Whether a broadcast goes with a tree.
pub open spec fn describes(v: TreeView, broadcast: BroadcastData, anchor_height: u64) -> bool {
    &&& broadcast.anchor_height == anchor_height
    &&& broadcast.window_start_shard == window_start(v)
    &&& broadcast.window_shard_count == window_count(v)
    &&& caps_describe(v, broadcast.cap.shard_roots@, populated(v))
    &&& broadcast.subshard_roots@.len() == window_count(v)
    &&& forall|s: int|
        0 <= s < window_count(v) ==> subroots_describe(
            v,
            (#[trigger] broadcast.subshard_roots@[s]).roots@,
            window_start(v) + s,
        )
}

/// An append-only commitment tree that remembers its blocks.
pub struct CommitmentTreeDb {
    leaf_offset: u64,
    prefetched: Vec<Hash32>,
    leaves: Vec<Hash32>,
    blocks: Vec<TreeBlock>,
    /// Roots of leading complete subshards.
    subshard_cache: Vec<Hash32>,
    /// Roots of leading complete shards.
    shard_cache: Vec<Hash32>,
}

impl View for CommitmentTreeDb {
    type V = TreeView;

    closed spec fn view(&self) -> TreeView {
        TreeView {
            offset: self.leaf_offset as nat,
            prefetched: self.prefetched@,
            leaves: self.leaves@,
            blocks: self.blocks@,
        }
    }
}

/// Subshards, or shards, of a shard.
spec fn per_shard(k: nat) -> int {
    if k == 8 {
        256
    } else {
        1
    }
}

/// Whether `roots` are the roots of the first complete subtrees of height `k`.
spec fn caches(v: TreeView, roots: Seq<Hash32>, k: nat) -> bool {
    &&& canonical_all(roots)
    &&& roots.len() * width(k) <= v.leaves.len()
    &&& forall|j: int|
        0 <= j < roots.len() ==> (#[trigger] roots[j])@ == node_at(
            leaf_level(v),
            0,
            k,
            per_shard(k) * v.prefetched.len() + j,
        )
}

/// A complete subtree stays as it is while its leaves do.
proof fn lemma_caches_kept(v: TreeView, w: TreeView, roots: Seq<Hash32>, k: nat)
    requires
        caches(v, roots, k),
        tree_wf(v),
        k == 8 || k == 16,
        w.offset == v.offset,
        w.prefetched == v.prefetched,
        roots.len() * width(k) <= w.leaves.len(),
        forall|i: int|
            0 <= i < roots.len() * width(k) ==> #[trigger] w.leaves[i] == v.leaves[i],
    ensures
        caches(w, roots, k),
{
    lemma_width_values();
    let wk = width(k) as int;
    let per = per_shard(k);
    assert(per * wk == 65_536);
    assert forall|j: int| 0 <= j < roots.len() implies (#[trigger] roots[j])@ == node_at(
        leaf_level(w),
        0,
        k,
        per * w.prefetched.len() + j,
    ) by {
        let i = per * v.prefetched.len() + j;
        let f = leaf_level(v);
        let g = leaf_level(w);
        let p = v.prefetched.len() as int;
        assert((per * p + j) * wk == 65_536 * p + j * wk && (per * p + j + 1) * wk == 65_536 * p
            + (j + 1) * wk && (j + 1) * wk <= roots.len() * wk && j * wk >= 0) by (nonlinear_arith)
            requires
                per * wk == 65_536,
                0 <= j < roots.len(),
                wk > 0,
        ;
        assert forall|x: int| i * wk <= x < (i + 1) * wk implies #[trigger] f(x) == g(x) by {
            let at = x - v.offset;
            assert(0 <= at < roots.len() * width(k));
            assert(w.leaves[at] == v.leaves[at]);
        }
        lemma_same_below(f, g, 0, k, i);
    }
}

impl CommitmentTreeDb {
    /// The invariant of a tree.
    pub closed spec fn wf(&self) -> bool {
        &&& tree_wf(self@)
        &&& caches(self@, self.subshard_cache@, 8)
        &&& caches(self@, self.shard_cache@, 16)
    }

    /// A well-formed tree has a well-formed state.
    pub proof fn lemma_wf(&self)
        requires
            self.wf(),
        ensures
            tree_wf(self@),
    {
    }

    /// A tree without leaves.
    pub fn new() -> (tree: Self)
        ensures
            tree.wf(),
            tree@ == (TreeView {
                offset: 0,
                prefetched: Seq::empty(),
                leaves: Seq::empty(),
                blocks: Seq::empty(),
            }),
    {
        CommitmentTreeDb::with_offset(0, Vec::new())
    }

    /// A tree whose first leaf will have position `leaf_offset`, with the
    /// roots of the shards before it.
    pub fn with_offset(leaf_offset: u64, prefetched: Vec<Hash32>) -> (tree: Self)
        requires
            leaf_offset == 65_536 * prefetched@.len(),
            leaf_offset <= 0x1_0000_0000,
            canonical_all(prefetched@),
        ensures
            tree.wf(),
            tree@ == (TreeView {
                offset: leaf_offset as nat,
                prefetched: prefetched@,
                leaves: Seq::empty(),
                blocks: Seq::empty(),
            }),
    {
        CommitmentTreeDb::from_parts(leaf_offset, prefetched, Vec::new(), Vec::new())
    }

    /// The tree with the given parts.
    pub(super) fn from_parts(
        leaf_offset: u64,
        prefetched: Vec<Hash32>,
        leaves: Vec<Hash32>,
        blocks: Vec<TreeBlock>,
    ) -> (tree: Self)
        requires
            tree_wf(
                (TreeView {
                    offset: leaf_offset as nat,
                    prefetched: prefetched@,
                    leaves: leaves@,
                    blocks: blocks@,
                }),
            ),
        ensures
            tree.wf(),
            tree@ == (TreeView {
                offset: leaf_offset as nat,
                prefetched: prefetched@,
                leaves: leaves@,
                blocks: blocks@,
            }),
    {
        let tree = CommitmentTreeDb {
            leaf_offset,
            prefetched,
            leaves,
            blocks,
            subshard_cache: Vec::new(),
            shard_cache: Vec::new(),
        };
        assert(0 * width(8) == 0 && 0 * width(16) == 0) by (nonlinear_arith);
        tree
    }

    /// The given roots, the leaves and the blocks.
    pub(super) fn parts(&self) -> (r: (&Vec<Hash32>, &Vec<Hash32>, &Vec<TreeBlock>))
        ensures
            r.0@ == self@.prefetched,
            r.1@ == self@.leaves,
            r.2@ == self@.blocks,
    {
        (&self.prefetched, &self.leaves, &self.blocks)
    }

    /// Whether `hash` can be a node of the tree.
    pub fn is_canonical_hash(hash: &Hash32) -> (r: bool)
        ensures
            r == canonical(hash@),
    {
        is_canonical(hash)
    }

    /// Appends a block's commitments.
    pub fn append_commitments(&mut self, height: u64, hash: Hash32, commitments: &[Hash32])
        requires
            old(self).wf(),
            size_of(old(self)@) + commitments@.len() <= 0x1_0000_0000,
            old(self)@.leaves.len() + commitments@.len() <= usize::MAX,
            canonical_all(commitments@),
        ensures
            final(self).wf(),
            final(self)@ == appended(old(self)@, height, hash, commitments@),
    {
        let ghost before = self@;
        let leaves_before: usize = self.leaves.len();
        self.blocks.push(TreeBlock { height, hash, leaves_before });
        let mut i: usize = 0;
        while i < commitments.len()
            invariant
                i <= commitments@.len(),
                self.leaf_offset == before.offset,
                self.prefetched@ == before.prefetched,
                self.blocks@ == before.blocks.push(TreeBlock { height, hash, leaves_before }),
                self.leaves@ == before.leaves + commitments@.take(i as int),
                self.subshard_cache@ == old(self).subshard_cache@,
                self.shard_cache@ == old(self).shard_cache@,
            decreases commitments@.len() - i,
        {
            self.leaves.push(commitments[i]);
            i += 1;
            assert(commitments@.take(i as int) =~= commitments@.take(i - 1).push(
                commitments@[i - 1],
            ));
        }
        proof {
            assert(commitments@.take(i as int) =~= commitments@);
            assert(self@ =~= appended(before, height, hash, commitments@));
            assert forall|k: int| 0 <= k < self@.leaves.len() implies canonical(
                (#[trigger] self@.leaves[k])@,
            ) by {
                if k < before.leaves.len() {
                    assert(self@.leaves[k] == before.leaves[k]);
                } else {
                    assert(self@.leaves[k] == commitments@[k - before.leaves.len()]);
                }
            }
            lemma_caches_kept(before, self@, self.subshard_cache@, 8);
            lemma_caches_kept(before, self@, self.shard_cache@, 16);
        }
    }

    /// Takes back the last blocks above `height`.
    pub fn rollback_to(&mut self, height: u64)
        requires
            old(self).wf(),
        ensures
            final(self).wf(),
            final(self)@ == rolled_back_to(old(self)@, height),
    {
        let ghost start = self@;
        let ghost subshards = self.subshard_cache@;
        let ghost shards = self.shard_cache@;
        while self.blocks.len() > 0 && self.blocks[self.blocks.len() - 1].height > height
            invariant
                tree_wf(self@),
                rolled_back_to(self@, height) == rolled_back_to(start, height),
                self@.offset == start.offset,
                self@.prefetched == start.prefetched,
                self@.leaves.len() <= start.leaves.len(),
                forall|i: int|
                    0 <= i < self@.leaves.len() ==> #[trigger] self@.leaves[i] == start.leaves[i],
                self.subshard_cache@ == subshards,
                self.shard_cache@ == shards,
            decreases self.blocks@.len(),
        {
            let ghost before = self@;
            match self.blocks.pop() {
                Some(block) => {
                    assert(block == before.blocks.last());
                    assert(before.blocks[before.blocks.len() - 1] == block);
                    self.leaves.truncate(block.leaves_before);
                    proof {
                        assert(self@ =~= popped(before));
                        assert forall|i: int| 0 <= i < self@.blocks.len() implies (
                        #[trigger] self@.blocks[i]).leaves_before <= self@.leaves.len() by {
                            assert(before.blocks[i].leaves_before <= before.blocks[before.blocks.len()
                                - 1].leaves_before);
                        }
                        assert forall|i: int| 0 <= i < self@.leaves.len() implies canonical(
                            (#[trigger] self@.leaves[i])@,
                        ) by {
                            assert(self@.leaves[i] == before.leaves[i]);
                        }
                    }
                },
                None => {},
            }
        }
        let keep_subshards: usize = self.leaves.len() / 256;
        let keep_shards: usize = self.leaves.len() / 65_536;
        if self.subshard_cache.len() > keep_subshards {
            self.subshard_cache.truncate(keep_subshards);
        }
        if self.shard_cache.len() > keep_shards {
            self.shard_cache.truncate(keep_shards);
        }
        proof {
            lemma_width_values();
            assert(self.subshard_cache@ =~= subshards.take(self.subshard_cache@.len() as int));
            assert(self.shard_cache@ =~= shards.take(self.shard_cache@.len() as int));
            lemma_caches_cut(start, subshards, 8, self.subshard_cache@.len() as int);
            lemma_caches_cut(start, shards, 16, self.shard_cache@.len() as int);
            lemma_caches_kept(start, self@, self.subshard_cache@, 8);
            lemma_caches_kept(start, self@, self.shard_cache@, 16);
        }
    }

    /// The number of leaves, held or before those held.
    pub fn tree_size(&self) -> (n: u64)
        requires
            self.wf(),
        ensures
            n == size_of(self@),
    {
        self.leaf_offset + self.leaves.len() as u64
    }

    /// The position of the first leaf held.
    pub fn leaf_offset(&self) -> (n: u64)
        ensures
            n == self@.offset,
    {
        self.leaf_offset
    }

    /// The leaves held.
    pub fn leaves(&self) -> (leaves: &[Hash32])
        ensures
            leaves@ == self@.leaves,
    {
        self.leaves.as_slice()
    }

    /// The height of the last block appended.
    pub fn latest_height(&self) -> (r: Option<u64>)
        ensures
            self@.blocks.len() == 0 ==> r is None,
            self@.blocks.len() > 0 ==> r == Some(self@.blocks.last().height),
    {
        let n: usize = self.blocks.len();
        if n == 0 {
            None
        } else {
            Some(self.blocks[n - 1].height)
        }
    }

    /// The hash of the last block appended.
    pub fn latest_block_hash(&self) -> (r: Option<Hash32>)
        ensures
            self@.blocks.len() == 0 ==> r is None,
            self@.blocks.len() > 0 ==> r == Some(self@.blocks.last().hash),
    {
        let n: usize = self.blocks.len();
        if n == 0 {
            None
        } else {
            Some(self.blocks[n - 1].hash)
        }
    }

    /// The number of shards with a leaf.
    pub fn populated_shards(&self) -> (n: u32)
        requires
            self.wf(),
        ensures
            n == populated(self@),
            n <= 65_536,
    {
        ((self.tree_size() + 65_535) / 65_536) as u32
    }

    /// The first shard of the PIR database.
    pub fn window_start_shard(&self) -> (n: u32)
        requires
            self.wf(),
        ensures
            n == window_start(self@),
            n <= populated(self@) <= 65_536,
            populated(self@) - n <= 16,
            self@.prefetched.len() <= n,
    {
        let shards: u32 = self.populated_shards();
        let first: u32 = self.prefetched.len() as u32;
        if shards > first + 16 {
            shards - 16
        } else {
            first
        }
    }

    /// The number of shards in the PIR database.
    pub fn window_shard_count(&self) -> (n: u32)
        requires
            self.wf(),
        ensures
            n == window_count(self@),
            n <= 16,
    {
        self.populated_shards() - self.window_start_shard()
    }

    /// The leaf at a position that is not before those held.
    fn leaf_or_empty(&self, position: u64, empty: &Hash32) -> (leaf: Hash32)
        requires
            self.wf(),
            position >= self@.offset,
            empty@ == empty_node(0),
            canonical(empty@),
        ensures
            leaf@ == leaf_level(self@)(position as int),
            canonical(leaf@),
    {
        let at: u64 = position - self.leaf_offset;
        if at < self.leaves.len() as u64 {
            assert(canonical(self@.leaves[at as int]@));
            self.leaves[at as usize]
        } else {
            *empty
        }
    }

    /// The root of subshard `index`, counted from the start of the tree.
    fn subshard_root(&self, index: u64) -> (root: Hash32)
        requires
            self.wf(),
            256 * self@.prefetched.len() <= index < 0x100_0000,
        ensures
            canonical(root@),
            root@ == node_at(leaf_level(self@), 0, 8, index as int),
    {
        proof {
            lemma_width_values();
        }
        let first: u64 = 256 * self.prefetched.len() as u64;
        let at: u64 = index - first;
        if at < self.subshard_cache.len() as u64 {
            assert(canonical(self.subshard_cache@[at as int]@));
            return self.subshard_cache[at as usize];
        }
        let empty = empty_root(0);
        let mut nodes: Vec<Hash32> = Vec::with_capacity(256);
        let mut i: u64 = 0;
        while i < 256
            invariant
                i <= 256,
                self.wf(),
                256 * self@.prefetched.len() <= index < 0x100_0000,
                empty@ == empty_node(0),
                canonical(empty@),
                nodes@.len() == i,
                canonical_all(nodes@),
                forall|k: int|
                    0 <= k < i ==> (#[trigger] nodes@[k])@ == leaf_level(self@)(index * 256 + k),
            decreases 256 - i,
        {
            nodes.push(self.leaf_or_empty(index * 256 + i, &empty));
            i += 1;
        }
        let ghost level = nodes@;
        let root = subtree_root(nodes, 0, 8);
        proof {
            let f = padded(level, 0);
            let g = leaf_level(self@);
            assert forall|j: int| 0 * width(8) <= j < (0 + 1) * width(8) implies #[trigger] f(j)
                == g(j + index * width(8)) by {
                assert(level[j]@ == g(index * 256 + j));
            }
            lemma_shifted(f, g, 0, 8, 0, index as int);
        }
        root
    }

    /// The roots of the 256 subshards of a shard.
    fn subshard_roots_of(&self, shard: u32) -> (roots: Vec<Hash32>)
        requires
            self.wf(),
            self@.prefetched.len() <= shard < 65_536,
        ensures
            subroots_describe(self@, roots@, shard as int),
    {
        let mut roots: Vec<Hash32> = Vec::with_capacity(256);
        let mut i: u64 = 0;
        while i < 256
            invariant
                i <= 256,
                self.wf(),
                self@.prefetched.len() <= shard < 65_536,
                roots@.len() == i,
                canonical_all(roots@),
                forall|k: int|
                    0 <= k < i ==> (#[trigger] roots@[k])@ == node_at(
                        leaf_level(self@),
                        0,
                        8,
                        shard * 256 + k,
                    ),
            decreases 256 - i,
        {
            roots.push(self.subshard_root(shard as u64 * 256 + i));
            i += 1;
        }
        roots
    }

    /// The root of a shard.
    fn shard_root(&self, shard: u32) -> (root: Hash32)
        requires
            self.wf(),
            shard < 65_536,
        ensures
            canonical(root@),
            root@ == shard_level(self@)(shard as int),
    {
        proof {
            lemma_width_values();
        }
        let first: usize = self.prefetched.len();
        if (shard as usize) < first {
            assert(canonical(self@.prefetched[shard as int]@));
            return self.prefetched[shard as usize];
        }
        let at: usize = shard as usize - first;
        if at < self.shard_cache.len() {
            assert(canonical(self.shard_cache@[at as int]@));
            return self.shard_cache[at];
        }
        let nodes = self.subshard_roots_of(shard);
        let ghost level = nodes@;
        let root = subtree_root(nodes, 8, 8);
        proof {
            let f = padded(level, 8);
            let g = |j: int| node_at(leaf_level(self@), 0, 8, j);
            assert forall|j: int| 0 * width(8) <= j < (0 + 1) * width(8) implies #[trigger] f(j)
                == g(j + shard * width(8)) by {
                assert(level[j]@ == node_at(leaf_level(self@), 0, 8, shard * 256 + j));
            }
            lemma_shifted(f, g, 8, 8, 0, shard as int);
            lemma_stacked(leaf_level(self@), 0, 8, 8, shard as int);
        }
        root
    }

    /// Remembers the roots of subtrees that are complete by now.
    fn fill_caches(&mut self)
        requires
            old(self).wf(),
        ensures
            final(self).wf(),
            final(self)@ == old(self)@,
            final(self).subshard_cache@.len() == old(self)@.leaves.len() / 256,
            final(self).shard_cache@.len() == old(self)@.leaves.len() / 65_536,
    {
        proof {
            lemma_width_values();
        }
        let subshards: usize = self.leaves.len() / 256;
        while self.subshard_cache.len() < subshards
            invariant
                self.wf(),
                self@ == old(self)@,
                subshards == self.leaves@.len() / 256,
                width(8) == 256,
            decreases subshards - self.subshard_cache@.len(),
        {
            let next: u64 = 256 * self.prefetched.len() as u64 + self.subshard_cache.len() as u64;
            let ghost before = self.subshard_cache@;
            let root = self.subshard_root(next);
            self.subshard_cache.push(root);
            proof {
                let after = self.subshard_cache@;
                assert forall|j: int| 0 <= j < after.len() implies (#[trigger] after[j])@ == node_at(
                    leaf_level(self@),
                    0,
                    8,
                    per_shard(8) * self@.prefetched.len() + j,
                ) && canonical(after[j]@) by {
                    if j < before.len() {
                        assert(after[j] == before[j]);
                    }
                }
            }
        }
        let shards: usize = self.leaves.len() / 65_536;
        while self.shard_cache.len() < shards
            invariant
                self.wf(),
                self@ == old(self)@,
                self.subshard_cache@.len() == old(self)@.leaves.len() / 256,
                shards == self.leaves@.len() / 65_536,
                width(16) == 65_536,
            decreases shards - self.shard_cache@.len(),
        {
            let next: u32 = self.prefetched.len() as u32 + self.shard_cache.len() as u32;
            let ghost before = self.shard_cache@;
            let root = self.shard_root(next);
            self.shard_cache.push(root);
            proof {
                let after = self.shard_cache@;
                assert forall|j: int| 0 <= j < after.len() implies (#[trigger] after[j])@ == node_at(
                    leaf_level(self@),
                    0,
                    16,
                    per_shard(16) * self@.prefetched.len() + j,
                ) && canonical(after[j]@) by {
                    if j < before.len() {
                        assert(after[j] == before[j]);
                    }
                }
            }
        }
    }

    /// The roots of the first `n` shards.
    fn shard_roots(&self, n: u32) -> (roots: Vec<Hash32>)
        requires
            self.wf(),
            n <= 65_536,
        ensures
            caps_describe(self@, roots@, n as nat),
    {
        let mut roots: Vec<Hash32> = Vec::with_capacity(n as usize);
        let mut i: u32 = 0;
        while i < n
            invariant
                i <= n <= 65_536,
                self.wf(),
                caps_describe(self@, roots@, i as nat),
            decreases n - i,
        {
            roots.push(self.shard_root(i));
            i += 1;
        }
        roots
    }

    /// The root of the tree.
    pub fn tree_root(&self) -> (root: Hash32)
        requires
            self.wf(),
        ensures
            root@ == root_of(self@),
            canonical(root@),
    {
        let n: u32 = self.populated_shards();
        let mut cap = self.shard_roots(n);
        let empty = empty_root(16);
        let ghost known = cap@;
        let mut i: u32 = n;
        while i < 65_536
            invariant
                n <= i <= 65_536,
                cap@.len() == i,
                canonical_all(cap@),
                empty@ == empty_node(16),
                canonical(empty@),
                forall|k: int| 0 <= k < n ==> #[trigger] cap@[k] == known[k],
                forall|k: int| n <= k < i ==> #[trigger] cap@[k] == empty,
            decreases 65_536 - i,
        {
            cap.push(empty);
            i += 1;
        }
        proof {
            lemma_width_values();
        }
        let ghost level = cap@;
        let root = subtree_root(cap, 16, 16);
        proof {
            let f = padded(level, 16);
            let g = shard_level(self@);
            assert forall|j: int| 0 * width(16) <= j < (0 + 1) * width(16) implies #[trigger] f(j)
                == g(j) by {
                if j < n {
                    assert(level[j] == known[j]);
                } else {
                    assert(level[j] == empty);
                    lemma_shard_beyond(self@, j);
                }
            }
            lemma_same_below(f, g, 16, 16, 0);
        }
        root
    }

    /// The PIR database and the broadcast that goes with it.
    pub fn build_pir_db_and_broadcast(&mut self, anchor_height: u64) -> (r: (
        Vec<u8>,
        BroadcastData,
    ))
        requires
            old(self).wf(),
        ensures
            final(self).wf(),
            final(self)@ == old(self)@,
            r.0@ == database(old(self)@),
            describes(old(self)@, r.1, anchor_height),
    {
        self.fill_caches();
        let shards: u32 = self.populated_shards();
        let start: u32 = self.window_start_shard();
        let count: u32 = self.window_shard_count();
        let cap = CapData { shard_roots: self.shard_roots(shards) };
        let mut subshard_roots: Vec<SubshardRoots> = Vec::with_capacity(count as usize);
        let mut s: u32 = 0;
        while s < count
            invariant
                s <= count <= 16,
                self.wf(),
                start == window_start(self@),
                count == window_count(self@),
                start + count <= 65_536,
                self@.prefetched.len() <= start,
                subshard_roots@.len() == s,
                forall|k: int|
                    0 <= k < s ==> subroots_describe(
                        self@,
                        (#[trigger] subshard_roots@[k]).roots@,
                        start + k,
                    ),
            decreases count - s,
        {
            let roots = self.subshard_roots_of(start + s);
            subshard_roots.push(SubshardRoots { roots });
            s += 1;
        }
        let database = self.window_bytes(start, count);
        let broadcast = BroadcastData {
            anchor_height,
            window_start_shard: start,
            window_shard_count: count,
            cap,
            subshard_roots,
        };
        (database, broadcast)
    }

    fn window_bytes(&self, start: u32, count: u32) -> (bytes: Vec<u8>)
        requires
            self.wf(),
            start == window_start(self@),
            count == window_count(self@),
            count <= 16,
            self@.prefetched.len() <= start,
            start + count <= 65_536,
        ensures
            bytes@ == database(self@),
    {
        let empty = empty_root(0);
        let first: u64 = start as u64 * 65_536;
        let total: u64 = count as u64 * 65_536;
        let mut bytes: Vec<u8> = Vec::with_capacity(33_554_432);
        let mut i: u64 = 0;
        while i < total
            invariant
                i <= total,
                total == count * 65_536,
                count <= 16,
                first == start * 65_536,
                start <= 65_536,
                self.wf(),
                first >= self@.offset,
                empty@ == empty_node(0),
                canonical(empty@),
                bytes@.len() == 32 * i,
                forall|k: int|
                    0 <= k < 32 * i ==> #[trigger] bytes@[k] == leaf_level(self@)(first + k / 32)[k
                        % 32],
            decreases total - i,
        {
            let leaf = self.leaf_or_empty(first + i, &empty);
            let ghost before = bytes@;
            push_hash(&mut bytes, &leaf);
            i += 1;
            assert forall|k: int| 0 <= k < 32 * i implies #[trigger] bytes@[k] == leaf_level(self@)(
                first + k / 32,
            )[k % 32] by {
                if k < before.len() {
                    assert(bytes@[k] == before[k]);
                } else {
                    assert(k / 32 == i - 1);
                    assert(bytes@[k] == leaf@[k - before.len()]);
                }
            }
        }
        let ghost window = bytes@;
        while bytes.len() < 33_554_432
            invariant
                window.len() == 32 * total,
                window.len() <= bytes@.len() <= 33_554_432,
                forall|k: int| 0 <= k < window.len() ==> #[trigger] bytes@[k] == window[k],
                forall|k: int| window.len() <= k < bytes@.len() ==> #[trigger] bytes@[k] == 0,
            decreases 33_554_432 - bytes@.len(),
        {
            bytes.push(0);
        }
        assert(bytes@ =~= database(self@)) by {
            assert forall|k: int| 0 <= k < 33_554_432 implies bytes@[k] == database(self@)[k] by {
                if k < window.len() {
                    assert(bytes@[k] == window[k]);
                }
            }
        }
        bytes
    }
}

impl Default for CommitmentTreeDb {
    fn default() -> (tree: Self)
        ensures
            tree.wf(),
            size_of(tree@) == 0,
            tree@.blocks.len() == 0,
    {
        CommitmentTreeDb::new()
    }
}

/// A cache stays true when it is cut short.
proof fn lemma_caches_cut(v: TreeView, roots: Seq<Hash32>, k: nat, n: int)
    requires
        caches(v, roots, k),
        0 <= n <= roots.len(),
    ensures
        caches(v, roots.take(n), k),
{
    assert(n * width(k) <= roots.len() * width(k)) by (nonlinear_arith)
        requires
            n <= roots.len(),
    ;
    assert forall|j: int| 0 <= j < n implies (#[trigger] roots.take(n)[j]) == roots[j] by {}
}

/// Shards beyond the populated ones are empty.
pub proof fn lemma_shard_beyond(v: TreeView, i: int)
    requires
        tree_wf(v),
        populated(v) <= i,
    ensures
        shard_level(v)(i) == empty_node(16),
{
    lemma_width_values();
    let f = leaf_level(v);
    assert forall|j: int| i * width(16) <= j < (i + 1) * width(16) implies #[trigger] f(j)
        == empty_node(0) by {}
    super::merkle::lemma_empty_above(f, 0, 16, i);
}

} // verus!
