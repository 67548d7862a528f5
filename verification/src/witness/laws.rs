//! What holds of trees and witnesses across operations.

use super::tree::{TreeBlock, TreeView};
use super::types::{BroadcastData, FrontierUpdate, PirWitness};
use crate::bytes::Hash32;
use vstd::prelude::*;
#[allow(unused_imports)]
use super::merkle::{
    bytes_of, canonical, climbed, empty_node, lemma_aligned, lemma_climb, lemma_empty_above,
    lemma_same_below, lemma_stacked, lemma_twos_width, lemma_up_add, lemma_up_aligned,
    lemma_up_zero, lemma_width_pos, lemma_width_values, node_at, padded, sibling, up, width, Nodes,
};
#[allow(unused_imports)]
use super::reconstruct::{
    advanced_root, advanced_siblings, cap_root, cap_roots, edge_sibling, leaves_view, path_root, path_sibling,
    rebuildable, rebuilt_path, row_leaves, update_applies, update_hashable,
};
#[allow(unused_imports)]
use super::tree::{
    appended, database, describes, leaf_level, lemma_shard_beyond, popped, populated,
    rolled_back_to, root_of, shard_level, size_of, subroots_describe, tree_wf, window_count,
    window_start,
};
#[allow(unused_imports)]
use super::types::{leaf_of, shard_of, subshard_of};
#[allow(unused_imports)]
use crate::bytes::{lemma_array_exists, lemma_array_of};

verus! {

/// Taking back the block just appended restores the tree, when the blocks
/// before it are not above the height rolled back to.
pub proof fn law_rollback_undoes_append(
    v: TreeView,
    height: u64,
    hash: Hash32,
    commitments: Seq<Hash32>,
    to: u64,
)
    requires
        tree_wf(v),
        v.leaves.len() <= usize::MAX,
        to < height,
        v.blocks.len() > 0 ==> v.blocks.last().height <= to,
    ensures
        rolled_back_to(appended(v, height, hash, commitments), to) == v,
{
    let n = appended(v, height, hash, commitments);
    let back = popped(n);
    assert(n.blocks.last() == TreeBlock { height, hash, leaves_before: v.leaves.len() as usize });
    assert(back.leaves =~= v.leaves);
    assert(back.blocks =~= v.blocks);
    assert(back =~= v);
    assert(rolled_back_to(v, to) == v);
}

/// Whether the heights of the blocks ascend.
pub open spec fn heights_ascend(v: TreeView) -> bool {
    forall|i: int, j: int|
        0 <= i < j < v.blocks.len() ==> (#[trigger] v.blocks[i]).height < (
        #[trigger] v.blocks[j]).height
}

/// Rolling back keeps exactly the blocks up to the height, and of the leaves
/// exactly those that were there before the first block above it.
pub proof fn law_rollback_keeps_lower_blocks(v: TreeView, height: u64) -> (n: int)
    requires
        tree_wf(v),
        heights_ascend(v),
    ensures
        0 <= n <= v.blocks.len(),
        rolled_back_to(v, height).blocks == v.blocks.take(n),
        forall|i: int| 0 <= i < n ==> (#[trigger] v.blocks[i]).height <= height,
        forall|i: int| n <= i < v.blocks.len() ==> (#[trigger] v.blocks[i]).height > height,
        n == v.blocks.len() ==> rolled_back_to(v, height).leaves == v.leaves,
        n < v.blocks.len() ==> rolled_back_to(v, height).leaves == v.leaves.take(
            v.blocks[n].leaves_before as int,
        ),
        rolled_back_to(v, height).offset == v.offset,
        rolled_back_to(v, height).prefetched == v.prefetched,
    decreases v.blocks.len(),
{
    if v.blocks.len() == 0 || v.blocks.last().height <= height {
        assert(v.blocks.take(v.blocks.len() as int) =~= v.blocks);
        assert forall|i: int| 0 <= i < v.blocks.len() implies (#[trigger] v.blocks[i]).height
            <= height by {
            if i < v.blocks.len() - 1 {
                assert(v.blocks[i].height < v.blocks[v.blocks.len() - 1].height);
            }
        }
        v.blocks.len() as int
    } else {
        let less = popped(v);
        let last = v.blocks.len() - 1;
        assert(v.blocks[last] == v.blocks.last());
        assert forall|i: int, j: int| 0 <= i < j < less.blocks.len() implies (
        #[trigger] less.blocks[i]).leaves_before <= (#[trigger] less.blocks[j]).leaves_before by {
            assert(v.blocks[i].leaves_before <= v.blocks[j].leaves_before);
        }
        assert forall|i: int| 0 <= i < less.blocks.len() implies (
        #[trigger] less.blocks[i]).leaves_before <= less.leaves.len() by {
            assert(v.blocks[i].leaves_before <= v.blocks[last].leaves_before);
        }
        assert forall|i: int| 0 <= i < less.leaves.len() implies canonical(
            (#[trigger] less.leaves[i])@,
        ) by {
            assert(less.leaves[i] == v.leaves[i]);
        }
        assert forall|i: int, j: int| 0 <= i < j < less.blocks.len() implies (
        #[trigger] less.blocks[i]).height < (#[trigger] less.blocks[j]).height by {
            assert(v.blocks[i].height < v.blocks[j].height);
        }
        let n = law_rollback_keeps_lower_blocks(less, height);
        assert(less.blocks.take(n) =~= v.blocks.take(n));
        assert forall|i: int| 0 <= i < n implies (#[trigger] v.blocks[i]).height <= height by {
            assert(less.blocks[i] == v.blocks[i]);
        }
        assert forall|i: int| n <= i < v.blocks.len() implies (#[trigger] v.blocks[i]).height
            > height by {
            if i < last {
                assert(less.blocks[i] == v.blocks[i]);
            }
        }
        if n < less.blocks.len() {
            assert(less.blocks[n] == v.blocks[n]);
            assert(v.blocks[n].leaves_before <= v.blocks[last].leaves_before);
            assert(less.leaves.take(v.blocks[n].leaves_before as int) =~= v.leaves.take(
                v.blocks[n].leaves_before as int,
            ));
        }
        n
    }
}

/// A tree that begins at its first leaf has the root of a depth-32 tree over
/// its leaves.
pub proof fn law_root_over_leaves(v: TreeView)
    requires
        tree_wf(v),
        v.offset == 0,
    ensures
        root_of(v) == node_at(padded(v.leaves, 0), 0, 32, 0),
{
    let f = leaf_level(v);
    let g = padded(v.leaves, 0);
    lemma_width_values();
    let shards = |j: int| node_at(f, 0, 16, j);
    assert forall|j: int| 0 * width(16) <= j < (0 + 1) * width(16) implies #[trigger] shard_level(
        v,
    )(j) == shards(j) by {}
    lemma_same_below(shard_level(v), shards, 16, 16, 0);
    lemma_stacked(f, 0, 16, 16, 0);
    assert forall|j: int| 0 * width(32) <= j < (0 + 1) * width(32) implies #[trigger] f(j) == g(
        j,
    ) by {}
    lemma_same_below(f, g, 0, 32, 0);
}

/// A tree that begins in the middle, after the roots of the shards before it,
/// has the same shards and the same root as the tree that holds every leaf.
pub proof fn law_window_has_the_root_of_all(v: TreeView, whole: TreeView, shard: int)
    requires
        tree_wf(v),
        tree_wf(whole),
        whole.offset == 0,
        size_of(whole) == size_of(v),
        v.leaves == whole.leaves.skip(v.offset as int),
        forall|i: int|
            0 <= i < v.prefetched.len() ==> (#[trigger] v.prefetched[i])@ == shard_level(whole)(i),
        0 <= shard,
    ensures
        shard_level(v)(shard) == shard_level(whole)(shard),
        root_of(v) == root_of(whole),
{
    lemma_width_values();
    assert forall|i: int| 0 <= i implies #[trigger] shard_level(v)(i) == shard_level(whole)(i) by {
        if i < v.prefetched.len() {
            assert(v.prefetched[i]@ == shard_level(whole)(i));
        } else {
            let f = leaf_level(v);
            let g = leaf_level(whole);
            assert forall|j: int| i * width(16) <= j < (i + 1) * width(16) implies #[trigger] f(j)
                == g(j) by {}
            lemma_same_below(f, g, 0, 16, i);
        }
    }
    lemma_same_below(shard_level(v), shard_level(whole), 16, 16, 0);
}

/// Blocks appended in ascending height order stay so, whatever is rolled back.
pub proof fn law_heights_stay_ascending(
    v: TreeView,
    height: u64,
    hash: Hash32,
    commitments: Seq<Hash32>,
    to: u64,
)
    requires
        tree_wf(v),
        heights_ascend(v),
    ensures
        v.blocks.len() == 0 || v.blocks.last().height < height ==> heights_ascend(
            appended(v, height, hash, commitments),
        ),
        heights_ascend(rolled_back_to(v, to)),
{
    let n = law_rollback_keeps_lower_blocks(v, to);
}

/// The row of the PIR database in which a position lies.
pub open spec fn row_of(v: TreeView, position: int) -> Seq<u8> {
    let row = (shard_of(position) - window_start(v)) * 256 + subshard_of(position);
    database(v).subrange(row * 8_192, row * 8_192 + 8_192)
}

/// Whether a position lies in a shard of the window.
pub open spec fn in_window(v: TreeView, position: int) -> bool {
    window_start(v) <= shard_of(position) < window_start(v) + window_count(v)
}

proof fn lemma_window_bounds(v: TreeView)
    requires
        tree_wf(v),
    ensures
        v.prefetched.len() <= window_start(v),
        window_count(v) <= 16,
        window_start(v) + window_count(v) == populated(v),
        populated(v) <= 65_536,
{
}

/// The leaves of a position's row are those of its subshard.
proof fn lemma_row_leaves(v: TreeView, position: int, t: int)
    requires
        tree_wf(v),
        0 <= position,
        in_window(v, position),
        0 <= t < 256,
    ensures
        row_leaves(row_of(v, position))[t]@ == leaf_level(v)((position / 256) * 256 + t),
        canonical(leaf_level(v)((position / 256) * 256 + t)) || leaf_level(v)(
            (position / 256) * 256 + t,
        ) == empty_node(0),
{
    lemma_window_bounds(v);
    let start = window_start(v) as int;
    let row = (shard_of(position) - start) * 256 + subshard_of(position);
    let bytes = row_of(v, position);
    let at = (position / 256) * 256 + t;
    assert(position / 65_536 == (position / 256) / 256);
    assert(start * 65_536 + row * 256 + t == at);
    let cell = bytes.subrange(32 * t, 32 * t + 32);
    assert(0 <= row && row * 8_192 + 8_192 <= window_count(v) * 2_097_152);
    let leaf = leaf_level(v)(at);
    assert forall|b: int| 0 <= b < 32 implies cell[b] == leaf[b] by {
        let k = row * 8_192 + 32 * t + b;
        assert(cell[b] == database(v)[k]);
        assert(k / 32 == row * 256 + t && k % 32 == b);
    }
    if v.offset <= at < v.offset + v.leaves.len() {
        assert(canonical(v.leaves[at - v.offset]@));
        assert(cell =~= leaf);
        lemma_array_of(v.leaves[at - v.offset], cell);
    } else {
        crate::bytes::lemma_le_bytes_len(2, 32);
        assert(cell =~= leaf);
        lemma_array_exists(cell);
    }
}

/// The empty leaf is canonical.
proof fn lemma_empty_leaf_canonical()
    ensures
        canonical(empty_node(0)),
{
    crate::bytes::lemma_le_bytes_len(2, 32);
    crate::bytes::lemma_pow256_monotone(1, 32);
    crate::bytes::lemma_pow256_small();
    crate::bytes::lemma_le_nat_of_bytes(2, 32);
}

/// A position, told by its shard, subshard and leaf.
proof fn lemma_position_parts(position: int)
    requires
        0 <= position,
    ensures
        position == leaf_of(position) + (position / 256) * 256,
        position / 256 == subshard_of(position) + shard_of(position) * 256,
        up(position, 8) == position / 256,
        up(position, 16) == shard_of(position),
        0 <= leaf_of(position) < 256,
        0 <= subshard_of(position) < 256,
{
    lemma_width_values();
    assert(position / 65_536 == (position / 256) / 256);
    let q = position / 256;
    lemma_up_aligned(leaf_of(position), q, 8, 8);
    assert(width(0) == 1);
    assert(q * 1 == q);
    lemma_up_aligned(subshard_of(position), shard_of(position), 8, 8);
    lemma_up_add(position, 8, 8);
}

/// A row and a broadcast made from a tree are enough to rebuild any witness
/// of the window.
pub proof fn law_rows_are_rebuildable(
    v: TreeView,
    broadcast: BroadcastData,
    anchor_height: u64,
    position: int,
)
    requires
        tree_wf(v),
        describes(v, broadcast, anchor_height),
        0 <= position,
        in_window(v, position),
    ensures
        row_of(v, position).len() == 8_192,
        rebuildable(shard_of(position) as u32, row_of(v, position), broadcast),
{
    lemma_window_bounds(v);
    lemma_width_values();
    lemma_twos_width(8);
    let start = window_start(v) as int;
    let s = shard_of(position) - start;
    let row = s * 256 + subshard_of(position);
    assert(0 <= row && row * 8_192 + 8_192 <= 33_554_432);
    assert(subroots_describe(v, broadcast.subshard_roots@[s].roots@, start + s));
    let leaves = row_leaves(row_of(v, position));
    lemma_empty_leaf_canonical();
    assert forall|t: int| 0 <= t < leaves.len() implies canonical((#[trigger] leaves[t])@) by {
        lemma_row_leaves(v, position, t);
    }
}

/// The sibling at level `l` of a position's true path: a node over the leaves
/// within the shard, a node over the shard roots above it.
pub open spec fn true_sibling(v: TreeView, position: int, l: nat) -> Seq<u8> {
    if l < 16 {
        node_at(leaf_level(v), 0, l, sibling(up(position, l)))
    } else {
        node_at(shard_level(v), 16, (l - 16) as nat, sibling(up(position, l)))
    }
}

proof fn lemma_path_siblings(
    v: TreeView,
    broadcast: BroadcastData,
    anchor_height: u64,
    position: int,
    l: nat,
)
    requires
        tree_wf(v),
        describes(v, broadcast, anchor_height),
        0 <= position,
        in_window(v, position),
        l < 32,
    ensures
        path_sibling(
            shard_of(position) as u32,
            subshard_of(position) as u8,
            leaf_of(position) as u8,
            row_of(v, position),
            broadcast,
            l,
        ) == true_sibling(v, position, l),
{
    lemma_window_bounds(v);
    lemma_width_values();
    lemma_twos_width(8);
    lemma_position_parts(position);
    let start = window_start(v) as int;
    let shard = shard_of(position);
    let s = shard - start;
    if l < 8 {
        let f = padded(row_leaves(row_of(v, position)), 0);
        let g = leaf_level(v);
        let q = position / 256;
        assert forall|j: int| 0 <= j < width(8) implies #[trigger] f(j) == g(j + q * width(8)) by {
            lemma_row_leaves(v, position, j);
        }
        lemma_aligned(f, g, 0, 8, l, leaf_of(position), q);
    } else if l < 16 {
        let roots = broadcast.subshard_roots@[s].roots@;
        assert(subroots_describe(v, roots, start + s));
        let f = padded(roots, 8);
        let g = |j: int| node_at(leaf_level(v), 0, 8, j);
        assert forall|j: int| 0 <= j < width(8) implies #[trigger] f(j) == g(
            j + shard * width(8),
        ) by {
            assert(roots[j]@ == node_at(leaf_level(v), 0, 8, shard * 256 + j));
        }
        let m = (l - 8) as nat;
        lemma_aligned(f, g, 8, 8, m, subshard_of(position), shard);
        lemma_up_add(position, 8, m);
        lemma_stacked(leaf_level(v), 0, 8, m, sibling(up(position, l)));
    } else {
        let f = padded(cap_roots(broadcast), 16);
        let g = shard_level(v);
        assert forall|j: int| 0 <= j < width(16) implies #[trigger] f(j) == g(
            j + 0 * width(16),
        ) by {
            if j < populated(v) {
                assert(broadcast.cap.shard_roots@[j]@ == g(j));
            } else {
                lemma_shard_beyond(v, j);
            }
        }
        let m = (l - 16) as nat;
        assert(0 <= shard < width(16));
        assert(shard + 0 * width(16) == shard);
        lemma_aligned(f, g, 16, 16, m, shard, 0);
        lemma_up_add(position, 16, m);
    }
}

/// The true path of a position of the window leads to the root of the tree.
proof fn lemma_climbs_to_root(v: TreeView, position: int, siblings: Seq<Seq<u8>>)
    requires
        tree_wf(v),
        0 <= position,
        in_window(v, position),
        forall|l: int|
            0 <= l < 32 ==> #[trigger] siblings[l] == true_sibling(v, position, l as nat),
    ensures
        climbed(position, row_leaves(row_of(v, position))[leaf_of(position)]@, siblings, 32)
            == root_of(v),
{
    lemma_window_bounds(v);
    lemma_width_values();
    lemma_position_parts(position);
    let leaf = row_leaves(row_of(v, position))[leaf_of(position)]@;
    lemma_row_leaves(v, position, leaf_of(position));
    let f = leaf_level(v);
    assert(leaf == f(position));
    assert(up(position, 0) == position);
    lemma_climb(f, 0, position, leaf, siblings, 16);
    let g = shard_level(v);
    assert(climbed(position, leaf, siblings, 16) == g(up(position, 16)));
    lemma_climb(g, 16, position, leaf, siblings, 32);
    assert(0 <= position < width(32));
    lemma_up_zero(position, 32);
}

/// A row and a broadcast made from a tree always pass the check of
/// `reconstruct_witness`: the path leads to the broadcast's anchor root, which
/// is the root of the tree.
pub proof fn law_rows_pass_verification(
    v: TreeView,
    broadcast: BroadcastData,
    anchor_height: u64,
    position: int,
)
    requires
        tree_wf(v),
        describes(v, broadcast, anchor_height),
        0 <= position,
        in_window(v, position),
    ensures
        path_root(
            position,
            shard_of(position) as u32,
            subshard_of(position) as u8,
            leaf_of(position) as u8,
            row_of(v, position),
            broadcast,
        ) == cap_root(broadcast),
        cap_root(broadcast) == root_of(v),
{
    lemma_window_bounds(v);
    lemma_width_values();
    let siblings = rebuilt_path(
        shard_of(position) as u32,
        subshard_of(position) as u8,
        leaf_of(position) as u8,
        row_of(v, position),
        broadcast,
    );
    assert forall|l: int| 0 <= l < 32 implies #[trigger] siblings[l] == true_sibling(
        v,
        position,
        l as nat,
    ) by {
        lemma_path_siblings(v, broadcast, anchor_height, position, l as nat);
    }
    lemma_position_parts(position);
    lemma_climbs_to_root(v, position, siblings);
    let f = padded(cap_roots(broadcast), 16);
    let g = shard_level(v);
    assert forall|j: int| 0 * width(16) <= j < (0 + 1) * width(16) implies #[trigger] f(j) == g(
        j,
    ) by {
        if j < populated(v) {
            assert(broadcast.cap.shard_roots@[j]@ == g(j));
        } else {
            lemma_shard_beyond(v, j);
        }
    }
    lemma_same_below(f, g, 16, 16, 0);
}

/// Whether a witness is the one that `reconstruct_witness` makes for a
/// position of the window, from its row and the broadcast.
pub open spec fn rebuilt(
    v: TreeView,
    broadcast: BroadcastData,
    position: int,
    witness: PirWitness,
) -> bool {
    &&& witness.position == position
    &&& forall|l: int|
        0 <= l < 32 ==> (#[trigger] witness.siblings@[l])@ == path_sibling(
            shard_of(position) as u32,
            subshard_of(position) as u8,
            leaf_of(position) as u8,
            row_of(v, position),
            broadcast,
            l as nat,
        )
    &&& witness.anchor_root@ == climbed(
        position,
        row_leaves(row_of(v, position))[leaf_of(position)]@,
        bytes_of(witness.siblings@),
        32,
    )
}

/// A witness rebuilt from a tree's database and broadcast holds the true path
/// of its position, and its anchor root is the root of the tree.
pub proof fn law_witness_anchors_to_root(
    v: TreeView,
    broadcast: BroadcastData,
    anchor_height: u64,
    position: int,
    witness: PirWitness,
)
    requires
        tree_wf(v),
        describes(v, broadcast, anchor_height),
        0 <= position,
        in_window(v, position),
        rebuilt(v, broadcast, position, witness),
    ensures
        forall|l: int|
            0 <= l < 32 ==> (#[trigger] witness.siblings@[l])@ == true_sibling(
                v,
                position,
                l as nat,
            ),
        witness.anchor_root@ == root_of(v),
{
    lemma_window_bounds(v);
    lemma_width_values();
    lemma_position_parts(position);
    let siblings = bytes_of(witness.siblings@);
    assert forall|l: int| 0 <= l < 32 implies (#[trigger] witness.siblings@[l])@ == true_sibling(
        v,
        position,
        l as nat,
    ) && siblings[l] == true_sibling(v, position, l as nat) by {
        lemma_path_siblings(v, broadcast, anchor_height, position, l as nat);
        assert(siblings[l] == witness.siblings@[l]@);
    }
    lemma_climbs_to_root(v, position, siblings);
}

/// Whether a level of leaves ends at `size`: from there on it is empty.
pub open spec fn ends_at(f: Nodes, size: int) -> bool {
    forall|i: int| size <= i ==> #[trigger] f(i) == empty_node(0)
}

/// Whether a frontier is the right edge of the tree with leaves `f`.
pub open spec fn edge_of(f: Nodes, frontier: FrontierUpdate) -> bool {
    &&& 0 < frontier.tree_size <= 0x1_0000_0000
    &&& ends_at(f, frontier.tree_size as int)
    &&& frontier.root@ == node_at(f, 0, 32, 0)
    &&& forall|l: int|
        0 <= l < 32 ==> (#[trigger] frontier.rightmost_nodes@[l])@ == node_at(
            f,
            0,
            l as nat,
            up(frontier.tree_size - 1, l as nat),
        )
}

/// Whether a witness holds the true path of its position in the tree with
/// leaves `f`.
pub open spec fn path_in(f: Nodes, witness: PirWitness) -> bool {
    forall|l: int|
        0 <= l < 32 ==> (#[trigger] witness.siblings@[l])@ == node_at(
            f,
            0,
            l as nat,
            sibling(up(witness.position as int, l as nat)),
        )
}

/// Whether the sibling at level `l` can be told at a larger size: it reaches
/// the new right edge, or was complete at the old size, or lies in a subshard
/// whose leaves are given.
pub open spec fn sibling_known(
    position: int,
    old_size: int,
    new_size: int,
    leaves_given: bool,
    l: nat,
) -> bool {
    ||| sibling(up(position, l)) >= up(new_size - 1, l)
    ||| (sibling(up(position, l)) + 1) * width(l) <= old_size
    ||| leaves_given && l < 8
}

/// An index `l` levels above `i` covers `i`.
proof fn lemma_up_covers(i: int, l: nat)
    requires
        0 <= i,
    ensures
        0 <= up(i, l),
        up(i, l) * width(l) <= i < (up(i, l) + 1) * width(l),
    decreases l,
{
    if l > 0 {
        lemma_up_covers(i, (l - 1) as nat);
        let below = up(i, (l - 1) as nat);
        let w = width((l - 1) as nat);
        let x = up(i, l);
        assert(width(l) == 2 * w);
        assert(x * (2 * w) <= below * w && (below + 1) * w <= (x + 1) * (2 * w)) by (nonlinear_arith)
            requires
                below == 2 * x || below == 2 * x + 1,
                w >= 0,
        ;
    } else {
        assert(width(0) == 1);
    }
}

/// Advancing a true witness along the right edge of a larger tree gives the
/// advertised root whenever every sibling can be told.
pub proof fn law_update_reaches_root(
    f: Nodes,
    g: Nodes,
    old_size: int,
    witness: PirWitness,
    leaf: Hash32,
    frontier: FrontierUpdate,
    leaves: Option<Seq<Hash32>>,
)
    requires
        witness.position < old_size <= frontier.tree_size,
        forall|i: int| 0 <= i < old_size ==> #[trigger] f(i) == g(i),
        path_in(f, witness),
        leaf@ == g(witness.position as int),
        edge_of(g, frontier),
        leaves matches Some(given) ==> given.len() == 256 && forall|t: int|
            0 <= t < 256 ==> (#[trigger] given[t])@ == g((witness.position / 256) * 256 + t),
        forall|l: nat|
            l < 32 ==> #[trigger] sibling_known(
                witness.position as int,
                old_size,
                frontier.tree_size as int,
                leaves is Some,
                l,
            ),
    ensures
        advanced_root(witness, leaf, frontier, leaves) == frontier.root@,
        forall|l: int|
            0 <= l < 32 ==> #[trigger] advanced_siblings(witness, frontier, leaves)[l] == node_at(
                g,
                0,
                l as nat,
                sibling(up(witness.position as int, l as nat)),
            ),
{
    let p = witness.position as int;
    let size = frontier.tree_size as int;
    let siblings = advanced_siblings(witness, frontier, leaves);
    lemma_width_values();
    lemma_position_parts(p);
    assert forall|l: int| 0 <= l < 32 implies #[trigger] siblings[l] == node_at(
        g,
        0,
        l as nat,
        sibling(up(p, l as nat)),
    ) by {
        let n = l as nat;
        let other = sibling(up(p, n));
        let edge = up(size - 1, n);
        assert(sibling_known(p, old_size, size, leaves is Some, n));
        lemma_up_covers(p, n);
        lemma_up_covers(size - 1, n);
        lemma_width_pos(n);
        let w = width(n) as int;
        if leaves is Some && l < 8 {
            let given = leaves->0;
            let h = padded(given, 0);
            let q = p / 256;
            assert forall|j: int| 0 <= j < width(8) implies #[trigger] h(j) == g(
                j + q * width(8),
            ) by {
                assert(given[j]@ == g(q * 256 + j));
            }
            lemma_aligned(h, g, 0, 8, n, leaf_of(p), q);
        } else if other == edge {
            assert(frontier.rightmost_nodes@[l]@ == node_at(g, 0, n, edge));
        } else if other > edge {
            assert(other * w >= (edge + 1) * w) by (nonlinear_arith)
                requires
                    other >= edge + 1,
                    w > 0,
            ;
            lemma_empty_above(g, 0, n, other);
        } else {
            assert((other + 1) * w <= old_size);
            assert(0 <= other * w) by (nonlinear_arith)
                requires
                    other >= 0,
                    w > 0,
            ;
            assert(witness.siblings@[l]@ == node_at(f, 0, n, other));
            lemma_same_below(f, g, 0, n, other);
        }
    }
    assert(up(p, 0) == p);
    lemma_climb(g, 0, p, leaf@, siblings, 32);
    lemma_up_zero(p, 32);
}

/// The shards with a leaf are as many as the leaves need, and the window is the
/// last sixteen of them, or all of them whose leaves are held.
pub proof fn law_window_is_the_last_shards(v: TreeView)
    requires
        tree_wf(v),
    ensures
        size_of(v) == 65_536 * v.prefetched.len() + v.leaves.len(),
        65_536 * populated(v) >= size_of(v),
        65_536 * populated(v) < size_of(v) + 65_536,
        window_start(v) + window_count(v) == populated(v),
        window_count(v) <= 16,
        v.prefetched.len() <= window_start(v),
        window_start(v) > v.prefetched.len() ==> window_count(v) == 16,
{
}

/// A block's commitments become the next leaves of the tree, in order, and no
/// leaf before them changes.
pub proof fn law_append_adds_the_next_leaves(
    v: TreeView,
    height: u64,
    hash: Hash32,
    commitments: Seq<Hash32>,
)
    requires
        tree_wf(v),
    ensures
        ({
            let n = appended(v, height, hash, commitments);
            &&& size_of(n) == size_of(v) + commitments.len()
            &&& forall|i: int|
                0 <= i < commitments.len() ==> leaf_level(n)(size_of(v) + i) == (
                #[trigger] commitments[i])@
            &&& forall|i: int| i < size_of(v) ==> #[trigger] leaf_level(n)(i) == leaf_level(v)(i)
            &&& forall|i: int|
                size_of(v) + commitments.len() <= i ==> #[trigger] leaf_level(n)(i) == empty_node(0)
            &&& forall|i: int|
                0 <= i < v.prefetched.len() ==> shard_level(n)(i) == (
                #[trigger] v.prefetched[i])@
            &&& n.blocks.len() == v.blocks.len() + 1
            &&& n.blocks.drop_last() == v.blocks
            &&& n.blocks.last().height == height
            &&& n.blocks.last().hash == hash
        }),
{
    let n = appended(v, height, hash, commitments);
    assert(n.blocks.drop_last() =~= v.blocks);
}

/// A witness is updated exactly when its position lies in the tree, the update
/// is newer, the given leaves hold the witnessed one, and the path that the
/// update gives leads to the update's root.
pub proof fn law_update_conditions(
    witness: PirWitness,
    leaf: Hash32,
    frontier: FrontierUpdate,
    leaves: Option<Seq<Hash32>>,
)
    ensures
        update_applies(witness, leaf, frontier, leaves) <==> witness.position < frontier.tree_size
            && witness.anchor_height < frontier.height && (leaves is Some
            ==> leaves->0[witness.position as int % 256] == leaf),
{
}

/// An update can be hashed exactly when the leaf, the given leaves and every other
/// node that its path takes are canonical.
pub proof fn law_update_takes_canonical_nodes(
    witness: PirWitness,
    leaf: Hash32,
    frontier: FrontierUpdate,
    leaves: Option<Seq<Hash32>>,
)
    ensures
        update_hashable(witness, leaf, frontier, leaves) <==> {
            &&& canonical(leaf@)
            &&& leaves is Some ==> forall|i: int|
                0 <= i < leaves->0.len() ==> canonical((#[trigger] leaves->0[i])@)
            &&& forall|l: int|
                0 <= l < 32 && (leaves is None || l >= 8) ==> canonical(
                    #[trigger] advanced_siblings(witness, frontier, leaves)[l],
                )
        },
{
    let siblings = advanced_siblings(witness, frontier, leaves);
    assert forall|l: int| 0 <= l < 32 && (leaves is None || l >= 8) implies #[trigger] siblings[l]
        == edge_sibling(witness, frontier, l as nat) by {}
    if update_hashable(witness, leaf, frontier, leaves) {
        assert forall|l: int| 0 <= l < 32 && (leaves is None || l >= 8) implies canonical(
            #[trigger] siblings[l],
        ) by {
            assert(canonical(edge_sibling(witness, frontier, l as nat)));
        }
    } else if canonical(leaf@) && (leaves matches Some(given) ==> forall|i: int|
        0 <= i < given.len() ==> canonical((#[trigger] given[i])@)) {
        let l = choose|l: int|
            (if leaves is Some {
                8int
            } else {
                0int
            }) <= l < 32 && !canonical(#[trigger] edge_sibling(witness, frontier, l as nat));
        assert(!canonical(siblings[l]));
    }
}

/// The root of an update is the one to which its path leads from the leaf; so a
/// witness that was updated verifies against the update's root.
pub proof fn law_updated_witness_verifies(
    witness: PirWitness,
    leaf: Hash32,
    frontier: FrontierUpdate,
    leaves: Option<Seq<Hash32>>,
    updated: PirWitness,
)
    requires
        advanced_root(witness, leaf, frontier, leaves) == frontier.root@,
        updated.position == witness.position,
        updated.anchor_root == frontier.root,
        bytes_of(updated.siblings@) == advanced_siblings(witness, frontier, leaves),
    ensures
        climbed(
            updated.position as int,
            leaf@,
            updated.siblings@.map_values(|node: Hash32| node@),
            32,
        ) == updated.anchor_root@,
{
}

/// The leaves that go into an update are those given.
pub proof fn law_given_leaves_are_used(leaves: Option<&[Hash32; 256]>)
    ensures
        leaves is None ==> leaves_view(leaves) is None,
        leaves matches Some(given) ==> leaves_view(leaves) == Some(given@),
{
}

/// In any tree, rolling back takes back the last blocks as long as they lie above
/// the height, with the leaves that they and no others added.
pub proof fn law_rollback_in_any_tree(v: TreeView, height: u64) -> (n: int)
    requires
        tree_wf(v),
    ensures
        0 <= n <= v.blocks.len(),
        rolled_back_to(v, height).blocks == v.blocks.take(n),
        n > 0 ==> v.blocks[n - 1].height <= height,
        forall|i: int| n <= i < v.blocks.len() ==> (#[trigger] v.blocks[i]).height > height,
        n == v.blocks.len() ==> rolled_back_to(v, height).leaves == v.leaves,
        n < v.blocks.len() ==> rolled_back_to(v, height).leaves == v.leaves.take(
            v.blocks[n].leaves_before as int,
        ),
        rolled_back_to(v, height).offset == v.offset,
        rolled_back_to(v, height).prefetched == v.prefetched,
    decreases v.blocks.len(),
{
    if v.blocks.len() == 0 || v.blocks.last().height <= height {
        assert(v.blocks.take(v.blocks.len() as int) =~= v.blocks);
        v.blocks.len() as int
    } else {
        let less = popped(v);
        let last = v.blocks.len() - 1;
        assert(v.blocks[last] == v.blocks.last());
        assert forall|i: int, j: int| 0 <= i < j < less.blocks.len() implies (
        #[trigger] less.blocks[i]).leaves_before <= (#[trigger] less.blocks[j]).leaves_before by {
            assert(v.blocks[i].leaves_before <= v.blocks[j].leaves_before);
        }
        assert forall|i: int| 0 <= i < less.blocks.len() implies (
        #[trigger] less.blocks[i]).leaves_before <= less.leaves.len() by {
            assert(v.blocks[i].leaves_before <= v.blocks[last].leaves_before);
        }
        assert forall|i: int| 0 <= i < less.leaves.len() implies canonical(
            (#[trigger] less.leaves[i])@,
        ) by {
            assert(less.leaves[i] == v.leaves[i]);
        }
        let n = law_rollback_in_any_tree(less, height);
        assert(less.blocks.take(n) =~= v.blocks.take(n));
        assert forall|i: int| n <= i < v.blocks.len() implies (#[trigger] v.blocks[i]).height
            > height by {
            if i < last {
                assert(less.blocks[i] == v.blocks[i]);
            }
        }
        if n < less.blocks.len() {
            assert(less.blocks[n] == v.blocks[n]);
            assert(v.blocks[n].leaves_before <= v.blocks[last].leaves_before);
            assert(less.leaves.take(v.blocks[n].leaves_before as int) =~= v.leaves.take(
                v.blocks[n].leaves_before as int,
            ));
        }
        n
    }
}

} // verus!
