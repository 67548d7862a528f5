//! The parts of lightwalletd's messages that ingestion reads.

use vstd::prelude::*;

verus! {

/// A compact block.
#[derive(Debug, Clone, Default, PartialEq, Eq)]
pub struct CompactBlock {
    pub height: u64,
    pub hash: Vec<u8>,
    pub prev_hash: Vec<u8>,
    pub time: u32,
    pub vtx: Vec<CompactTx>,
    pub chain_metadata: Option<ChainMetadata>,
}

/// A compact transaction. Orchard and Ironwood actions are listed apart.
#[derive(Debug, Clone, Default, PartialEq, Eq)]
pub struct CompactTx {
    pub index: u64,
    pub hash: Vec<u8>,
    pub actions: Vec<CompactOrchardAction>,
    pub ironwood_actions: Vec<CompactOrchardAction>,
}

/// A compact action.
#[derive(Debug, Clone, Default, PartialEq, Eq)]
pub struct CompactOrchardAction {
    pub nullifier: Vec<u8>,
    pub cmx: Vec<u8>,
    pub ephemeral_key: Vec<u8>,
    pub ciphertext: Vec<u8>,
}

/// Commitment tree sizes after a block.
#[derive(Debug, Clone, Copy, Default, PartialEq, Eq)]
pub struct ChainMetadata {
    pub sapling_commitment_tree_size: u32,
    pub orchard_commitment_tree_size: u32,
    pub ironwood_commitment_tree_size: u32,
}

/// The commitment trees at a height.
#[derive(Debug, Clone, Default, PartialEq, Eq)]
pub struct TreeState {
    pub network: String,
    pub height: u64,
    pub hash: String,
    pub time: u32,
    pub sapling_tree: String,
    pub orchard_tree: String,
    pub ironwood_tree: String,
}

/// The root of a completed shard and the block that completed it.
#[derive(Debug, Clone, Default, PartialEq, Eq)]
pub struct SubtreeRoot {
    pub root_hash: Vec<u8>,
    pub completing_block_height: u64,
}

/// The Ironwood actions of transactions, in order.
pub open spec fn ironwood_actions(vtx: Seq<CompactTx>) -> Seq<CompactOrchardAction>
    decreases vtx.len(),
{
    if vtx.len() == 0 {
        Seq::empty()
    } else {
        ironwood_actions(vtx.drop_last()) + vtx.last().ironwood_actions@
    }
}

/// The Ironwood actions of the first transactions begin those of them all.
pub proof fn lemma_actions_prefix(vtx: Seq<CompactTx>, t: int)
    requires
        0 <= t <= vtx.len(),
    ensures
        ironwood_actions(vtx.take(t)).is_prefix_of(ironwood_actions(vtx)),
    decreases vtx.len() - t,
{
    if t == vtx.len() {
        assert(vtx.take(t) =~= vtx);
    } else {
        lemma_actions_prefix(vtx, t + 1);
        assert(vtx.take(t + 1).drop_last() =~= vtx.take(t));
        let a = ironwood_actions(vtx.take(t));
        let b = ironwood_actions(vtx.take(t + 1));
        assert(b == a + vtx[t].ironwood_actions@);
        assert(a =~= b.subrange(0, a.len() as int));
        assert(ironwood_actions(vtx).subrange(0, a.len() as int) =~= b.subrange(
            0,
            a.len() as int,
        ));
    }
}

/// How many Ironwood actions the first `t` transactions have together.
pub open spec fn actions_before(vtx: Seq<CompactTx>, t: int) -> int
    decreases t,
{
    if t <= 0 {
        0
    } else {
        actions_before(vtx, t - 1) + vtx[t - 1].ironwood_actions@.len()
    }
}

/// The Ironwood actions of transactions are the lists of all of them, one after
/// the other, whatever else a transaction holds.
pub proof fn law_actions_are_the_lists_joined(vtx: Seq<CompactTx>)
    ensures
        ironwood_actions(vtx) == vtx.map_values(
            |tx: CompactTx| tx.ironwood_actions@,
        ).flatten(),
    decreases vtx.len(),
{
    let lists = vtx.map_values(|tx: CompactTx| tx.ironwood_actions@);
    if vtx.len() > 0 {
        let less = vtx.drop_last().map_values(|tx: CompactTx| tx.ironwood_actions@);
        law_actions_are_the_lists_joined(vtx.drop_last());
        assert(lists =~= less.push(vtx.last().ironwood_actions@));
        less.lemma_flatten_push(vtx.last().ironwood_actions@);
    } else {
        assert(lists =~= Seq::empty());
    }
}

/// Action `a` of transaction `t` comes after all the actions of the transactions
/// before it, so that none is left out and none comes twice.
pub proof fn law_every_action_has_its_place(vtx: Seq<CompactTx>, t: int, a: int)
    requires
        0 <= t < vtx.len(),
        0 <= a < vtx[t].ironwood_actions@.len(),
    ensures
        ironwood_actions(vtx).len() == actions_before(vtx, vtx.len() as int),
        0 <= actions_before(vtx, t) + a < ironwood_actions(vtx).len(),
        ironwood_actions(vtx)[actions_before(vtx, t) + a] == vtx[t].ironwood_actions@[a],
{
    lemma_actions_counted(vtx, t);
    lemma_actions_counted(vtx, t + 1);
    lemma_actions_counted(vtx, vtx.len() as int);
    assert(vtx.take(vtx.len() as int) =~= vtx);
    lemma_actions_prefix(vtx, t + 1);
    assert(vtx.take(t + 1).drop_last() =~= vtx.take(t));
    let upto = ironwood_actions(vtx.take(t + 1));
    let at = actions_before(vtx, t) + a;
    assert(upto == ironwood_actions(vtx.take(t)) + vtx[t].ironwood_actions@);
    assert(upto[at] == vtx[t].ironwood_actions@[a]);
    assert(ironwood_actions(vtx).subrange(0, upto.len() as int)[at] == upto[at]);
}

/// The actions of the first transactions are as many as they have together.
pub proof fn lemma_actions_counted(vtx: Seq<CompactTx>, t: int)
    requires
        0 <= t <= vtx.len(),
    ensures
        ironwood_actions(vtx.take(t)).len() == actions_before(vtx, t),
    decreases t,
{
    if t > 0 {
        lemma_actions_counted(vtx, t - 1);
        assert(vtx.take(t).drop_last() =~= vtx.take(t - 1));
    }
}

/// Every action is one of a transaction, and lies where that one has its place.
pub proof fn law_every_action_is_of_a_transaction(vtx: Seq<CompactTx>, i: int) -> (r: (int, int))
    requires
        0 <= i < ironwood_actions(vtx).len(),
    ensures
        0 <= r.0 < vtx.len(),
        0 <= r.1 < vtx[r.0].ironwood_actions@.len(),
        i == actions_before(vtx, r.0) + r.1,
        ironwood_actions(vtx)[i] == vtx[r.0].ironwood_actions@[r.1],
    decreases vtx.len(),
{
    let less = vtx.drop_last();
    let last = vtx.len() - 1;
    lemma_actions_counted(vtx, last);
    assert(vtx.take(last) =~= less);
    if i < ironwood_actions(less).len() {
        let (t, a) = law_every_action_is_of_a_transaction(less, i);
        lemma_actions_counted(less, t);
        lemma_actions_counted(vtx, t);
        assert(less.take(t) =~= vtx.take(t));
        assert(less[t] == vtx[t]);
        (t, a)
    } else {
        (last, i - ironwood_actions(less).len())
    }
}

} // verus!
