//! Strict Ironwood note-commitment extraction from compact blocks.

use super::proto::CompactBlock;
use crate::bytes::{exact_32, Hash32};
use crate::text::{around_number, decimal};
use crate::witness::merkle::is_canonical;
use vstd::prelude::*;
#[allow(unused_imports)]
use super::proto::{
    actions_before, ironwood_actions, law_actions_are_the_lists_joined,
    law_every_action_has_its_place, law_every_action_is_of_a_transaction, lemma_actions_counted,
    lemma_actions_prefix, CompactOrchardAction, CompactTx,
};
#[allow(unused_imports)]
use crate::text::decimal_text;
#[allow(unused_imports)]
use crate::witness::merkle::{canonical, canonical_all};

verus! {

/// Why a block's commitments were refused.
#[derive(Debug, PartialEq, Eq)]
pub enum ParseError {
    InvalidField { height: u64, field: &'static str, actual: usize, expected: usize },
    NonCanonicalCommitment { height: u64 },
    MissingTreeSize { height: u64 },
    InvalidTreeSize { height: u64, tree_size: u32, commitments: usize },
}

impl ParseError {
    /// The text shown to a person.
    pub open spec fn text(&self) -> Seq<char> {
        match self {
            ParseError::InvalidField { height, field, actual, expected } => "Ironwood "@ + field@
                + " at height "@ + decimal_text(*height as nat) + " has "@ + decimal_text(
                *actual as nat,
            ) + " bytes; expected "@ + decimal_text(*expected as nat),
            ParseError::NonCanonicalCommitment { height } => "Ironwood commitment at height "@
                + decimal_text(*height as nat) + " is not canonically encoded"@,
            ParseError::MissingTreeSize { height } => "compact block at height "@ + decimal_text(
                *height as nat,
            ) + " omitted Ironwood tree-size metadata"@,
            ParseError::InvalidTreeSize { height, tree_size, commitments } => {
                "Ironwood tree size "@ + decimal_text(*tree_size as nat) + " at height "@
                    + decimal_text(*height as nat) + " is smaller than its "@ + decimal_text(
                    *commitments as nat,
                ) + " commitments"@
            },
        }
    }

    /// The text shown to a person.
    pub fn message(&self) -> (s: String)
        ensures
            s@ == self.text(),
    {
        match self {
            ParseError::InvalidField { height, field, actual, expected } => {
                let mut s = "Ironwood ".to_owned();
                s.append(field);
                s.append(" at height ");
                s.append(decimal(*height).as_str());
                s.append(" has ");
                s.append(decimal(*actual as u64).as_str());
                s.append(" bytes; expected ");
                s.append(decimal(*expected as u64).as_str());
                s
            },
            ParseError::NonCanonicalCommitment { height } => around_number(
                "Ironwood commitment at height ",
                *height,
                " is not canonically encoded",
            ),
            ParseError::MissingTreeSize { height } => around_number(
                "compact block at height ",
                *height,
                " omitted Ironwood tree-size metadata",
            ),
            ParseError::InvalidTreeSize { height, tree_size, commitments } => {
                let mut s = around_number("Ironwood tree size ", *tree_size as u64, " at height ");
                s.append(decimal(*height).as_str());
                s.append(" is smaller than its ");
                s.append(decimal(*commitments as u64).as_str());
                s.append(" commitments");
                s
            },
        }
    }
}

/// Whether the commitments of all of `actions` are canonical encodings.
pub open spec fn commitments_valid(actions: Seq<CompactOrchardAction>) -> bool {
    forall|i: int| 0 <= i < actions.len() ==> canonical((#[trigger] actions[i]).cmx@)
}

/// Whether `i` is the first of `actions` whose commitment is not a canonical encoding.
pub open spec fn first_bad_commitment(actions: Seq<CompactOrchardAction>, i: int) -> bool {
    &&& 0 <= i < actions.len()
    &&& !canonical(actions[i].cmx@)
    &&& commitments_valid(actions.take(i))
}

/// The error for a commitment that is not a canonical encoding.
pub open spec fn commitment_error(height: u64, cmx: Seq<u8>, error: ParseError) -> bool {
    if cmx.len() == 32 {
        error == ParseError::NonCanonicalCommitment { height }
    } else {
        error matches ParseError::InvalidField { height: h, field, actual, expected } && h == height
            && field@ == "commitment"@ && actual == cmx.len() && expected == 32
    }
}

/// The commitment in an action's field.
fn commitment(height: u64, cmx: &Vec<u8>) -> (r: Result<Hash32, ParseError>)
    ensures
        r is Ok <==> canonical(cmx@),
        r matches Ok(hash) ==> hash@ == cmx@,
        r matches Err(error) ==> commitment_error(height, cmx@, error),
{
    match exact_32(cmx.as_slice()) {
        Some(hash) => if is_canonical(&hash) {
            Ok(hash)
        } else {
            Err(ParseError::NonCanonicalCommitment { height })
        },
        None => Err(
            ParseError::InvalidField {
                height,
                field: "commitment",
                actual: cmx.len(),
                expected: 32,
            },
        ),
    }
}

/// Whether commitments are taken from transactions: one from every Ironwood
/// action of every transaction, in order.
pub open spec fn commitments_of(commitments: Seq<Hash32>, vtx: Seq<CompactTx>) -> bool {
    &&& commitments.len() == actions_before(vtx, vtx.len() as int)
    &&& forall|t: int, a: int|
        0 <= t < vtx.len() && 0 <= a < vtx[t].ironwood_actions@.len()
            ==> commitments[actions_before(vtx, t) + a]@ == (
        #[trigger] vtx[t].ironwood_actions@[a]).cmx@
}

/// The commitments extracted from transactions are those of every Ironwood
/// action of every transaction, whatever else the transactions hold.
pub proof fn law_no_commitment_is_lost(vtx: Seq<CompactTx>, commitments: Seq<Hash32>)
    requires
        commitments.len() == ironwood_actions(vtx).len(),
        forall|i: int|
            0 <= i < commitments.len() ==> (#[trigger] commitments[i])@ == ironwood_actions(
                vtx,
            )[i].cmx@,
    ensures
        commitments_of(commitments, vtx),
        commitments.map_values(|cmx: Hash32| cmx@) == vtx.map_values(
            |tx: CompactTx| tx.ironwood_actions@,
        ).flatten().map_values(|action: CompactOrchardAction| action.cmx@),
{
    lemma_actions_counted(vtx, vtx.len() as int);
    assert(vtx.take(vtx.len() as int) =~= vtx);
    assert forall|t: int, a: int|
        0 <= t < vtx.len() && 0 <= a
            < vtx[t].ironwood_actions@.len() implies commitments[actions_before(vtx, t) + a]@ == (
    #[trigger] vtx[t].ironwood_actions@[a]).cmx@ by {
        law_every_action_has_its_place(vtx, t, a);
    }
    law_actions_are_the_lists_joined(vtx);
    assert(commitments.map_values(|cmx: Hash32| cmx@) =~= ironwood_actions(vtx).map_values(
        |action: CompactOrchardAction| action.cmx@,
    ));
}

/// The commitments of a block's Ironwood actions, in order.
pub fn extract_commitments(block: &CompactBlock) -> (r: Result<Vec<Hash32>, ParseError>)
    ensures
        r is Ok <==> commitments_valid(ironwood_actions(block.vtx@)),
        r matches Ok(commitments) ==> {
            &&& canonical_all(commitments@)
            &&& commitments@.len() == ironwood_actions(block.vtx@).len()
            &&& forall|i: int|
                0 <= i < commitments@.len() ==> (#[trigger] commitments@[i])@ == ironwood_actions(
                    block.vtx@,
                )[i].cmx@
            &&& commitments_of(commitments@, block.vtx@)
        },
        r is Ok <==> forall|t: int, a: int|
            0 <= t < block.vtx@.len() && 0 <= a < block.vtx@[t].ironwood_actions@.len()
                ==> canonical((#[trigger] block.vtx@[t].ironwood_actions@[a]).cmx@),
        r matches Err(error) ==> exists|i: int| #[trigger]
            first_bad_commitment(ironwood_actions(block.vtx@), i) && commitment_error(
                block.height,
                ironwood_actions(block.vtx@)[i].cmx@,
                error,
            ),
{
    let mut out: Vec<Hash32> = Vec::new();
    let mut t: usize = 0;
    let ghost all = ironwood_actions(block.vtx@);
    assert(block.vtx@.take(0) =~= Seq::empty());
    while t < block.vtx.len()
        invariant
            t <= block.vtx@.len(),
            all == ironwood_actions(block.vtx@),
            out@.len() == ironwood_actions(block.vtx@.take(t as int)).len(),
            out@.len() <= all.len(),
            forall|i: int| 0 <= i < out@.len() ==> canonical((#[trigger] all[i]).cmx@),
            forall|i: int| 0 <= i < out@.len() ==> (#[trigger] out@[i])@ == all[i].cmx@,
        decreases block.vtx@.len() - t,
    {
        let actions = &block.vtx[t].ironwood_actions;
        let ghost before = ironwood_actions(block.vtx@.take(t as int));
        proof {
            assert(block.vtx@.take(t + 1).drop_last() =~= block.vtx@.take(t as int));
            assert(ironwood_actions(block.vtx@.take(t + 1)) == before + actions@);
            lemma_actions_prefix(block.vtx@, t + 1);
        }
        let mut a: usize = 0;
        while a < actions.len()
            invariant
                a <= actions@.len(),
                actions@ == block.vtx@[t as int].ironwood_actions@,
                all == ironwood_actions(block.vtx@),
                (before + actions@).is_prefix_of(all),
                out@.len() == before.len() + a,
                forall|i: int| 0 <= i < out@.len() ==> canonical((#[trigger] all[i]).cmx@),
                forall|i: int| 0 <= i < out@.len() ==> (#[trigger] out@[i])@ == all[i].cmx@,
            decreases actions@.len() - a,
        {
            let ghost at = before.len() + a;
            assert((before + actions@)[at] == actions@[a as int]);
            assert(all[at] == (before + actions@)[at]);
            match commitment(block.height, &actions[a].cmx) {
                Ok(hash) => {
                    out.push(hash);
                },
                Err(error) => {
                    proof {
                        assert forall|i: int| 0 <= i < at implies canonical(
                            (#[trigger] all.take(at)[i]).cmx@,
                        ) by {
                            assert(out@[i]@ == all[i].cmx@);
                        }
                        assert(first_bad_commitment(all, at));
                        let (s, b) = law_every_action_is_of_a_transaction(block.vtx@, at);
                        assert(!canonical(block.vtx@[s].ironwood_actions@[b].cmx@));
                    }
                    return Err(error);
                },
            }
            a += 1;
        }
        t += 1;
    }
    proof {
        assert(block.vtx@.take(t as int) =~= block.vtx@);
        assert forall|i: int| 0 <= i < all.len() implies canonical((#[trigger] all[i]).cmx@) by {
            assert(out@[i]@ == all[i].cmx@);
        }
        law_no_commitment_is_lost(block.vtx@, out@);
        assert forall|s: int, b: int|
            0 <= s < block.vtx@.len() && 0 <= b
                < block.vtx@[s].ironwood_actions@.len() implies canonical(
            (#[trigger] block.vtx@[s].ironwood_actions@[b]).cmx@,
        ) by {
            law_every_action_has_its_place(block.vtx@, s, b);
        }
    }
    Ok(out)
}

/// The size of the Ironwood tree before a block with `commitments` commitments.
pub fn ironwood_prior_tree_size(block: &CompactBlock, commitments: usize) -> (r: Result<
    u32,
    ParseError,
>)
    ensures
        match block.chain_metadata {
            None => r == Err::<u32, _>(ParseError::MissingTreeSize { height: block.height }),
            Some(metadata) => {
                let size = metadata.ironwood_commitment_tree_size;
                if prior_fits(size, commitments) {
                    r matches Ok(prior) && prior == (if commitments <= u32::MAX {
                        size - commitments
                    } else {
                        0
                    })
                } else {
                    r == Err::<u32, _>(
                        ParseError::InvalidTreeSize {
                            height: block.height,
                            tree_size: size,
                            commitments,
                        },
                    )
                }
            },
        },
{
    let tree_size: u32 = match &block.chain_metadata {
        Some(metadata) => metadata.ironwood_commitment_tree_size,
        None => return Err(ParseError::MissingTreeSize { height: block.height }),
    };
    let count: u32 = if commitments as u64 <= u32::MAX as u64 {
        commitments as u32
    } else {
        u32::MAX
    };
    match tree_size.checked_sub(count) {
        Some(prior) => Ok(prior),
        None => Err(
            ParseError::InvalidTreeSize { height: block.height, tree_size, commitments },
        ),
    }
}

/// Whether a tree of `size` leaves can end with `commitments`, of which no
/// more are counted than a tree size can tell.
pub open spec fn prior_fits(size: u32, commitments: usize) -> bool {
    if commitments <= u32::MAX {
        commitments <= size
    } else {
        size == u32::MAX
    }
}

} // verus!
