//! Ironwood activation, nullifiers and tree states.

use super::proto::{CompactBlock, TreeState};
use crate::bytes::{exact_32, Hash32};
use crate::protocol::ZcashNetwork;
use crate::text::{around_number, decimal, join, quoted, same_text};
use vstd::prelude::*;
#[allow(unused_imports)]
use super::proto::{
    actions_before, ironwood_actions, law_actions_are_the_lists_joined,
    law_every_action_has_its_place,
    law_every_action_is_of_a_transaction, lemma_actions_counted, lemma_actions_prefix,
    CompactOrchardAction, CompactTx,
};
#[allow(unused_imports)]
use crate::protocol::network_name;
#[allow(unused_imports)]
use crate::text::{debug_text, decimal_text};

verus! {

/// The height at which Ironwood activates on the main network.
pub const NU6_3_MAINNET_ACTIVATION_HEIGHT: u64 = 3_428_143;

/// The height at which Ironwood activates on the test network.
pub const NU6_3_TESTNET_ACTIVATION_HEIGHT: u64 = 4_134_000;

/// The height at which Ironwood activates.
pub open spec fn activation_height(network: ZcashNetwork) -> u64 {
    match network {
        ZcashNetwork::Main => 3_428_143,
        ZcashNetwork::Test => 4_134_000,
    }
}

/// The height at which Ironwood activates.
pub fn nu6_3_activation_height(network: ZcashNetwork) -> (height: u64)
    ensures
        height == activation_height(network),
{
    match network {
        ZcashNetwork::Main => NU6_3_MAINNET_ACTIVATION_HEIGHT,
        ZcashNetwork::Test => NU6_3_TESTNET_ACTIVATION_HEIGHT,
    }
}

/// Why Ironwood data was refused.
#[derive(Debug, PartialEq, Eq)]
pub enum IronwoodError {
    InvalidNullifier { height: u64, actual: usize },
    WrongNetwork { actual: String, expected: ZcashNetwork },
    WrongHeight { actual: u64, expected: u64 },
    MissingTree { height: u64 },
}

impl IronwoodError {
    /// The text shown to a person.
    pub open spec fn text(&self) -> Seq<char> {
        match self {
            IronwoodError::InvalidNullifier { height, actual } => "Ironwood nullifier at height "@
                + decimal_text(*height as nat) + " has "@ + decimal_text(*actual as nat)
                + " bytes; expected 32"@,
            IronwoodError::WrongNetwork { actual, expected } => "lightwalletd returned network "@
                + debug_text(actual@) + "; expected "@ + network_name(*expected),
            IronwoodError::WrongHeight { actual, expected } => {
                "lightwalletd returned tree state height "@ + decimal_text(*actual as nat)
                    + "; expected "@ + decimal_text(*expected as nat)
            },
            IronwoodError::MissingTree { height } => {
                "lightwalletd omitted the Ironwood tree at height "@ + decimal_text(*height as nat)
            },
        }
    }

    /// The text shown to a person.
    pub fn message(&self) -> (s: String)
        ensures
            s@ == self.text(),
    {
        match self {
            IronwoodError::InvalidNullifier { height, actual } => {
                let mut s = around_number("Ironwood nullifier at height ", *height, " has ");
                s.append(decimal(*actual as u64).as_str());
                s.append(" bytes; expected 32");
                s
            },
            IronwoodError::WrongNetwork { actual, expected } => {
                let mut s = join("lightwalletd returned network ", quoted(actual.as_str()).as_str());
                s.append("; expected ");
                s.append(expected.as_str());
                s
            },
            IronwoodError::WrongHeight { actual, expected } => {
                let mut s = around_number(
                    "lightwalletd returned tree state height ",
                    *actual,
                    "; expected ",
                );
                s.append(decimal(*expected).as_str());
                s
            },
            IronwoodError::MissingTree { height } => join(
                "lightwalletd omitted the Ironwood tree at height ",
                decimal(*height).as_str(),
            ),
        }
    }
}

/// Why an endpoint is not one to sync from. A failed call is kept in words.
#[derive(Debug)]
pub enum EndpointError {
    Client(String),
    Invalid(IronwoodError),
}

impl EndpointError {
    /// The text shown to a person.
    pub open spec fn text(&self) -> Seq<char> {
        match self {
            EndpointError::Client(reason) => reason@,
            EndpointError::Invalid(error) => error.text(),
        }
    }

    /// The text shown to a person.
    pub fn message(&self) -> (s: String)
        ensures
            s@ == self.text(),
    {
        match self {
            EndpointError::Client(reason) => reason.clone(),
            EndpointError::Invalid(error) => error.message(),
        }
    }
}

/// Whether the nullifiers of all of `actions` have 32 bytes.
pub open spec fn nullifiers_valid(actions: Seq<CompactOrchardAction>) -> bool {
    forall|i: int| 0 <= i < actions.len() ==> (#[trigger] actions[i]).nullifier@.len() == 32
}

/// Whether `i` is the first of `actions` whose nullifier does not have 32 bytes.
pub open spec fn first_bad_nullifier(actions: Seq<CompactOrchardAction>, i: int) -> bool {
    &&& 0 <= i < actions.len()
    &&& actions[i].nullifier@.len() != 32
    &&& nullifiers_valid(actions.take(i))
}

/// Whether nullifiers are taken from transactions: one from every Ironwood
/// action of every transaction, in order.
pub open spec fn nullifiers_of(nullifiers: Seq<Hash32>, vtx: Seq<CompactTx>) -> bool {
    &&& nullifiers.len() == actions_before(vtx, vtx.len() as int)
    &&& forall|t: int, a: int|
        0 <= t < vtx.len() && 0 <= a < vtx[t].ironwood_actions@.len() ==> nullifiers[actions_before(
            vtx,
            t,
        ) + a]@ == (#[trigger] vtx[t].ironwood_actions@[a]).nullifier@
}

/// The nullifiers extracted from transactions are those of every Ironwood action
/// of every transaction, whatever else the transactions hold.
pub proof fn law_no_nullifier_is_lost(vtx: Seq<CompactTx>, nullifiers: Seq<Hash32>)
    requires
        nullifiers.len() == ironwood_actions(vtx).len(),
        forall|i: int|
            0 <= i < nullifiers.len() ==> (#[trigger] nullifiers[i])@ == ironwood_actions(
                vtx,
            )[i].nullifier@,
    ensures
        nullifiers_of(nullifiers, vtx),
        nullifiers.map_values(|nf: Hash32| nf@) == vtx.map_values(
            |tx: CompactTx| tx.ironwood_actions@,
        ).flatten().map_values(|action: CompactOrchardAction| action.nullifier@),
{
    lemma_actions_counted(vtx, vtx.len() as int);
    assert(vtx.take(vtx.len() as int) =~= vtx);
    assert forall|t: int, a: int|
        0 <= t < vtx.len() && 0 <= a < vtx[t].ironwood_actions@.len() implies nullifiers[actions_before(
        vtx,
        t,
    ) + a]@ == (#[trigger] vtx[t].ironwood_actions@[a]).nullifier@ && 0 <= actions_before(vtx, t)
        + a < nullifiers.len() by {
        law_every_action_has_its_place(vtx, t, a);
    }
    law_actions_are_the_lists_joined(vtx);
    assert(nullifiers.map_values(|nf: Hash32| nf@) =~= ironwood_actions(vtx).map_values(
        |action: CompactOrchardAction| action.nullifier@,
    ));
}

/// The nullifiers of a block's Ironwood actions, in order.
pub fn extract_ironwood_nullifiers(block: &CompactBlock) -> (r: Result<Vec<Hash32>, IronwoodError>)
    ensures
        r is Ok <==> nullifiers_valid(ironwood_actions(block.vtx@)),
        r matches Ok(nullifiers) ==> {
            &&& nullifiers@.len() == ironwood_actions(block.vtx@).len()
            &&& forall|i: int|
                0 <= i < nullifiers@.len() ==> (#[trigger] nullifiers@[i])@ == ironwood_actions(
                    block.vtx@,
                )[i].nullifier@
            &&& nullifiers_of(nullifiers@, block.vtx@)
        },
        r is Ok <==> forall|t: int, a: int|
            0 <= t < block.vtx@.len() && 0 <= a < block.vtx@[t].ironwood_actions@.len() ==> (
            #[trigger] block.vtx@[t].ironwood_actions@[a]).nullifier@.len() == 32,
        r matches Err(error) ==> exists|i: int| #[trigger]
            first_bad_nullifier(ironwood_actions(block.vtx@), i) && error
                == (IronwoodError::InvalidNullifier {
                height: block.height,
                actual: ironwood_actions(block.vtx@)[i].nullifier@.len() as usize,
            }),
{
    let mut out: Vec<Hash32> = Vec::new();
    let mut t: usize = 0;
    let ghost all = ironwood_actions(block.vtx@);
    assert(block.vtx@.take(0) =~= Seq::empty());
    while t < block.vtx.len()
        invariant
            t <= block.vtx@.len(),
            all == ironwood_actions(block.vtx@),
            out@.len() == ironwood_actions(block.vtx@.take(t as int)).len(),
            out@.len() <= all.len(),
            forall|i: int| 0 <= i < out@.len() ==> (#[trigger] all[i]).nullifier@.len() == 32,
            forall|i: int| 0 <= i < out@.len() ==> (#[trigger] out@[i])@ == all[i].nullifier@,
        decreases block.vtx@.len() - t,
    {
        let actions = &block.vtx[t].ironwood_actions;
        let ghost before = ironwood_actions(block.vtx@.take(t as int));
        proof {
            assert(block.vtx@.take(t + 1).drop_last() =~= block.vtx@.take(t as int));
            assert(ironwood_actions(block.vtx@.take(t + 1)) == before + actions@);
            lemma_actions_prefix(block.vtx@, t + 1);
        }
        let mut a: usize = 0;
        while a < actions.len()
            invariant
                a <= actions@.len(),
                actions@ == block.vtx@[t as int].ironwood_actions@,
                all == ironwood_actions(block.vtx@),
                (before + actions@).is_prefix_of(all),
                out@.len() == before.len() + a,
                forall|i: int| 0 <= i < out@.len() ==> (#[trigger] all[i]).nullifier@.len() == 32,
            forall|i: int| 0 <= i < out@.len() ==> (#[trigger] out@[i])@ == all[i].nullifier@,
            decreases actions@.len() - a,
        {
            let bytes = &actions[a].nullifier;
            let ghost at = before.len() + a;
            assert((before + actions@)[at] == actions@[a as int]);
            assert(all[at] == (before + actions@)[at]);
            match exact_32(bytes.as_slice()) {
                Some(nullifier) => {
                    out.push(nullifier);
                },
                None => {
                    proof {
                        assert forall|i: int| 0 <= i < at implies (
                        #[trigger] all.take(at)[i]).nullifier@.len() == 32 by {
                            assert(out@[i]@ == all[i].nullifier@);
                        }
                        assert(first_bad_nullifier(all, at));
                        let (s, b) = law_every_action_is_of_a_transaction(block.vtx@, at);
                        assert(block.vtx@[s].ironwood_actions@[b].nullifier@.len() != 32);
                    }
                    return Err(
                        IronwoodError::InvalidNullifier {
                            height: block.height,
                            actual: bytes.len(),
                        },
                    );
                },
            }
            a += 1;
        }
        t += 1;
    }
    proof {
        assert(block.vtx@.take(t as int) =~= block.vtx@);
        assert forall|i: int| 0 <= i < all.len() implies (#[trigger] all[i]).nullifier@.len()
            == 32 by {
            assert(out@[i]@ == all[i].nullifier@);
        }
        law_no_nullifier_is_lost(block.vtx@, out@);
        assert forall|s: int, b: int|
            0 <= s < block.vtx@.len() && 0 <= b < block.vtx@[s].ironwood_actions@.len() implies (
        #[trigger] block.vtx@[s].ironwood_actions@[b]).nullifier@.len() == 32 by {
            law_every_action_has_its_place(block.vtx@, s, b);
        }
    }
    Ok(out)
}

/// Checks that a tree state is that of the network and height asked for, and
/// has an Ironwood tree.
pub fn validate_ironwood_tree_state(
    expected_network: ZcashNetwork,
    expected_height: u64,
    state: &TreeState,
) -> (r: Result<(), IronwoodError>)
    ensures
        state.network@ != network_name(expected_network) ==> (r matches Err(
            IronwoodError::WrongNetwork { actual, expected },
        ) && actual@ == state.network@ && expected == expected_network),
        state.network@ == network_name(expected_network) && state.height != expected_height ==> r
            == Err::<(), _>(
            IronwoodError::WrongHeight { actual: state.height, expected: expected_height },
        ),
        state.network@ == network_name(expected_network) && state.height == expected_height
            && state.ironwood_tree@.len() == 0 ==> r == Err::<(), _>(
            IronwoodError::MissingTree { height: expected_height },
        ),
        r is Ok <==> state.network@ == network_name(expected_network) && state.height
            == expected_height && state.ironwood_tree@.len() > 0,
{
    if !same_text(state.network.as_str(), expected_network.as_str()) {
        return Err(
            IronwoodError::WrongNetwork {
                actual: state.network.clone(),
                expected: expected_network,
            },
        );
    }
    if state.height != expected_height {
        return Err(
            IronwoodError::WrongHeight { actual: state.height, expected: expected_height },
        );
    }
    if same_text(state.ironwood_tree.as_str(), "") {
        proof {
            reveal_strlit("");
        }
        return Err(IronwoodError::MissingTree { height: expected_height });
    }
    proof {
        reveal_strlit("");
        if state.ironwood_tree@.len() == 0 {
            assert(state.ironwood_tree@ =~= ""@);
        }
    }
    Ok(())
}

} // verus!
