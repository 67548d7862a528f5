//! Witness reconstruction from a PIR-decoded subshard row and broadcast data.
//!
//! The authentication path for a leaf at depth 32 has three tiers of siblings:
//!
//! 1. Levels 0..7 (within subshard): computed from the 256 leaves in the
//!    decoded PIR row using Sinsemilla hashing.
//! 2. Levels 8..15 (within shard): computed from the 256 subshard roots
//!    in `broadcast.subshard_roots[shard]`.
//! 3. Levels 16..31 (cap tree): computed from the shard roots in
//!    `broadcast.cap.shard_roots`, padded with empty roots.

use super::merkle::{
    all_canonical, compute_root_from_path, empty_root, extract_siblings, is_canonical, subtree_root,
};
use super::types::{BroadcastData, FrontierUpdate, PirWitness};
use crate::bytes::{hash_at, hash_eq, Hash32};
use crate::client::error::WitnessClientError;
use crate::text::{around_number, decimal};
use vstd::prelude::*;
#[allow(unused_imports)]
use super::merkle::{
    bytes_of, canonical, canonical_all, climbed, empty_node, lemma_twos_width, lemma_width_values,
    lemma_zero_canonical, node_at, padded, sibling, twos, up, width,
};
#[allow(unused_imports)]
use super::types::leaf_of;
#[allow(unused_imports)]
use crate::bytes::{array_of, lemma_array_of, lemma_hash_ext};
#[allow(unused_imports)]
use crate::text::decimal_text;

verus! {

/// The leaves that a row holds.
pub open spec fn row_leaves(row: Seq<u8>) -> Seq<Hash32> {
    Seq::new(256, |i: int| array_of(row.subrange(32 * i, 32 * i + 32)))
}

/// The text of the error for a row of `len` bytes.
pub open spec fn short_row_text(len: nat) -> Seq<char> {
    "decoded row too short: "@ + decimal_text(len) + " bytes, expected >= 8192"@
}

/// Parse the decoded PIR row bytes into 256 leaf hashes (32 bytes each).
pub fn parse_subshard_leaves(decoded_row: &[u8]) -> (r: Result<[Hash32; 256], WitnessClientError>)
    ensures
        r is Ok <==> decoded_row@.len() >= 8_192,
        r is Ok ==> r->Ok_0@ == row_leaves(decoded_row@),
        r is Err ==> (r->Err_0 matches WitnessClientError::QueryFailed(reason) && reason@
            == short_row_text(decoded_row@.len())),
{
    let size: usize = decoded_row.len();
    if size < 8_192 {
        return Err(
            WitnessClientError::QueryFailed(
                around_number("decoded row too short: ", size as u64, " bytes, expected >= 8192"),
            ),
        );
    }
    let mut leaves: [Hash32; 256] = [[0u8;32];256];
    let mut i: usize = 0;
    while i < 256
        invariant
            i <= 256,
            8_192 <= size == decoded_row@.len(),
            forall|k: int| 0 <= k < i ==> #[trigger] leaves@[k] == row_leaves(decoded_row@)[k],
        decreases 256 - i,
    {
        let leaf = hash_at(decoded_row, 32 * i);
        proof {
            lemma_array_of(leaf, decoded_row@.subrange(32 * i, 32 * i + 32));
        }
        leaves[i] = leaf;
        i += 1;
    }
    assert(leaves@ =~= row_leaves(decoded_row@));
    Ok(leaves)
}

/// The shard roots that take part: no more than a cap has room for.
pub open spec fn cap_roots(broadcast: BroadcastData) -> Seq<Hash32> {
    let roots = broadcast.cap.shard_roots@;
    if roots.len() <= 65_536 {
        roots
    } else {
        roots.take(65_536)
    }
}

/// The subshard roots of a shard in the window.
pub open spec fn shard_subroots(broadcast: BroadcastData, shard_idx: u32) -> Seq<Hash32> {
    broadcast.subshard_roots@[shard_idx - broadcast.window_start_shard].roots@
}

/// Whether a row and a broadcast hold what a reconstruction reads: the shard
/// is in the window, its subshard roots form levels, and every hash that takes
/// part is canonical.
pub open spec fn rebuildable(shard_idx: u32, row: Seq<u8>, broadcast: BroadcastData) -> bool {
    let offset = shard_idx - broadcast.window_start_shard;
    &&& 0 <= offset < broadcast.subshard_roots@.len()
    &&& 0 < shard_subroots(broadcast, shard_idx).len()
    &&& twos(shard_subroots(broadcast, shard_idx).len()) <= 24
    &&& canonical_all(row_leaves(row))
    &&& canonical_all(shard_subroots(broadcast, shard_idx))
    &&& canonical_all(cap_roots(broadcast))
}

/// The sibling at level `l` of the path that a row and a broadcast give.
pub open spec fn path_sibling(
    shard_idx: u32,
    subshard_idx: u8,
    leaf_idx: u8,
    row: Seq<u8>,
    broadcast: BroadcastData,
    l: nat,
) -> Seq<u8> {
    let subroots = shard_subroots(broadcast, shard_idx);
    if l < 8 {
        node_at(padded(row_leaves(row), 0), 0, l, sibling(up(leaf_idx as int, l)))
    } else if l < 16 {
        if l < 8 + twos(subroots.len()) {
            node_at(
                padded(subroots, 8),
                8,
                (l - 8) as nat,
                sibling(up(subshard_idx as int, (l - 8) as nat)),
            )
        } else {
            Seq::new(32, |i: int| 0u8)
        }
    } else {
        node_at(
            padded(cap_roots(broadcast), 16),
            16,
            (l - 16) as nat,
            sibling(up(shard_idx as int, (l - 16) as nat)),
        )
    }
}

/// The path that a row and a broadcast give.
pub open spec fn rebuilt_path(
    shard_idx: u32,
    subshard_idx: u8,
    leaf_idx: u8,
    row: Seq<u8>,
    broadcast: BroadcastData,
) -> Seq<Seq<u8>> {
    Seq::new(
        32,
        |l: int| path_sibling(shard_idx, subshard_idx, leaf_idx, row, broadcast, l as nat),
    )
}

/// The root that a leaf of a row and the rebuilt path give.
pub open spec fn path_root(
    position: int,
    shard_idx: u32,
    subshard_idx: u8,
    leaf_idx: u8,
    row: Seq<u8>,
    broadcast: BroadcastData,
) -> Seq<u8> {
    climbed(
        position,
        row_leaves(row)[leaf_idx as int]@,
        rebuilt_path(shard_idx, subshard_idx, leaf_idx, row, broadcast),
        32,
    )
}

/// The anchor root of a broadcast: the root over its shard roots, with empty
/// shards after them.
pub open spec fn cap_root(broadcast: BroadcastData) -> Seq<u8> {
    node_at(padded(cap_roots(broadcast), 16), 16, 16, 0)
}

/// Whether `rebuildable` holds.
pub fn can_rebuild(shard_idx: u32, decoded_row: &[u8], broadcast: &BroadcastData) -> (r: bool)
    requires
        decoded_row@.len() >= 8_192,
    ensures
        r == rebuildable(shard_idx, decoded_row@, *broadcast),
{
    if shard_idx < broadcast.window_start_shard {
        return false;
    }
    let offset: usize = (shard_idx - broadcast.window_start_shard) as usize;
    if offset >= broadcast.subshard_roots.len() {
        return false;
    }
    let subroots = &broadcast.subshard_roots[offset].roots;
    assert(subroots@ == shard_subroots(*broadcast, shard_idx));
    if subroots.len() == 0 {
        return false;
    }
    let mut n: usize = subroots.len();
    let mut count: u64 = 0;
    while n % 2 == 0
        invariant
            n > 0,
            count + twos(n as nat) == twos(subroots@.len()),
            count + n <= usize::MAX,
        decreases n,
    {
        n = n / 2;
        count = count + 1;
    }
    assert(twos(n as nat) == 0);
    if count > 24 {
        return false;
    }
    let leaves = match parse_subshard_leaves(decoded_row) {
        Ok(leaves) => leaves,
        Err(_) => return false,
    };
    if !all_canonical(leaves.as_slice()) || !all_canonical(subroots.as_slice()) {
        return false;
    }
    let roots = &broadcast.cap.shard_roots;
    let take: usize = if roots.len() <= 65_536 {
        roots.len()
    } else {
        65_536
    };
    let part = vstd::slice::slice_subrange(roots.as_slice(), 0, take);
    assert(part@ =~= cap_roots(*broadcast));
    all_canonical(part)
}

/// Reconstruct a full `PirWitness` from the decoded PIR row and broadcast data.
///
/// Self-verifies by computing the tree root from the leaf and checking it
/// against the broadcast anchor root (derived from cap shard roots).
pub fn reconstruct_witness(
    position: u64,
    shard_idx: u32,
    subshard_idx: u8,
    leaf_idx: u8,
    decoded_row: &[u8],
    broadcast: &BroadcastData,
) -> (r: Result<PirWitness, WitnessClientError>)
    requires
        decoded_row@.len() >= 8_192 ==> rebuildable(shard_idx, decoded_row@, *broadcast),
    ensures
        decoded_row@.len() < 8_192 ==> (r matches Err(WitnessClientError::QueryFailed(reason))
            && reason@ == short_row_text(decoded_row@.len())),
        decoded_row@.len() >= 8_192 ==> (r is Ok <==> path_root(
            position as int,
            shard_idx,
            subshard_idx,
            leaf_idx,
            decoded_row@,
            *broadcast,
        ) == cap_root(*broadcast)),
        decoded_row@.len() >= 8_192 && r is Err ==> r == Err::<PirWitness, _>(
            WitnessClientError::VerificationFailed(position),
        ),
        r matches Ok(witness) ==> {
            &&& witness.anchor_root@ == cap_root(*broadcast)
            &&& witness.position == position
            &&& witness.anchor_height == broadcast.anchor_height
            &&& forall|l: int|
                0 <= l < 32 ==> (#[trigger] witness.siblings@[l])@ == path_sibling(
                    shard_idx,
                    subshard_idx,
                    leaf_idx,
                    decoded_row@,
                    *broadcast,
                    l as nat,
                )
            &&& witness.anchor_root@ == climbed(
                position as int,
                row_leaves(decoded_row@)[leaf_idx as int]@,
                bytes_of(witness.siblings@),
                32,
            )
        },
{
    let mut siblings: [Hash32; 32] = [[0u8;32];32];
    let ghost zeros = siblings@;
    let leaves = match parse_subshard_leaves(decoded_row) {
        Ok(leaves) => leaves,
        Err(error) => return Err(error),
    };
    proof {
        lemma_width_values();
        lemma_twos_width(8);
        lemma_twos_width(16);
    }
    extract_siblings(leaves.as_slice(), leaf_idx as usize, 0, &mut siblings);
    let ghost first = siblings@;

    let offset: usize = (shard_idx - broadcast.window_start_shard) as usize;
    let subroots = &broadcast.subshard_roots[offset].roots;
    assert(subroots@ == shard_subroots(*broadcast, shard_idx));
    extract_siblings(subroots.as_slice(), subshard_idx as usize, 8, &mut siblings);
    let ghost second = siblings@;

    proof {
        let roots = broadcast.cap.shard_roots@;
        assert forall|i: int| 0 <= i < roots.len() && i < 65_536 implies canonical(
            (#[trigger] roots[i])@,
        ) by {
            assert(cap_roots(*broadcast)[i] == roots[i]);
        }
    }
    let cap = pad_cap(&broadcast.cap.shard_roots);
    assert(cap@.len() == width(16));
    extract_siblings(cap.as_slice(), shard_idx as usize, 16, &mut siblings);

    proof {
        let f = padded(cap@, 16);
        let g = padded(cap_roots(*broadcast), 16);
        assert(f =~= g) by {
            assert forall|i: int| #[trigger] f(i) == g(i) by {
                if 0 <= i < cap@.len() {
                    assert(cap@[i]@ == g(i));
                }
            }
        }
        assert forall|l: int| 0 <= l < 32 implies (#[trigger] siblings@[l])@ == path_sibling(
            shard_idx,
            subshard_idx,
            leaf_idx,
            decoded_row@,
            *broadcast,
            l as nat,
        ) && canonical(siblings@[l]@) by {
            if l < 16 {
                assert(siblings@[l] == second[l]);
                if l < 8 {
                    assert(second[l] == first[l]);
                } else if l >= 8 + twos(subroots@.len()) {
                    assert(second[l] == first[l]);
                    assert(first[l] == zeros[l]);
                    assert(zeros[l]@ =~= Seq::new(32, |i: int| 0u8));
                    lemma_zero_canonical(zeros[l]@);
                }
            }
        }
        assert(canonical(leaves@[leaf_idx as int]@));
    }
    let leaf = leaves[leaf_idx as usize];
    let anchor_root = compute_root_from_path(position, &leaf, &siblings);
    let expected = subtree_root(cap, 16, 16);
    proof {
        assert(bytes_of(siblings@) =~= rebuilt_path(
            shard_idx,
            subshard_idx,
            leaf_idx,
            decoded_row@,
            *broadcast,
        ));
        lemma_hash_ext(anchor_root, expected);
    }
    if !hash_eq(&anchor_root, &expected) {
        return Err(WitnessClientError::VerificationFailed(position));
    }
    Ok(PirWitness { position, siblings, anchor_height: broadcast.anchor_height, anchor_root })
}

/// The shard roots, cut or padded with empty shards to a full cap.
fn pad_cap(roots: &Vec<Hash32>) -> (cap: Vec<Hash32>)
    requires
        forall|i: int| 0 <= i < roots@.len() && i < 65_536 ==> canonical((#[trigger] roots@[i])@),
    ensures
        cap@.len() == 65_536,
        canonical_all(cap@),
        forall|i: int|
            0 <= i < 65_536 ==> (#[trigger] cap@[i])@ == (if i < roots@.len() {
                roots@[i]@
            } else {
                empty_node(16)
            }),
{
    let empty = empty_root(16);
    let mut cap: Vec<Hash32> = Vec::with_capacity(65_536);
    let mut i: usize = 0;
    while i < 65_536
        invariant
            i <= 65_536,
            cap@.len() == i,
            empty@ == empty_node(16),
            canonical(empty@),
            forall|k: int|
                0 <= k < roots@.len() && k < 65_536 ==> canonical((#[trigger] roots@[k])@),
            canonical_all(cap@),
            forall|k: int|
                0 <= k < i ==> (#[trigger] cap@[k])@ == (if k < roots@.len() {
                    roots@[k]@
                } else {
                    empty_node(16)
                }),
        decreases 65_536 - i,
    {
        if i < roots.len() {
            assert(canonical(roots@[i as int]@));
            cap.push(roots[i]);
        } else {
            cap.push(empty);
        }
        i += 1;
    }
    cap
}

/// The sibling at level `l` once a witness follows the right edge of a
/// frontier: the edge's own node, an empty node beyond it, else as before.
pub open spec fn edge_sibling(witness: PirWitness, frontier: FrontierUpdate, l: nat) -> Seq<u8> {
    let other = sibling(up(witness.position as int, l));
    let edge = up(frontier.tree_size - 1, l);
    if other == edge {
        frontier.rightmost_nodes@[l as int]@
    } else if other > edge {
        empty_node(l)
    } else {
        witness.siblings@[l as int]@
    }
}

/// The siblings of an advanced witness. Within the subshard, leaves that are
/// given decide.
pub open spec fn advanced_siblings(
    witness: PirWitness,
    frontier: FrontierUpdate,
    leaves: Option<Seq<Hash32>>,
) -> Seq<Seq<u8>> {
    Seq::new(
        32,
        |l: int|
            match leaves {
                Some(given) if l < 8 => node_at(
                    padded(given, 0),
                    0,
                    l as nat,
                    sibling(up(leaf_of(witness.position as int), l as nat)),
                ),
                _ => edge_sibling(witness, frontier, l as nat),
            },
    )
}

/// The root that an advanced witness gives.
pub open spec fn advanced_root(
    witness: PirWitness,
    leaf: Hash32,
    frontier: FrontierUpdate,
    leaves: Option<Seq<Hash32>>,
) -> Seq<u8> {
    climbed(witness.position as int, leaf@, advanced_siblings(witness, frontier, leaves), 32)
}

/// Whether the witnessed position lies in the tree of the frontier.
pub open spec fn position_inside(witness: PirWitness, frontier: FrontierUpdate) -> bool {
    witness.position < frontier.tree_size
}

/// Whether the given leaves, if any, hold the witnessed commitment.
pub open spec fn leaves_hold(
    witness: PirWitness,
    leaf: Hash32,
    leaves: Option<Seq<Hash32>>,
) -> bool {
    leaves matches Some(given) ==> given[leaf_of(witness.position as int)] == leaf
}

/// Whether an update gets as far as hashing.
pub open spec fn update_applies(
    witness: PirWitness,
    leaf: Hash32,
    frontier: FrontierUpdate,
    leaves: Option<Seq<Hash32>>,
) -> bool {
    &&& position_inside(witness, frontier)
    &&& witness.anchor_height < frontier.height
    &&& leaves_hold(witness, leaf, leaves)
}

/// The array of leaves as a sequence.
pub open spec fn leaves_view(leaves: Option<&[Hash32; 256]>) -> Option<Seq<Hash32>> {
    match leaves {
        Some(given) => Some(given@),
        None => None,
    }
}

/// Whether every hash that an update would hash is canonical.
pub open spec fn update_hashable(
    witness: PirWitness,
    leaf: Hash32,
    frontier: FrontierUpdate,
    leaves: Option<Seq<Hash32>>,
) -> bool {
    &&& canonical(leaf@)
    &&& leaves matches Some(given) ==> canonical_all(given)
    &&& forall|l: int|
        (if leaves is Some {
            8int
        } else {
            0int
        }) <= l < 32 ==> canonical(#[trigger] edge_sibling(witness, frontier, l as nat))
}

/// The siblings of `witness` once it follows the right edge of `frontier`.
fn follow_edge(witness: &PirWitness, frontier: &FrontierUpdate) -> (siblings: [Hash32; 32])
    requires
        position_inside(*witness, *frontier),
    ensures
        forall|l: int|
            0 <= l < 32 ==> (#[trigger] siblings@[l])@ == edge_sibling(
                *witness,
                *frontier,
                l as nat,
            ),
{
    let mut siblings: [Hash32; 32] = witness.siblings;
    let mut pos: u64 = witness.position;
    let mut edge: u64 = frontier.tree_size - 1;
    let mut level: u8 = 0;
    while level < 32
        invariant
            level <= 32,
            pos == up(witness.position as int, level as nat),
            edge == up(frontier.tree_size - 1, level as nat),
            forall|l: int|
                0 <= l < level ==> (#[trigger] siblings@[l])@ == edge_sibling(
                    *witness,
                    *frontier,
                    l as nat,
                ),
            forall|l: int| level <= l < 32 ==> #[trigger] siblings@[l] == witness.siblings@[l],
        decreases 32 - level,
    {
        let other: u64 = if pos % 2 == 0 {
            pos + 1
        } else {
            pos - 1
        };
        let ghost before = siblings@;
        if other == edge {
            siblings[level as usize] = frontier.rightmost_nodes[level as usize];
            assert(siblings@ =~= before.update(
                level as int,
                frontier.rightmost_nodes@[level as int],
            ));
        } else if other > edge {
            let empty = empty_root(level);
            siblings[level as usize] = empty;
            assert(siblings@ =~= before.update(level as int, empty));
        }
        pos = pos / 2;
        edge = edge / 2;
        level = level + 1;
    }
    siblings
}

/// Advance a witness with public frontier data.
///
/// `leaf` is the witnessed note commitment. `subshard_leaves` is only needed
/// while that note's 256-leaf subshard is still being populated. The update is
/// committed only after its path reconstructs the advertised root; callers
/// should fetch a fresh PIR witness when `FrontierUpdateIncomplete` is returned.
pub fn update_witness(
    witness: &mut PirWitness,
    leaf: &Hash32,
    frontier: &FrontierUpdate,
    subshard_leaves: Option<&[Hash32; 256]>,
) -> (r: Result<Hash32, WitnessClientError>)
    requires
        update_applies(*old(witness), *leaf, *frontier, leaves_view(subshard_leaves))
            ==> update_hashable(*old(witness), *leaf, *frontier, leaves_view(subshard_leaves)),
    ensures
        r is Ok <==> update_applies(*old(witness), *leaf, *frontier, leaves_view(subshard_leaves))
            && advanced_root(*old(witness), *leaf, *frontier, leaves_view(subshard_leaves))
            == frontier.root@,
        r is Err ==> *final(witness) == *old(witness),
        r matches Ok(root) ==> {
            &&& root == frontier.root
            &&& final(witness).position == old(witness).position
            &&& final(witness).anchor_height == frontier.height
            &&& final(witness).anchor_root == frontier.root
            &&& bytes_of(final(witness).siblings@) == advanced_siblings(
                *old(witness),
                *frontier,
                leaves_view(subshard_leaves),
            )
        },
        !position_inside(*old(witness), *frontier) ==> (r matches Err(
            WitnessClientError::InvalidFrontierUpdate(reason),
        ) && reason@ == "position "@ + decimal_text(old(witness).position as nat)
            + " is outside tree size "@ + decimal_text(frontier.tree_size as nat)),
        position_inside(*old(witness), *frontier) && frontier.height <= old(witness).anchor_height
            ==> (r matches Err(WitnessClientError::InvalidFrontierUpdate(reason)) && reason@ == "height "@
            + decimal_text(frontier.height as nat) + " does not advance witness height "@
            + decimal_text(old(witness).anchor_height as nat)),
        position_inside(*old(witness), *frontier) && frontier.height > old(witness).anchor_height
            && !leaves_hold(*old(witness), *leaf, leaves_view(subshard_leaves)) ==> (r matches Err(
            WitnessClientError::InvalidFrontierUpdate(reason),
        ) && reason@ == "subshard leaves do not contain the witnessed commitment"@),
        update_applies(*old(witness), *leaf, *frontier, leaves_view(subshard_leaves)) && r is Err
            ==> r == Err::<Hash32, _>(WitnessClientError::FrontierUpdateIncomplete(frontier.height)),
{
    if frontier.tree_size == 0 || witness.position >= frontier.tree_size {
        let mut reason = around_number("position ", witness.position, " is outside tree size ");
        reason.append(decimal(frontier.tree_size).as_str());
        return Err(WitnessClientError::InvalidFrontierUpdate(reason));
    }
    if frontier.height <= witness.anchor_height {
        let mut reason = around_number(
            "height ",
            frontier.height,
            " does not advance witness height ",
        );
        reason.append(decimal(witness.anchor_height).as_str());
        return Err(WitnessClientError::InvalidFrontierUpdate(reason));
    }
    let ghost given = leaves_view(subshard_leaves);
    let mut siblings = follow_edge(witness, frontier);
    let ghost edges = siblings@;
    if let Some(leaves) = subshard_leaves {
        let at: usize = witness.leaf_index() as usize;
        if !hash_eq(&leaves[at], leaf) {
            return Err(
                WitnessClientError::InvalidFrontierUpdate(
                    "subshard leaves do not contain the witnessed commitment".to_owned(),
                ),
            );
        }
        proof {
            lemma_width_values();
            lemma_twos_width(8);
        }
        extract_siblings(leaves.as_slice(), at, 0, &mut siblings);
    }
    proof {
        assert forall|l: int| 0 <= l < 32 implies (#[trigger] siblings@[l])@ == advanced_siblings(
            *witness,
            *frontier,
            given,
        )[l] && canonical(siblings@[l]@) by {
            if given is Some && l < 8 {
            } else {
                assert(siblings@[l] == edges[l]);
                assert(canonical(edge_sibling(*witness, *frontier, l as nat)));
            }
        }
        assert(bytes_of(siblings@) =~= advanced_siblings(*witness, *frontier, given));
    }
    let root = compute_root_from_path(witness.position, leaf, &siblings);
    proof {
        lemma_hash_ext(root, frontier.root);
    }
    if !hash_eq(&root, &frontier.root) {
        return Err(WitnessClientError::FrontierUpdateIncomplete(frontier.height));
    }
    witness.siblings = siblings;
    witness.anchor_height = frontier.height;
    witness.anchor_root = root;
    Ok(root)
}

/// Whether `update_hashable` holds, for an update that applies.
pub fn can_update(
    witness: &PirWitness,
    leaf: &Hash32,
    frontier: &FrontierUpdate,
    subshard_leaves: Option<&[Hash32; 256]>,
) -> (r: bool)
    requires
        position_inside(*witness, *frontier),
    ensures
        r == update_hashable(*witness, *leaf, *frontier, leaves_view(subshard_leaves)),
{
    if !is_canonical(leaf) {
        return false;
    }
    let mut level: usize = 0;
    if let Some(leaves) = subshard_leaves {
        if !all_canonical(leaves.as_slice()) {
            return false;
        }
        level = 8;
    }
    let siblings = follow_edge(witness, frontier);
    let ghost from = level as int;
    while level < 32
        invariant
            from <= level <= 32,
            forall|l: int|
                0 <= l < 32 ==> (#[trigger] siblings@[l])@ == edge_sibling(
                    *witness,
                    *frontier,
                    l as nat,
                ),
            forall|l: int|
                from <= l < level ==> canonical(
                    #[trigger] edge_sibling(*witness, *frontier, l as nat),
                ),
            from == (if subshard_leaves is Some {
                8int
            } else {
                0int
            }),
        decreases 32 - level,
    {
        if !is_canonical(&siblings[level]) {
            assert(siblings@[level as int]@ == edge_sibling(*witness, *frontier, level as nat));
            return false;
        }
        assert(siblings@[level as int]@ == edge_sibling(*witness, *frontier, level as nat));
        level += 1;
    }
    true
}

} // verus!
