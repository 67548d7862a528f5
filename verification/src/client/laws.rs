//! What a wallet's answers mean for the server's data.

use super::witness::BatchView;
use crate::bytes::Hash32;
use crate::nullifier::state::TableView;
use crate::nullifier::types::{Nullifier, SpendabilityMetadata};
use crate::pir::RowQuery;
use crate::protocol::{YpirScenario, ZcashNetwork};
use crate::witness::tree::TreeView;
use crate::witness::types::{BroadcastData, PirWitness};
use vstd::prelude::*;
#[allow(unused_imports)]
use super::nullifier::{entry_is, law_scan_agrees_with_table, metadata_current, row_holds};
#[allow(unused_imports)]
use super::witness::{
    all_hold, asks_for, path_verifies, rebuilt_from, rebuilt_next, row_number, shard_number,
    window_covers, witness_holds,
};
#[allow(unused_imports)]
use crate::bytes::{concat_hashes, lemma_array_exists};
#[allow(unused_imports)]
use crate::nullifier::cells::{lemma_bucket_range, vacant};
#[allow(unused_imports)]
use crate::nullifier::contents::{law_found_means_live, live_nullifiers};
#[allow(unused_imports)]
use crate::nullifier::laws::sound;
#[allow(unused_imports)]
use crate::nullifier::types::bucket_of;
#[allow(unused_imports)]
use crate::pir::{carries_rows, decodes_to, law_asked_row_comes_back, query_for};
#[allow(unused_imports)]
use crate::witness::laws::{
    in_window, law_rows_are_rebuildable, law_rows_pass_verification, law_witness_anchors_to_root,
    rebuilt, row_of, true_sibling,
};
#[allow(unused_imports)]
use crate::witness::merkle::{climbed, empty_node, node_at, padded};
#[allow(unused_imports)]
use crate::witness::reconstruct::{rebuildable, rebuilt_path, row_leaves};
#[allow(unused_imports)]
use crate::witness::tree::{
    database, describes, leaf_level, root_of, tree_wf, window_count, window_start,
};
#[allow(unused_imports)]
use crate::witness::types::{leaf_of, shard_of, subshard_of};

verus! {

/// The row that a wallet asks for holds the leaves next to its position. Of the
/// database that goes with a broadcast, 32-byte cell `t` of that row is leaf `t`
/// of the position's run of 256, or the empty leaf where the tree has none yet.
pub proof fn law_asked_row_holds_the_position(
    v: TreeView,
    broadcast: BroadcastData,
    anchor_height: u64,
    position: u64,
    t: int,
)
    requires
        tree_wf(v),
        describes(v, broadcast, anchor_height),
        broadcast.window_start_shard <= position / 65_536 < broadcast.window_start_shard
            + broadcast.window_shard_count,
        0 <= t < 256,
    ensures
        window_covers(broadcast, position),
        0 <= row_number(broadcast, position) < 4_096,
        ({
            let at = row_number(broadcast, position) * 8_192 + 32 * t;
            let leaf = (position / 256) * 256 + t;
            &&& leaf >= v.offset
            &&& database(v).len() >= at + 32
            &&& leaf < v.offset + v.leaves.len() ==> database(v).subrange(at, at + 32)
                == v.leaves[leaf - v.offset]@
            &&& leaf >= v.offset + v.leaves.len() ==> database(v).subrange(at, at + 32)
                == empty_node(0)
        }),
{
    let p = position as int;
    let start = window_start(v) as int;
    let row = row_number(broadcast, position);
    let at = row * 8_192 + 32 * t;
    let leaf = (p / 256) * 256 + t;
    assert(p / 65_536 == (p / 256) / 256);
    assert(start * 65_536 + row * 256 + t == leaf);
    assert(row < window_count(v) * 256);
    assert(window_count(v) <= 16);
    let cell = database(v).subrange(at, at + 32);
    let expected = leaf_level(v)(leaf);
    assert forall|b: int| 0 <= b < 32 implies cell[b] == expected[b] by {
        let k = at + b;
        assert(cell[b] == database(v)[k]);
        assert(k / 32 == row * 256 + t && k % 32 == b);
    }
    if leaf < v.offset + v.leaves.len() {
        assert(cell =~= v.leaves[leaf - v.offset]@);
    } else {
        crate::bytes::lemma_le_bytes_len(2, 32);
        assert(cell =~= empty_node(0));
    }
}

/// Of a row longer than the 256 leaves of a subshard, only those count.
proof fn lemma_row_head(row: Seq<u8>)
    requires
        row.len() >= 8_192,
    ensures
        row_leaves(row) == row_leaves(row.take(8_192)),
{
    let head = row.take(8_192);
    assert forall|i: int| 0 <= i < 256 implies row_leaves(row)[i] == row_leaves(head)[i] by {
        assert(row.subrange(32 * i, 32 * i + 32) =~= head.subrange(32 * i, 32 * i + 32));
    }
    assert(row_leaves(row) =~= row_leaves(head));
}

/// The row of a window's position is where the wallet asks for it.
proof fn lemma_row_is_asked(
    v: TreeView,
    broadcast: BroadcastData,
    anchor_height: u64,
    position: u64,
)
    requires
        tree_wf(v),
        describes(v, broadcast, anchor_height),
        broadcast.window_start_shard <= position / 65_536 < broadcast.window_start_shard
            + broadcast.window_shard_count,
    ensures
        in_window(v, position as int),
        shard_number(position) == shard_of(position as int),
        row_of(v, position as int) == database(v).subrange(
            row_number(broadcast, position) * 8_192,
            row_number(broadcast, position) * 8_192 + 8_192,
        ),
{
}

/// A batch whose rows come from the database goes on with every position of the
/// window: it asks for a row below 4,096 that it does not have yet, and once it
/// has the row, it rebuilds the witness, whose path is the true one and leads to
/// the root of the tree.
pub proof fn law_batch_rebuilds_from_the_database(
    v: TreeView,
    broadcast: BroadcastData,
    anchor_height: u64,
    before: BatchView,
    after: BatchView,
)
    requires
        tree_wf(v),
        describes(v, broadcast, anchor_height),
        before.witnesses.len() < before.positions.len(),
        broadcast.window_start_shard <= before.positions[before.witnesses.len() as int] / 65_536
            < broadcast.window_start_shard + broadcast.window_shard_count,
        forall|r: usize| #[trigger]
            before.rows.contains_key(r) && r < 4_096 ==> before.rows[r].len() >= 8_192
                && before.rows[r].take(8_192) == database(v).subrange(
                r * 8_192,
                r * 8_192 + 8_192,
            ),
    ensures
        asks_for(before, broadcast) matches Some(r) ==> ({
            let position = before.positions[before.witnesses.len() as int];
            let at = r * 8_192 + 32 * (position % 256);
            &&& r < 4_096
            &&& !before.rows.contains_key(r)
            &&& v.offset <= position < v.offset + v.leaves.len() ==> database(v).subrange(
                at,
                at + 32,
            ) == v.leaves[position - v.offset]@
        }),
        asks_for(before, broadcast) is None ==> ({
            let position = before.positions[before.witnesses.len() as int];
            let r = row_number(broadcast, position);
            &&& before.rows.contains_key(r as usize)
            &&& rebuildable(shard_number(position), before.rows[r as usize], broadcast)
            &&& path_verifies(position, before.rows[r as usize], broadcast)
        }),
        rebuilt_next(before, after, broadcast) ==> ({
            let position = before.positions[before.witnesses.len() as int];
            let witness = after.witnesses[before.witnesses.len() as int];
            &&& witness.position == position
            &&& witness.anchor_height == anchor_height
            &&& witness.anchor_root@ == root_of(v)
            &&& forall|l: int|
                0 <= l < 32 ==> (#[trigger] witness.siblings@[l])@ == true_sibling(
                    v,
                    position as int,
                    l as nat,
                )
        }),
{
    let n = before.witnesses.len() as int;
    let position = before.positions[n];
    law_asked_row_holds_the_position(
        v,
        broadcast,
        anchor_height,
        position,
        position as int % 256,
    );
    let r = row_number(broadcast, position) as usize;
    if before.rows.contains_key(r) {
        lemma_row_serves(v, broadcast, anchor_height, position, before.rows[r]);
    }
    if rebuilt_next(before, after, broadcast) {
        assert(witness_holds(after, broadcast, n));
        lemma_rebuilt_is_true(
            v,
            broadcast,
            anchor_height,
            position,
            before.rows[r],
            after.witnesses[n],
        );
    }
}

proof fn lemma_row_serves(
    v: TreeView,
    broadcast: BroadcastData,
    anchor_height: u64,
    position: u64,
    row: Seq<u8>,
)
    requires
        tree_wf(v),
        describes(v, broadcast, anchor_height),
        broadcast.window_start_shard <= position / 65_536 < broadcast.window_start_shard
            + broadcast.window_shard_count,
        row.len() >= 8_192,
        row.take(8_192) == database(v).subrange(
            row_number(broadcast, position) * 8_192,
            row_number(broadcast, position) * 8_192 + 8_192,
        ),
    ensures
        rebuildable(shard_number(position), row, broadcast),
        path_verifies(position, row, broadcast),
{
    lemma_row_is_asked(v, broadcast, anchor_height, position);
    lemma_row_head(row);
    law_rows_are_rebuildable(v, broadcast, anchor_height, position as int);
    law_rows_pass_verification(v, broadcast, anchor_height, position as int);
    let shard = shard_number(position);
    let sub = subshard_of(position as int) as u8;
    let leaf = leaf_of(position as int) as u8;
    assert(rebuilt_path(shard, sub, leaf, row, broadcast) =~= rebuilt_path(
        shard,
        sub,
        leaf,
        row.take(8_192),
        broadcast,
    ));
}

proof fn lemma_rebuilt_is_true(
    v: TreeView,
    broadcast: BroadcastData,
    anchor_height: u64,
    position: u64,
    row: Seq<u8>,
    witness: PirWitness,
)
    requires
        tree_wf(v),
        describes(v, broadcast, anchor_height),
        broadcast.window_start_shard <= position / 65_536 < broadcast.window_start_shard
            + broadcast.window_shard_count,
        row.len() >= 8_192,
        row.take(8_192) == database(v).subrange(
            row_number(broadcast, position) * 8_192,
            row_number(broadcast, position) * 8_192 + 8_192,
        ),
        rebuilt_from(witness, position, row, broadcast),
    ensures
        witness.position == position,
        witness.anchor_height == anchor_height,
        witness.anchor_root@ == root_of(v),
        forall|l: int|
            0 <= l < 32 ==> (#[trigger] witness.siblings@[l])@ == true_sibling(
                v,
                position as int,
                l as nat,
            ),
{
    lemma_row_is_asked(v, broadcast, anchor_height, position);
    lemma_row_head(row);
    assert(rebuilt(v, broadcast, position as int, witness));
    law_witness_anchors_to_root(v, broadcast, anchor_height, position as int, witness);
}

/// Once a batch over rows of the database is done, witness `i` holds the true
/// path of position `i` of the window, up to the root of the tree.
pub proof fn law_finished_batch_holds_true_paths(
    v: TreeView,
    broadcast: BroadcastData,
    anchor_height: u64,
    done: BatchView,
    i: int,
)
    requires
        tree_wf(v),
        describes(v, broadcast, anchor_height),
        all_hold(done, broadcast),
        0 <= i < done.witnesses.len(),
        broadcast.window_start_shard <= done.positions[i] / 65_536 < broadcast.window_start_shard
            + broadcast.window_shard_count,
        forall|r: usize| #[trigger]
            done.rows.contains_key(r) && r < 4_096 ==> done.rows[r].len() >= 8_192
                && done.rows[r].take(8_192) == database(v).subrange(r * 8_192, r * 8_192 + 8_192),
    ensures
        done.witnesses[i].position == done.positions[i],
        done.witnesses[i].anchor_height == anchor_height,
        done.witnesses[i].anchor_root@ == root_of(v),
        forall|l: int|
            0 <= l < 32 ==> (#[trigger] done.witnesses[i].siblings@[l])@ == true_sibling(
                v,
                done.positions[i] as int,
                l as nat,
            ),
{
    assert(witness_holds(done, broadcast, i));
    law_asked_row_holds_the_position(v, broadcast, anchor_height, done.positions[i], 0);
    lemma_rebuilt_is_true(
        v,
        broadcast,
        anchor_height,
        done.positions[i],
        done.rows[row_number(broadcast, done.positions[i]) as usize],
        done.witnesses[i],
    );
}

/// A nullifier is reported spent exactly when the table behind the server's
/// database holds it in one of its cells, wherever YPIR carries rows.
pub proof fn law_spent_means_in_the_table(
    scenario: YpirScenario,
    v: TableView,
    nf: Nullifier,
    query: RowQuery,
    response: &[u8],
    decoded: Vec<u8>,
    spent: bool,
)
    requires
        sound(v),
        nf != vacant(),
        query_for(scenario, bucket_of(nf) as usize, query),
        decodes_to(scenario, query.seed, response, decoded),
        spent == row_holds(decoded@, nf),
        decoded@.len() == 3_584,
        carries_rows(scenario, query, response, decoded, concat_hashes(v.cells), 3_584),
    ensures
        spent <==> v.cells.contains(nf),
        spent <==> exists|h: u64, i: int|
            v.blocks.contains_key(h) && 0 <= i < live_nullifiers(v)[h].len()
                && #[trigger] live_nullifiers(v)[h][i] == nf,
{
    lemma_bucket_range(nf);
    law_asked_row_comes_back(
        scenario,
        bucket_of(nf) as usize,
        query,
        response,
        decoded,
        concat_hashes(v.cells),
        3_584,
    );
    assert(decoded@.take(3_584) =~= decoded@);
    law_scan_agrees_with_table(v.cells, nf);
    law_found_means_live(v, nf);
}

/// A row that a wallet decodes for the position of a window begins with the
/// position's run of 256 leaves, wherever YPIR carries rows.
pub proof fn law_decoded_row_is_the_positions(
    scenario: YpirScenario,
    v: TreeView,
    broadcast: BroadcastData,
    anchor_height: u64,
    position: u64,
    query: RowQuery,
    response: &[u8],
    decoded: Vec<u8>,
)
    requires
        tree_wf(v),
        describes(v, broadcast, anchor_height),
        broadcast.window_start_shard <= position / 65_536 < broadcast.window_start_shard
            + broadcast.window_shard_count,
        query_for(scenario, row_number(broadcast, position) as usize, query),
        decodes_to(scenario, query.seed, response, decoded),
        carries_rows(scenario, query, response, decoded, database(v), 8_192),
    ensures
        decoded@.take(8_192) == row_of(v, position as int),
{
    law_asked_row_holds_the_position(v, broadcast, anchor_height, position, 0);
    lemma_row_is_asked(v, broadcast, anchor_height, position);
    law_asked_row_comes_back(
        scenario,
        row_number(broadcast, position) as usize,
        query,
        response,
        decoded,
        database(v),
        8_192,
    );
}

/// A window covers exactly the positions of its shards.
pub proof fn law_window_covers_its_shards(broadcast: BroadcastData, position: u64)
    requires
        broadcast.window_start_shard + broadcast.window_shard_count <= u32::MAX,
    ensures
        window_covers(broadcast, position) <==> broadcast.window_start_shard <= position / 65_536
            < broadcast.window_start_shard + broadcast.window_shard_count,
{
}

/// Whatever a server sends, a witness that is rebuilt verifies: its path leads
/// from the cell of its position, in the row that was supplied, to the root over
/// the server's shard roots.
pub proof fn law_rebuilt_witness_verifies(
    witness: PirWitness,
    position: u64,
    row: Seq<u8>,
    broadcast: BroadcastData,
)
    requires
        row.len() >= 8_192,
        rebuilt_from(witness, position, row, broadcast),
    ensures
        witness.position == position,
        witness.anchor_height == broadcast.anchor_height,
        climbed(
            position as int,
            row.subrange(32 * (position as int % 256), 32 * (position as int % 256) + 32),
            witness.siblings@.map_values(|node: Hash32| node@),
            32,
        ) == witness.anchor_root@,
        broadcast.cap.shard_roots@.len() <= 65_536 ==> witness.anchor_root@ == node_at(
            padded(broadcast.cap.shard_roots@, 16),
            16,
            16,
            0,
        ),
{
    let cell = row.subrange(32 * (position as int % 256), 32 * (position as int % 256) + 32);
    lemma_array_exists(cell);
}

/// Entry `k` of a row is a nullifier exactly when the row is long enough and has
/// the nullifier's bytes there, within the 112 entries of a bucket.
pub proof fn law_entry_is_the_whole_nullifier(row: Seq<u8>, nf: Nullifier, k: int)
    ensures
        entry_is(row, nf, k) <==> 0 <= k < 112 && 32 * k + 32 <= row.len() && forall|b: int|
            0 <= b < 32 ==> row[32 * k + b] == #[trigger] nf@[b],
        entry_is(row, nf, k) ==> row_holds(row, nf),
        row_holds(row, nf) ==> exists|j: int| #[trigger] entry_is(row, nf, j),
{
    if 0 <= k < 112 && 32 * k + 32 <= row.len() {
        let entry = row.subrange(32 * k, 32 * k + 32);
        if forall|b: int| 0 <= b < 32 ==> row[32 * k + b] == #[trigger] nf@[b] {
            assert(entry =~= nf@);
        }
        if entry == nf@ {
            assert forall|b: int| 0 <= b < 32 implies row[32 * k + b] == #[trigger] nf@[b] by {
                assert(entry[b] == row[32 * k + b]);
            }
        }
    }
}

/// A wallet takes a server's metadata exactly when it names the Ironwood pool, the
/// current version and the wallet's own network.
pub proof fn law_metadata_is_current(metadata: SpendabilityMetadata, network: ZcashNetwork)
    ensures
        metadata_current(metadata, network) <==> metadata.nullifier_pool@ == "ironwood"@
            && metadata.dataset_version == 2 && metadata.zcash_network == network,
{
}

} // verus!
