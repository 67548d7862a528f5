//! Fetching note commitment witnesses.

use super::error::WitnessClientError;
use crate::bytes::Hash32;
use crate::pir::{decode_row, query_row, RowQuery};
use crate::protocol::{YpirScenario, ZcashNetwork, DATASET_VERSION, IRONWOOD_POOL};
use crate::text::same_text;
use crate::witness::reconstruct::{can_rebuild, reconstruct_witness};
use crate::witness::types::{
    decompose_position, physical_row_index, BroadcastData, PirWitness,
};
use vstd::prelude::*;
#[allow(unused_imports)]
use crate::pir::{
    decoded_len, decodes_to, is_witness_geometry, query_for, query_len, response_len,
};
#[allow(unused_imports)]
use crate::witness::merkle::{bytes_of, climbed};
#[allow(unused_imports)]
use crate::witness::reconstruct::{
    cap_root, path_root, path_sibling, rebuildable, row_leaves, short_row_text,
};
#[allow(unused_imports)]
use crate::witness::types::{leaf_of, shard_of, subshard_of};

verus! {

/// Checks that a server serves the Ironwood witness dataset of a network.
pub fn validate_dataset(
    network: ZcashNetwork,
    pool: &str,
    version: u32,
    expected_network: ZcashNetwork,
) -> (r: Result<(), WitnessClientError>)
    ensures
        r is Ok <==> network == expected_network && pool@ == IRONWOOD_POOL@ && version == 2,
        r matches Err(error) ==> (error matches WitnessClientError::InvalidParams(reason) && reason@
            == "server is not the expected Ironwood witness dataset"@),
{
    if network != expected_network || !same_text(pool, IRONWOOD_POOL) || version
        != DATASET_VERSION {
        return Err(
            WitnessClientError::InvalidParams(
                "server is not the expected Ironwood witness dataset".to_owned(),
            ),
        );
    }
    Ok(())
}

/// Checks that a database has the geometry of the witness database.
pub fn validate_scenario(scenario: &YpirScenario) -> (r: Result<(), WitnessClientError>)
    ensures
        r is Ok <==> is_witness_geometry(*scenario),
        r matches Err(error) ==> (error matches WitnessClientError::InvalidParams(reason) && reason@
            == "unexpected Ironwood witness PIR geometry"@),
{
    if scenario.num_items != 4_096 || scenario.item_size_bits != 65_536 || scenario.poly_len
        != 4_096 {
        return Err(
            WitnessClientError::InvalidParams(
                "unexpected Ironwood witness PIR geometry".to_owned(),
            ),
        );
    }
    Ok(())
}

/// A wallet's view of a witness server. Requests are carried by the caller.
pub struct WitnessClient {
    scenario: YpirScenario,
    broadcast: BroadcastData,
}

impl WitnessClient {
    /// The server's database has the geometry of the witness database.
    pub closed spec fn wf(&self) -> bool {
        is_witness_geometry(self.scenario)
    }

    /// The geometry that the server told.
    pub closed spec fn scenario_view(&self) -> YpirScenario {
        self.scenario
    }

    /// The broadcast that the server sent.
    pub closed spec fn broadcast_view(&self) -> BroadcastData {
        self.broadcast
    }

    /// A view of the server that told `scenario` and sent `broadcast`.
    pub fn connect(scenario: YpirScenario, broadcast: BroadcastData) -> (r: Result<
        Self,
        WitnessClientError,
    >)
        ensures
            r is Ok <==> is_witness_geometry(scenario),
            r matches Ok(client) ==> client.wf() && client.scenario_view() == scenario
                && client.broadcast_view() == broadcast,
            r matches Err(error) ==> (error matches WitnessClientError::InvalidParams(reason)
                && reason@ == "unexpected Ironwood witness PIR geometry"@),
    {
        match validate_scenario(&scenario) {
            Ok(()) => Ok(WitnessClient { scenario, broadcast }),
            Err(error) => Err(error),
        }
    }

    /// The query for a row.
    pub fn query(&self, row: usize) -> (query: RowQuery)
        requires
            self.wf(),
            row < 4_096,
        ensures
            query.bytes@.len() == query_len(self.scenario_view()),
            query_for(self.scenario_view(), row, query),
    {
        query_row(&self.scenario, row)
    }

    /// Whether a response has the length of one.
    pub fn accepts(&self, response: &[u8]) -> (r: bool)
        requires
            self.wf(),
        ensures
            r == (response@.len() == response_len(self.scenario_view())),
    {
        response.len() == 49_152
    }

    /// The row that a response carries.
    pub fn decode(&self, seed: &Hash32, response: &[u8]) -> (row: Vec<u8>)
        requires
            self.wf(),
            response@.len() == response_len(self.scenario_view()),
        ensures
            row@.len() == decoded_len(self.scenario_view()),
            row@.len() >= 8_192,
            decodes_to(self.scenario_view(), *seed, response, row),
    {
        decode_row(&self.scenario, seed, response)
    }

    /// Takes in a newer broadcast.
    pub fn refresh_broadcast(&mut self, broadcast: BroadcastData)
        requires
            old(self).wf(),
        ensures
            final(self).wf(),
            final(self).scenario_view() == old(self).scenario_view(),
            final(self).broadcast_view() == broadcast,
    {
        self.broadcast = broadcast;
    }

    pub fn anchor_height(&self) -> (height: u64)
        ensures
            height == self.broadcast_view().anchor_height,
    {
        self.broadcast.anchor_height
    }

    pub fn broadcast(&self) -> (broadcast: &BroadcastData)
        ensures
            *broadcast == self.broadcast_view(),
    {
        &self.broadcast
    }
}

/// A row of the database, decoded.
pub struct CachedRow {
    pub row: usize,
    pub bytes: Vec<u8>,
}

/// What comes next in a batch of witnesses.
#[derive(Debug, Clone, Copy, PartialEq, Eq, Structural)]
pub enum Step {
    /// This row has to be queried.
    Query(usize),
    /// A witness was rebuilt.
    Rebuilt,
    /// Every position has its witness.
    Done,
    /// The server's data does not form a tree at the current position.
    Malformed,
}

/// Witnesses for several positions, each row queried only once.
pub struct WitnessBatch {
    positions: Vec<u64>,
    rows: Vec<CachedRow>,
    witnesses: Vec<PirWitness>,
}

/// A batch as mathematics sees it.
#[verifier::ext_equal]
pub struct BatchView {
    pub positions: Seq<u64>,
    pub rows: Map<usize, Seq<u8>>,
    pub witnesses: Seq<PirWitness>,
}

/// The rows of a cache by number; where a number occurs twice, the last counts.
pub open spec fn rows_map(rows: Seq<CachedRow>) -> Map<usize, Seq<u8>>
    decreases rows.len(),
{
    if rows.len() == 0 {
        Map::empty()
    } else {
        rows_map(rows.drop_last()).insert(rows.last().row, rows.last().bytes@)
    }
}

impl View for WitnessBatch {
    type V = BatchView;

    closed spec fn view(&self) -> BatchView {
        BatchView {
            positions: self.positions@,
            rows: rows_map(self.rows@),
            witnesses: self.witnesses@,
        }
    }
}

/// The shard of a position, as far as shards have 32-bit numbers.
pub open spec fn shard_number(position: u64) -> u32 {
    if shard_of(position as int) <= u32::MAX {
        shard_of(position as int) as u32
    } else {
        u32::MAX
    }
}

/// Whether a position's shard is in the window of a broadcast.
pub open spec fn window_covers(broadcast: BroadcastData, position: u64) -> bool {
    broadcast.window_start_shard <= shard_number(position) < broadcast.window_start_shard
        + broadcast.window_shard_count
}

/// The row of a position in the database behind a broadcast.
pub open spec fn row_number(broadcast: BroadcastData, position: u64) -> int {
    (shard_number(position) - broadcast.window_start_shard) * 256 + subshard_of(position as int)
}

/// Whether a witness is the one rebuilt for a position from a row and a broadcast.
pub open spec fn rebuilt_from(
    witness: PirWitness,
    position: u64,
    row: Seq<u8>,
    broadcast: BroadcastData,
) -> bool {
    let shard = shard_number(position);
    let sub = subshard_of(position as int) as u8;
    let leaf = leaf_of(position as int) as u8;
    &&& witness.position == position
    &&& witness.anchor_height == broadcast.anchor_height
    &&& forall|l: int|
        0 <= l < 32 ==> (#[trigger] witness.siblings@[l])@ == path_sibling(
            shard,
            sub,
            leaf,
            row,
            broadcast,
            l as nat,
        )
    &&& witness.anchor_root@ == climbed(
        position as int,
        row_leaves(row)[leaf as int]@,
        bytes_of(witness.siblings@),
        32,
    )
    &&& witness.anchor_root@ == cap_root(broadcast)
}

/// Whether the path rebuilt for a position leads to the broadcast's anchor root.
pub open spec fn path_verifies(position: u64, row: Seq<u8>, broadcast: BroadcastData) -> bool {
    path_root(
        position as int,
        shard_number(position),
        subshard_of(position as int) as u8,
        leaf_of(position as int) as u8,
        row,
        broadcast,
    ) == cap_root(broadcast)
}

/// Whether witness `i` of a batch is the one rebuilt for its position, from
/// the row that was supplied for it.
pub open spec fn witness_holds(v: BatchView, broadcast: BroadcastData, i: int) -> bool {
    let row = row_number(broadcast, v.positions[i]);
    &&& window_covers(broadcast, v.positions[i])
    &&& row < 4_096
    &&& v.rows.contains_key(row as usize)
    &&& rebuilt_from(v.witnesses[i], v.positions[i], v.rows[row as usize], broadcast)
}

/// Whether every witness of a batch so far holds.
pub open spec fn all_hold(v: BatchView, broadcast: BroadcastData) -> bool {
    &&& v.witnesses.len() <= v.positions.len()
    &&& forall|i: int|
        0 <= i < v.witnesses.len() ==> #[trigger] witness_holds(v, broadcast, i)
}

/// Whether a batch went from `v` to `w` by rebuilding the next witness.
pub open spec fn rebuilt_next(v: BatchView, w: BatchView, broadcast: BroadcastData) -> bool {
    let n = v.witnesses.len() as int;
    &&& n < v.positions.len()
    &&& w.positions == v.positions
    &&& w.rows == v.rows
    &&& w.witnesses.len() == n + 1
    &&& w.witnesses.take(n) == v.witnesses
    &&& witness_holds(w, broadcast, n)
}

/// The batch once a row has been supplied.
pub open spec fn supplied(v: BatchView, row: usize, bytes: Seq<u8>) -> BatchView {
    BatchView { rows: v.rows.insert(row, bytes), ..v }
}

/// Whether a batch went from `v` to `w` by supplying the row that it asked for.
pub open spec fn supplied_next(v: BatchView, w: BatchView, broadcast: BroadcastData) -> bool {
    asks_for(v, broadcast) matches Some(row) && exists|bytes: Seq<u8>|
        w == #[trigger] supplied(v, row, bytes)
}

impl WitnessBatch {
    /// No more witnesses than positions.
    pub open spec fn wf(&self) -> bool {
        self@.witnesses.len() <= self@.positions.len()
    }

    /// A batch for `positions`. A window that no shard number can close is refused.
    pub fn begin(broadcast: &BroadcastData, positions: Vec<u64>) -> (r: Result<
        Self,
        WitnessClientError,
    >)
        ensures
            r is Ok <==> broadcast.window_start_shard + broadcast.window_shard_count <= u32::MAX,
            r matches Ok(batch) ==> batch.wf() && batch@ == (BatchView {
                positions: positions@,
                rows: Map::empty(),
                witnesses: Seq::empty(),
            }),
            r matches Err(error) ==> (error matches WitnessClientError::InvalidParams(reason)
                && reason@ == "invalid PIR window"@),
    {
        match broadcast.window_start_shard.checked_add(broadcast.window_shard_count) {
            Some(_) => Ok(
                WitnessBatch { positions, rows: Vec::new(), witnesses: Vec::new() },
            ),
            None => Err(WitnessClientError::InvalidParams("invalid PIR window".to_owned())),
        }
    }

    /// Where a row is cached.
    fn find_row(&self, row: usize) -> (r: Option<usize>)
        ensures
            r is Some <==> self@.rows.contains_key(row),
            r matches Some(i) ==> i < self.rows@.len() && self.rows@[i as int].bytes@
                == self@.rows[row],
    {
        let mut i: usize = self.rows.len();
        assert(self.rows@.take(i as int) =~= self.rows@);
        while i > 0
            invariant
                i <= self.rows@.len(),
                rows_map(self.rows@).contains_key(row) == rows_map(
                    self.rows@.take(i as int),
                ).contains_key(row),
                rows_map(self.rows@).contains_key(row) ==> rows_map(self.rows@)[row] == rows_map(
                    self.rows@.take(i as int),
                )[row],
            decreases i,
        {
            proof {
                assert(self.rows@.take(i as int).drop_last() =~= self.rows@.take(i - 1));
                assert(self.rows@.take(i as int).last() == self.rows@[i - 1]);
            }
            i -= 1;
            if self.rows[i].row == row {
                return Some(i);
            }
        }
        None
    }

    /// Goes on with the next position: rebuilds its witness where its row is
    /// at hand, else says which row to query.
    pub fn step(&mut self, broadcast: &BroadcastData) -> (r: Result<Step, WitnessClientError>)
        requires
            old(self).wf(),
            broadcast.window_start_shard + broadcast.window_shard_count <= u32::MAX,
        ensures
            final(self).wf(),
            final(self)@.positions == old(self)@.positions,
            final(self)@.rows == old(self)@.rows,
            asks_for(old(self)@, *broadcast) matches Some(row) ==> r == Ok::<_, WitnessClientError>(
                Step::Query(row),
            ),
            r matches Ok(Step::Query(row)) ==> asks_for(old(self)@, *broadcast) == Some(row),
            ({
                let before = old(self)@;
                let n = before.witnesses.len() as int;
                if n == before.positions.len() {
                    r == Ok::<_, WitnessClientError>(Step::Done) && final(self)@ == before
                } else {
                    let position = before.positions[n];
                    if !window_covers(*broadcast, position) {
                        &&& final(self)@ == before
                        &&& r == Err::<Step, _>(
                            WitnessClientError::PositionOutsideWindow(
                                position,
                                broadcast.window_start_shard,
                                (broadcast.window_start_shard
                                    + broadcast.window_shard_count) as u32,
                            ),
                        )
                    } else if row_number(*broadcast, position) >= 4_096 {
                        r == Ok::<_, WitnessClientError>(Step::Malformed) && final(self)@ == before
                    } else {
                        let row = row_number(*broadcast, position) as usize;
                        if !before.rows.contains_key(row) {
                            r == Ok::<_, WitnessClientError>(Step::Query(row)) && final(self)@
                                == before
                        } else if before.rows[row].len() < 8_192 {
                            &&& final(self)@ == before
                            &&& r matches Err(WitnessClientError::QueryFailed(reason))
                            &&& reason@ == short_row_text(before.rows[row].len())
                        } else if !rebuildable(
                            shard_number(position),
                            before.rows[row],
                            *broadcast,
                        ) {
                            r == Ok::<_, WitnessClientError>(Step::Malformed) && final(self)@
                                == before
                        } else if !path_verifies(position, before.rows[row], *broadcast) {
                            &&& final(self)@ == before
                            &&& r == Err::<Step, _>(
                                WitnessClientError::VerificationFailed(position),
                            )
                        } else {
                            &&& r == Ok::<_, WitnessClientError>(Step::Rebuilt)
                            &&& rebuilt_next(before, final(self)@, *broadcast)
                        }
                    }
                }
            }),
    {
        let n: usize = self.witnesses.len();
        if n == self.positions.len() {
            return Ok(Step::Done);
        }
        let position: u64 = self.positions[n];
        let start: u32 = broadcast.window_start_shard;
        let end: u32 = start + broadcast.window_shard_count;
        let (shard, subshard, leaf) = decompose_position(position);
        if shard < start || shard >= end {
            return Err(WitnessClientError::PositionOutsideWindow(position, start, end));
        }
        if shard - start >= 16 {
            return Ok(Step::Malformed);
        }
        let row: usize = physical_row_index(shard, subshard, start);
        let at: usize = match self.find_row(row) {
            Some(at) => at,
            None => return Ok(Step::Query(row)),
        };
        let ghost before = self@;
        let bytes = self.rows[at].bytes.as_slice();
        if bytes.len() >= 8_192 && !can_rebuild(shard, bytes, broadcast) {
            return Ok(Step::Malformed);
        }
        match reconstruct_witness(position, shard, subshard, leaf, bytes, broadcast) {
            Ok(witness) => {
                self.witnesses.push(witness);
                assert(self@.witnesses.take(n as int) =~= before.witnesses);
                Ok(Step::Rebuilt)
            },
            Err(error) => Err(error),
        }
    }

    /// Takes in the row that was queried.
    pub fn supply(&mut self, row: usize, bytes: Vec<u8>)
        requires
            old(self).wf(),
        ensures
            final(self).wf(),
            final(self)@ == supplied(old(self)@, row, bytes@),
    {
        let ghost before = self.rows@;
        self.rows.push(CachedRow { row, bytes });
        assert(self.rows@.drop_last() =~= before);
    }

    /// The witnesses, one for each position so far.
    pub fn into_witnesses(self) -> (witnesses: Vec<PirWitness>)
        ensures
            witnesses@ == self@.witnesses,
    {
        self.witnesses
    }
}

/// The row that a batch asks for next, if it asks for one.
pub open spec fn asks_for(v: BatchView, broadcast: BroadcastData) -> Option<usize> {
    let n = v.witnesses.len() as int;
    if n < v.positions.len() && window_covers(broadcast, v.positions[n]) && row_number(
        broadcast,
        v.positions[n],
    ) < 4_096 && !v.rows.contains_key(row_number(broadcast, v.positions[n]) as usize) {
        Some(row_number(broadcast, v.positions[n]) as usize)
    } else {
        None
    }
}

/// Once a row has been supplied, no later state of the batch asks for it:
/// each row is queried only once.
pub proof fn law_row_queried_once(
    v: BatchView,
    row: usize,
    bytes: Seq<u8>,
    later: BatchView,
    broadcast: BroadcastData,
)
    requires
        v.rows.insert(row, bytes).dom().subset_of(later.rows.dom()),
    ensures
        asks_for(later, broadcast) != Some(row),
{
    assert(v.rows.insert(row, bytes).dom().contains(row));
    assert(later.rows.dom().contains(row));
}

/// Every witness so far holds, and stays so, whether the next one is rebuilt or
/// a row that was asked for comes in.
pub proof fn law_witnesses_keep_holding(v: BatchView, w: BatchView, broadcast: BroadcastData)
    requires
        all_hold(v, broadcast),
        w == v || rebuilt_next(v, w, broadcast) || supplied_next(v, w, broadcast),
    ensures
        all_hold(w, broadcast),
        w.positions == v.positions,
{
    let n = v.witnesses.len() as int;
    assert forall|i: int| 0 <= i < w.witnesses.len() implies #[trigger] witness_holds(
        w,
        broadcast,
        i,
    ) by {
        if i < n {
            assert(witness_holds(v, broadcast, i));
            if rebuilt_next(v, w, broadcast) {
                assert(w.witnesses.take(n)[i] == w.witnesses[i]);
            }
        }
    }
}

/// Whether step `k` of a run over a batch is one that `WitnessBatch` makes.
pub open spec fn moves_at(run: Seq<BatchView>, k: int, broadcast: BroadcastData) -> bool {
    let v = run[k];
    let w = run[k + 1];
    w == v || rebuilt_next(v, w, broadcast) || supplied_next(v, w, broadcast)
}

/// A batch that began with some positions holds, whenever it is done, one
/// witness for each of them, in order, rebuilt from the row supplied for it.
pub proof fn law_batch_gives_every_witness(
    run: Seq<BatchView>,
    positions: Seq<u64>,
    broadcast: BroadcastData,
    k: int,
)
    requires
        0 <= k < run.len(),
        run[0] == (BatchView { positions, rows: Map::empty(), witnesses: Seq::empty() }),
        forall|i: int| 0 <= i < run.len() - 1 ==> #[trigger] moves_at(run, i, broadcast),
    ensures
        run[k].positions == positions,
        all_hold(run[k], broadcast),
        run[k].witnesses.len() == positions.len() ==> forall|i: int|
            0 <= i < positions.len() ==> #[trigger] witness_holds(run[k], broadcast, i)
                && run[k].witnesses[i].position == positions[i],
    decreases k,
{
    if k > 0 {
        law_batch_gives_every_witness(run, positions, broadcast, k - 1);
        assert(moves_at(run, k - 1, broadcast));
        law_witnesses_keep_holding(run[k - 1], run[k], broadcast);
    }
}

/// A row that was supplied is kept as it came, and nothing else changes; so the
/// batch does not ask for it again.
pub proof fn law_supplied_row_is_kept(
    v: BatchView,
    row: usize,
    bytes: Seq<u8>,
    broadcast: BroadcastData,
)
    ensures
        supplied(v, row, bytes).rows == v.rows.insert(row, bytes),
        supplied(v, row, bytes).positions == v.positions,
        supplied(v, row, bytes).witnesses == v.witnesses,
        asks_for(supplied(v, row, bytes), broadcast) != Some(row),
{
}

/// A witness that is rebuilt comes last, and all before it stay as they are.
pub proof fn law_rebuilt_witness_comes_last(v: BatchView, w: BatchView, broadcast: BroadcastData)
    requires
        rebuilt_next(v, w, broadcast),
    ensures
        w.witnesses == v.witnesses.push(w.witnesses.last()),
        w.witnesses.last().position == v.positions[v.witnesses.len() as int],
        w.positions == v.positions,
        w.rows == v.rows,
{
    let n = v.witnesses.len() as int;
    assert forall|i: int| 0 <= i < n implies w.witnesses[i] == v.witnesses[i] by {
        assert(w.witnesses.take(n)[i] == w.witnesses[i]);
    }
    assert(w.witnesses =~= v.witnesses.push(w.witnesses.last()));
}

} // verus!
