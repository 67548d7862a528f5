//! Checking whether a nullifier has been seen.

use super::error::SpendClientError;
use crate::nullifier::types::{hash_to_bucket, Nullifier, SpendabilityMetadata};
use crate::pir::{decode_row, query_row, RowQuery};
use crate::protocol::{YpirScenario, ZcashNetwork, DATASET_VERSION, IRONWOOD_POOL};
use crate::text::{around_number, decimal, same_text};
use vstd::prelude::*;
#[allow(unused_imports)]
use super::laws::law_spent_means_in_the_table;
#[allow(unused_imports)]
use crate::bytes::{concat_hashes, lemma_hash_ext, Hash32};
#[allow(unused_imports)]
use crate::nullifier::cells::{cell_count, cell_index, held, lemma_bucket_range, vacant};
#[allow(unused_imports)]
use crate::nullifier::laws::sound;
#[allow(unused_imports)]
use crate::nullifier::state::TableView;
#[allow(unused_imports)]
use crate::nullifier::types::bucket_of;
#[allow(unused_imports)]
use crate::pir::{
    carries_rows, decodes_to, is_nullifier_geometry, lemma_decoded_len, query_for, query_len,
    response_len,
};
#[allow(unused_imports)]
use crate::text::decimal_text;

verus! {

/// Whether entry `k` of a row, within a bucket's length, is `nf`.
pub open spec fn entry_is(row: Seq<u8>, nf: Nullifier, k: int) -> bool {
    &&& 0 <= k < 112
    &&& 32 * k + 32 <= row.len()
    &&& row.subrange(32 * k, 32 * k + 32) == nf@
}

/// Whether a row holds `nf` as one of its entries.
pub open spec fn row_holds(row: Seq<u8>, nf: Nullifier) -> bool {
    exists|k: int| #[trigger] entry_is(row, nf, k)
}

/// Whether a decoded row holds `nf` as one of its entries.
pub fn bucket_contains(decoded_row: &[u8], nf: &Nullifier) -> (r: bool)
    ensures
        r == row_holds(decoded_row@, *nf),
{
    let size: usize = decoded_row.len();
    let mut k: usize = 0;
    while k < 112 && size - 32 * k >= 32
        invariant
            k <= 112,
            32 * k <= size == decoded_row@.len(),
            forall|j: int| 0 <= j < k ==> !(#[trigger] entry_is(decoded_row@, *nf, j)),
        decreases 112 - k,
    {
        let entry = crate::bytes::hash_at(decoded_row, 32 * k);
        proof {
            lemma_hash_ext(entry, *nf);
        }
        if crate::bytes::hash_eq(&entry, nf) {
            assert(entry_is(decoded_row@, *nf, k as int));
            return true;
        }
        assert(!entry_is(decoded_row@, *nf, k as int));
        k += 1;
    }
    assert forall|j: int| !(#[trigger] entry_is(decoded_row@, *nf, j)) by {
        if entry_is(decoded_row@, *nf, j) {
            assert(j >= k);
        }
    }
    false
}

/// Whether metadata is that of the current Ironwood dataset of a network.
pub open spec fn metadata_current(metadata: SpendabilityMetadata, network: ZcashNetwork) -> bool {
    &&& metadata.nullifier_pool@ == IRONWOOD_POOL@
    &&& metadata.dataset_version == 2
    &&& metadata.zcash_network == network
}

/// Whether an error says that the server's dataset is another one.
pub open spec fn wrong_dataset(error: SpendClientError) -> bool {
    error matches SpendClientError::InvalidParams(reason) && reason@
        == "server is not the current Ironwood dataset"@
}

/// Whether an error says that the server's database has another geometry.
pub open spec fn wrong_scenario(error: SpendClientError, scenario: YpirScenario) -> bool {
    error matches SpendClientError::InvalidParams(reason) && reason@
        == "unexpected Ironwood nullifier PIR scenario: "@ + decimal_text(scenario.num_items as nat)
        + " rows, "@ + decimal_text(scenario.item_size_bits as nat) + " item bits, degree "@
        + decimal_text(scenario.poly_len as nat)
}

/// Checks that metadata is that of the current Ironwood dataset of a network.
pub fn validate_metadata(metadata: &SpendabilityMetadata, zcash_network: ZcashNetwork) -> (r: Result<
    (),
    SpendClientError,
>)
    ensures
        r is Ok <==> metadata_current(*metadata, zcash_network),
        r matches Err(error) ==> wrong_dataset(error),
{
    if same_text(metadata.nullifier_pool.as_str(), IRONWOOD_POOL) && metadata.dataset_version
        == DATASET_VERSION && metadata.zcash_network == zcash_network {
        Ok(())
    } else {
        Err(
            SpendClientError::InvalidParams(
                "server is not the current Ironwood dataset".to_owned(),
            ),
        )
    }
}

/// Checks that a database has the geometry of the nullifier database.
pub fn validate_scenario(scenario: &YpirScenario) -> (r: Result<(), SpendClientError>)
    ensures
        r is Ok <==> is_nullifier_geometry(*scenario),
        r matches Err(error) ==> wrong_scenario(error, *scenario),
{
    if scenario.num_items != 16_384 || scenario.item_size_bits != 28_672 || scenario.poly_len
        != 2_048 {
        let mut reason = around_number(
            "unexpected Ironwood nullifier PIR scenario: ",
            scenario.num_items,
            " rows, ",
        );
        reason.append(decimal(scenario.item_size_bits).as_str());
        reason.append(" item bits, degree ");
        reason.append(decimal(scenario.poly_len as u64).as_str());
        return Err(SpendClientError::InvalidParams(reason));
    }
    Ok(())
}

/// A wallet's view of a nullifier server. Requests are carried by the caller.
pub struct SpendClient {
    scenario: YpirScenario,
    metadata: SpendabilityMetadata,
}

impl SpendClient {
    /// The server's database has the geometry of the nullifier database.
    pub closed spec fn wf(&self) -> bool {
        is_nullifier_geometry(self.scenario)
    }

    /// The geometry that the server told.
    pub closed spec fn scenario_view(&self) -> YpirScenario {
        self.scenario
    }

    /// The metadata that the server told.
    pub closed spec fn metadata_view(&self) -> SpendabilityMetadata {
        self.metadata
    }

    /// A view of the server that told `scenario` and `metadata`.
    pub fn connect(
        scenario: YpirScenario,
        metadata: SpendabilityMetadata,
        zcash_network: ZcashNetwork,
    ) -> (r: Result<Self, SpendClientError>)
        ensures
            r is Ok <==> metadata_current(metadata, zcash_network) && is_nullifier_geometry(
                scenario,
            ),
            r matches Ok(client) ==> client.wf() && client.scenario_view() == scenario
                && client.metadata_view() == metadata,
            r matches Err(error) ==> {
                if metadata_current(metadata, zcash_network) {
                    wrong_scenario(error, scenario)
                } else {
                    wrong_dataset(error)
                }
            },
    {
        match validate_metadata(&metadata, zcash_network) {
            Ok(()) => {},
            Err(error) => return Err(error),
        }
        match validate_scenario(&scenario) {
            Ok(()) => {},
            Err(error) => return Err(error),
        }
        Ok(SpendClient { scenario, metadata })
    }

    /// The query for the bucket of a nullifier.
    pub fn query(&self, nf: &Nullifier) -> (query: RowQuery)
        requires
            self.wf(),
        ensures
            query.bytes@.len() == query_len(self.scenario_view()),
            query_for(self.scenario_view(), bucket_of(*nf) as usize, query),
    {
        query_row(&self.scenario, hash_to_bucket(nf) as usize)
    }

    /// Whether a response has the length of one.
    pub fn accepts(&self, response: &[u8]) -> (r: bool)
        requires
            self.wf(),
        ensures
            r == (response@.len() == response_len(self.scenario_view())),
    {
        response.len() == 12_288
    }

    /// Whether the bucket that a response carries holds a nullifier.
    pub fn is_spent(&self, nf: &Nullifier, seed: &Hash32, response: &[u8]) -> (r: bool)
        requires
            self.wf(),
            response@.len() == response_len(self.scenario_view()),
        ensures
            exists|row: Vec<u8>| #[trigger]
                decodes_to(self.scenario_view(), *seed, response, row) && r == row_holds(
                    row@,
                    *nf,
                ),
    {
        let row = decode_row(&self.scenario, seed, response);
        bucket_contains(row.as_slice(), nf)
    }

    /// Takes in newer metadata of the same dataset.
    pub fn refresh_metadata(&mut self, metadata: SpendabilityMetadata) -> (r: Result<
        (),
        SpendClientError,
    >)
        requires
            old(self).wf(),
        ensures
            final(self).wf(),
            final(self).scenario_view() == old(self).scenario_view(),
            r is Ok <==> metadata_current(metadata, old(self).metadata_view().zcash_network),
            r is Ok ==> final(self).metadata_view() == metadata,
            r matches Err(error) ==> final(self).metadata_view() == old(self).metadata_view()
                && wrong_dataset(error),
    {
        match validate_metadata(&metadata, self.metadata.zcash_network) {
            Ok(()) => {
                self.metadata = metadata;
                Ok(())
            },
            Err(error) => Err(error),
        }
    }

    pub fn earliest_height(&self) -> (height: u64)
        ensures
            height == self.metadata_view().earliest_height,
    {
        self.metadata.earliest_height
    }

    pub fn latest_height(&self) -> (height: u64)
        ensures
            height == self.metadata_view().latest_height,
    {
        self.metadata.latest_height
    }

    pub fn metadata(&self) -> (metadata: &SpendabilityMetadata)
        ensures
            *metadata == self.metadata_view(),
    {
        &self.metadata
    }

    pub fn scenario(&self) -> (scenario: &YpirScenario)
        ensures
            *scenario == self.scenario_view(),
    {
        &self.scenario
    }
}

/// The row of the PIR database in which a nullifier's bucket lies.
pub open spec fn bucket_row(cells: Seq<Nullifier>, nf: Nullifier) -> Seq<u8> {
    concat_hashes(cells).subrange(bucket_of(nf) * 3_584, bucket_of(nf) * 3_584 + 3_584)
}

/// Scanning the row of a nullifier's bucket says what the table itself says.
pub proof fn law_scan_agrees_with_table(cells: Seq<Nullifier>, nf: Nullifier)
    requires
        cells.len() == cell_count(),
    ensures
        row_holds(bucket_row(cells, nf), nf) == held(cells, nf),
{
    lemma_bucket_range(nf);
    let row = bucket_row(cells, nf);
    let b = bucket_of(nf);
    assert forall|k: int| 0 <= k < 112 implies row.subrange(32 * k, 32 * k + 32)
        == #[trigger] cells[cell_index(b, k)]@ by {
        let cell = cells[cell_index(b, k)]@;
        let part = row.subrange(32 * k, 32 * k + 32);
        assert forall|j: int| 0 <= j < 32 implies part[j] == cell[j] by {
            let at = b * 3_584 + 32 * k + j;
            assert(part[j] == concat_hashes(cells)[at]);
            assert(at / 32 == cell_index(b, k) && at % 32 == j);
        }
        assert(part =~= cell);
    }
    if row_holds(row, nf) {
        let k = choose|k: int| #[trigger] entry_is(row, nf, k);
        lemma_hash_ext(cells[cell_index(b, k)], nf);
    }
    if held(cells, nf) {
        let k = choose|k: int| 0 <= k < 112 && #[trigger] cells[cell_index(b, k)] == nf;
        assert(cells[cell_index(b, k)]@ == nf@);
        assert(entry_is(row, nf, k));
    }
}

/// A wallet that queries for a nullifier and reads the response reports it spent
/// exactly when the table behind the server's database holds it, wherever YPIR
/// carries rows.
pub proof fn law_spent_is_what_the_table_holds(
    client: SpendClient,
    v: TableView,
    nf: Nullifier,
    query: RowQuery,
    response: &[u8],
    spent: bool,
)
    requires
        client.wf(),
        sound(v),
        nf != vacant(),
        call_ensures(SpendClient::query, (&client, &nf), query),
        call_ensures(SpendClient::is_spent, (&client, &nf, &query.seed, response), spent),
        forall|decoded: Vec<u8>| #[trigger]
            decodes_to(client.scenario_view(), query.seed, response, decoded) ==> carries_rows(
                client.scenario_view(),
                query,
                response,
                decoded,
                concat_hashes(v.cells),
                3_584,
            ),
    ensures
        spent <==> v.cells.contains(nf),
{
    let scenario = client.scenario_view();
    let decoded = choose|decoded: Vec<u8>| #[trigger]
        decodes_to(scenario, query.seed, response, decoded) && spent == row_holds(decoded@, nf);
    lemma_decoded_len(scenario, query.seed, response, decoded);
    law_spent_means_in_the_table(scenario, v, nf, query, response, decoded, spent);
}

} // verus!
