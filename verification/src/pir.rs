//! SimplePIR queries over the two database geometries.

use crate::bytes::Hash32;
use crate::p2p::MAX_MESSAGE_BYTES;
use crate::protocol::{ErrorText, YpirScenario};
use crate::text::join;
use valar_ypir::client::YPIRClient;
use valar_ypir::params::{params_for_scenario_simplepir_with_config, YPIRSPConfig};
use valar_ypir::serialize::ToBytes;
use vstd::prelude::*;

verus! {

/// Why the PIR engine failed.
#[derive(Debug)]
pub enum YpirError {
    Setup(String),
    Query(String),
}

impl YpirError {
    /// The text shown to a person.
    pub open spec fn text(&self) -> Seq<char> {
        match self {
            YpirError::Setup(reason) => "YPIR setup failed: "@ + reason@,
            YpirError::Query(reason) => "YPIR query failed: "@ + reason@,
        }
    }
}

impl ErrorText for YpirError {
    fn message(&self) -> (s: String)
        ensures
            s@ == self.text(),
    {
        match self {
            YpirError::Setup(reason) => join("YPIR setup failed: ", reason.as_str()),
            YpirError::Query(reason) => join("YPIR query failed: ", reason.as_str()),
        }
    }
}

/// The nullifier database: 16,384 rows of 28,672 bits.
pub open spec fn is_nullifier_geometry(s: YpirScenario) -> bool {
    s.num_items == 16_384 && s.item_size_bits == 28_672 && s.poly_len == 2_048
}

/// The witness database: 4,096 rows of 65,536 bits.
pub open spec fn is_witness_geometry(s: YpirScenario) -> bool {
    s.num_items == 4_096 && s.item_size_bits == 65_536 && s.poly_len == 4_096
}

/// Whether a database has one of the two geometries.
pub open spec fn known_geometry(s: YpirScenario) -> bool {
    is_nullifier_geometry(s) || is_witness_geometry(s)
}

/// The bytes of a query: one word per row, and one polynomial for each digit
/// of each packing key.
pub open spec fn query_len(s: YpirScenario) -> nat {
    if s.poly_len == 2_048 {
        16_384 * 8 + 11 * 3 * 2_048 * 8
    } else {
        4_096 * 8 + 12 * 4 * 4_096 * 8
    }
}

/// The bytes of a response: 48 bits per coefficient of each ciphertext.
pub open spec fn response_len(s: YpirScenario) -> nat {
    if s.poly_len == 2_048 {
        2_048 * 6
    } else {
        2 * 4_096 * 6
    }
}

/// The bytes of a decoded response: 14 bits per coefficient.
pub open spec fn decoded_len(s: YpirScenario) -> nat {
    if s.poly_len == 2_048 {
        3_584
    } else {
        14_336
    }
}

/// A query for one row, and the seed with which its response is decoded.
pub struct RowQuery {
    pub bytes: Vec<u8>,
    pub seed: Hash32,
}

/// `valar_ypir::client::YPIRClient::generate_query_simplepir`, serialised with
/// `ToBytes::to_bytes`: a fresh encrypted query for a row and the seed drawn
/// for it. Query and seed are random; only the length is claimed.
#[verifier::external_body]
fn ypir_query(scenario: &YpirScenario, row: usize) -> (r: RowQuery)
    requires
        known_geometry(*scenario),
        row < scenario.num_items,
    ensures
        r.bytes@.len() == query_len(*scenario),
{
    let params = params_for_scenario_simplepir_with_config(
        scenario.num_items,
        scenario.item_size_bits,
        YPIRSPConfig::for_poly_len(scenario.poly_len),
    );
    let (query, seed) = YPIRClient::new(&params).generate_query_simplepir(row);
    RowQuery { bytes: query.to_bytes(), seed }
}

/// `valar_ypir::client::YPIRClient::decode_response_simplepir`: the row that a
/// response carries. The keys behind it are sampled with the machine's floating
/// point, so only the length of the result is claimed.
#[verifier::external_body]
fn ypir_decode(scenario: &YpirScenario, seed: &Hash32, response: &[u8]) -> (row: Vec<u8>)
    requires
        known_geometry(*scenario),
        response@.len() == response_len(*scenario),
    ensures
        row@.len() == decoded_len(*scenario),
{
    let params = params_for_scenario_simplepir_with_config(
        scenario.num_items,
        scenario.item_size_bits,
        YPIRSPConfig::for_poly_len(scenario.poly_len),
    );
    YPIRClient::new(&params).decode_response_simplepir(*seed, response)
}

/// Whether a query is one that can be generated for a row.
pub closed spec fn query_for(scenario: YpirScenario, row: usize, query: RowQuery) -> bool {
    call_ensures(ypir_query, (&scenario, row), query)
}

/// Whether a row is one that a response can be decoded to.
pub closed spec fn decodes_to(
    scenario: YpirScenario,
    seed: Hash32,
    response: &[u8],
    row: Vec<u8>,
) -> bool {
    call_ensures(ypir_decode, (&scenario, &seed, response), row)
}

/// Whether a database has one of the two geometries.
pub fn has_known_geometry(scenario: &YpirScenario) -> (r: bool)
    ensures
        r == known_geometry(*scenario),
{
    (scenario.num_items == 16_384 && scenario.item_size_bits == 28_672 && scenario.poly_len
        == 2_048) || (scenario.num_items == 4_096 && scenario.item_size_bits == 65_536
        && scenario.poly_len == 4_096)
}

/// A query for one row. It fits a message.
pub fn query_row(scenario: &YpirScenario, row: usize) -> (query: RowQuery)
    requires
        known_geometry(*scenario),
        row < scenario.num_items,
    ensures
        query.bytes@.len() == query_len(*scenario),
        query.bytes@.len() <= MAX_MESSAGE_BYTES,
        query_for(*scenario, row, query),
{
    ypir_query(scenario, row)
}

/// The bytes that a response has.
pub fn response_bytes(scenario: &YpirScenario) -> (n: usize)
    requires
        known_geometry(*scenario),
    ensures
        n == response_len(*scenario),
{
    if scenario.poly_len == 2_048 {
        12_288
    } else {
        49_152
    }
}

/// The row that a response carries.
pub fn decode_row(scenario: &YpirScenario, seed: &Hash32, response: &[u8]) -> (row: Vec<u8>)
    requires
        known_geometry(*scenario),
        response@.len() == response_len(*scenario),
    ensures
        row@.len() == decoded_len(*scenario),
        decodes_to(*scenario, *seed, response, row),
{
    ypir_decode(scenario, seed, response)
}

/// A query for a row is one that YPIR generates when it is handed that row,
/// and none that it generates for another one only.
proof fn law_query_is_generated_for_its_row(
    scenario: YpirScenario,
    row: usize,
    query: RowQuery,
)
    ensures
        query_for(scenario, row, query) <==> call_ensures(ypir_query, (&scenario, row), query),
{
}

/// A row decoded from a response is one that YPIR decodes from that response
/// under that seed.
proof fn law_row_is_decoded_from_its_response(
    scenario: YpirScenario,
    seed: Hash32,
    response: &[u8],
    row: Vec<u8>,
)
    ensures
        decodes_to(scenario, seed, response, row) <==> call_ensures(
            ypir_decode,
            (&scenario, &seed, response),
            row,
        ),
{
}

/// YPIR taken at its word: what it decodes from the response to a query that it
/// generated for a row begins with that row of the database, a row having
/// `row_bytes` bytes. It holds but for a chance that YPIR's parameters make
/// negligible, so it is a condition of what follows and not a fact.
pub closed spec fn carries_rows(
    scenario: YpirScenario,
    query: RowQuery,
    response: &[u8],
    decoded: Vec<u8>,
    database: Seq<u8>,
    row_bytes: int,
) -> bool {
    forall|r: usize| #[trigger]
        call_ensures(ypir_query, (&scenario, r), query) && call_ensures(
            ypir_decode,
            (&scenario, &query.seed, response),
            decoded,
        ) ==> decoded@.take(row_bytes) == database.subrange(
            r * row_bytes,
            r * row_bytes + row_bytes,
        )
}

/// Rows are carried for every query that YPIR generates for row `r` and every
/// decoding of a response to it, whichever row that is.
proof fn law_rows_are_carried_by_the_generator(
    scenario: YpirScenario,
    query: RowQuery,
    response: &[u8],
    decoded: Vec<u8>,
    database: Seq<u8>,
    row_bytes: int,
    r: usize,
)
    requires
        carries_rows(scenario, query, response, decoded, database, row_bytes),
        call_ensures(ypir_query, (&scenario, r), query),
        call_ensures(ypir_decode, (&scenario, &query.seed, response), decoded),
    ensures
        decoded@.take(row_bytes) == database.subrange(r * row_bytes, r * row_bytes + row_bytes),
{
}

/// The row that was asked for comes back, wherever YPIR carries rows.
pub proof fn law_asked_row_comes_back(
    scenario: YpirScenario,
    row: usize,
    query: RowQuery,
    response: &[u8],
    decoded: Vec<u8>,
    database: Seq<u8>,
    row_bytes: int,
)
    requires
        query_for(scenario, row, query),
        decodes_to(scenario, query.seed, response, decoded),
        carries_rows(scenario, query, response, decoded, database, row_bytes),
    ensures
        decoded@.take(row_bytes) == database.subrange(
            row * row_bytes,
            row * row_bytes + row_bytes,
        ),
{
    law_query_is_generated_for_its_row(scenario, row, query);
    law_row_is_decoded_from_its_response(scenario, query.seed, response, decoded);
    law_rows_are_carried_by_the_generator(
        scenario,
        query,
        response,
        decoded,
        database,
        row_bytes,
        row,
    );
}

/// The two geometries and the lengths that go with them. A row of the nullifier
/// database is a bucket of 112 nullifiers, and one of the witness database a
/// subshard of 256 leaves; both are decoded whole.
pub proof fn law_geometries(s: YpirScenario)
    ensures
        is_nullifier_geometry(s) <==> s.num_items == 16_384 && s.item_size_bits == 112 * 32 * 8
            && s.poly_len == 2_048,
        is_witness_geometry(s) <==> s.num_items == 16 * 256 && s.item_size_bits == 256 * 32 * 8
            && s.poly_len == 4_096,
        known_geometry(s) <==> is_nullifier_geometry(s) || is_witness_geometry(s),
        is_nullifier_geometry(s) ==> query_len(s) == 671_744 && response_len(s) == 12_288
            && decoded_len(s) == 112 * 32,
        is_witness_geometry(s) ==> query_len(s) == 1_605_632 && response_len(s) == 49_152
            && decoded_len(s) >= 256 * 32,
{
}

/// A query made for a row is one that YPIR generates when it is handed that row.
proof fn law_query_row_hands_on_its_row(scenario: YpirScenario, row: usize, query: RowQuery)
    requires
        call_ensures(query_row, (&scenario, row), query),
    ensures
        call_ensures(ypir_query, (&scenario, row), query),
        query.bytes@.len() == query_len(scenario),
{
    law_query_is_generated_for_its_row(scenario, row, query);
}

/// A row decoded for a response is one that YPIR decodes from it.
proof fn law_decode_row_hands_on_its_response(
    scenario: YpirScenario,
    seed: Hash32,
    response: &[u8],
    row: Vec<u8>,
)
    requires
        call_ensures(decode_row, (&scenario, &seed, response), row),
    ensures
        call_ensures(ypir_decode, (&scenario, &seed, response), row),
{
    law_row_is_decoded_from_its_response(scenario, seed, response, row);
}

/// A row that is decoded has the length of one.
pub proof fn lemma_decoded_len(
    scenario: YpirScenario,
    seed: Hash32,
    response: &[u8],
    row: Vec<u8>,
)
    requires
        decodes_to(scenario, seed, response, row),
    ensures
        row@.len() == decoded_len(scenario),
{
}

} // verus!
