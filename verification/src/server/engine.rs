//! The YPIR engine: databases set up for queries, and their answers.

use crate::pir::YpirError;
use crate::protocol::{PirEngine, YpirScenario};
use crate::text::{around_number, decimal, join};
use std::io::Cursor;
use valar_spiral_rs::params::Params;
use valar_ypir::params::{
    params_for_scenario_simplepir_with_config, DbRowsCols, PtModulusBits, YPIRSPConfig,
};
use valar_ypir::serialize::{FilePtIter, OfflinePrecomputedValues};
use valar_ypir::server::YServer;
use vstd::prelude::*;
#[allow(unused_imports)]
use crate::pir::{known_geometry, query_len, response_len};
#[allow(unused_imports)]
use crate::text::decimal_text;

verus! {

/// `valar_spiral_rs::params::Params`: the parameters of the encryption.
#[verifier::external_type_specification]
#[verifier::external_body]
pub struct ExParams(valar_spiral_rs::params::Params);

/// `valar_ypir::server::YServer`: a database laid out for queries.
#[verifier::external_type_specification]
#[verifier::external_body]
#[verifier::reject_recursive_types(T)]
pub struct ExYServer<'a, T>(valar_ypir::server::YServer<'a, T>);

/// `valar_ypir::serialize::OfflinePrecomputedValues`: what is computed from a
/// database before any query.
#[verifier::external_type_specification]
#[verifier::external_body]
pub struct ExOfflinePrecomputedValues<'a>(
    valar_ypir::serialize::OfflinePrecomputedValues<'a>,
);

/// `valar_ypir::params::params_for_scenario_simplepir_with_config`: the
/// parameters for a geometry, kept for as long as the process runs. Nothing is
/// claimed of what they hold.
#[verifier::external_body]
fn ypir_params(scenario: &YpirScenario) -> (params: &'static Params)
    requires
        known_geometry(*scenario),
{
    Box::leak(
        Box::new(
            params_for_scenario_simplepir_with_config(
                scenario.num_items,
                scenario.item_size_bits,
                YPIRSPConfig::for_poly_len(scenario.poly_len),
            ),
        ),
    )
}

/// Whether parameters are those for a geometry.
pub closed spec fn params_for(scenario: YpirScenario, params: &'static Params) -> bool {
    call_ensures(ypir_params, (&scenario,), params)
}

/// A database set up to answer queries.
pub struct YpirServerState {
    scenario: YpirScenario,
    server: YServer<'static, u16>,
    offline_vals: OfflinePrecomputedValues<'static>,
}

/// A YPIR engine for one geometry.
pub struct YpirPirEngine {
    scenario: YpirScenario,
    params: &'static Params,
    row_bytes: usize,
}

/// `valar_ypir::server::YServer::new` over a `valar_ypir::serialize::FilePtIter`,
/// then `YServer::perform_offline_precomputation_simplepir`: the rows of a
/// database laid out for queries, with what is computed ahead of them. Rows that
/// are missing read as zeros. The precomputation draws random numbers; nothing
/// is claimed of what the result holds.
#[verifier::external_body]
fn ypir_setup(engine: &YpirPirEngine, db_bytes: &[u8]) -> (r: (
    YServer<'static, u16>,
    OfflinePrecomputedValues<'static>,
))
    requires
        engine.wf(),
{
    let rows = FilePtIter::new(
        Cursor::new(db_bytes),
        engine.row_bytes,
        engine.params.db_cols_simplepir(),
        engine.params.pt_modulus_bits(),
    );
    let server = YServer::<u16>::new(engine.params, rows, true, false, true);
    let offline_vals = server.perform_offline_precomputation_simplepir(None, None, None);
    (server, offline_vals)
}

/// `valar_ypir::server::YServer::perform_full_online_computation_simplepir`: the
/// response to a query over a database. The response depends on the random numbers
/// of the setup; only its length is claimed.
#[verifier::external_body]
fn ypir_answer(state: &YpirServerState, query: &[u8]) -> (response: Vec<u8>)
    requires
        state.wf(),
        query@.len() == query_len(state.scenario),
    ensures
        response@.len() == response_len(state.scenario),
{
    state.server.perform_full_online_computation_simplepir(&state.offline_vals, query)
}

impl YpirServerState {
    /// The geometry that the database was set up with.
    pub closed spec fn scenario_view(&self) -> YpirScenario {
        self.scenario
    }

    /// Whether an engine can have set this up from the bytes of a database.
    pub closed spec fn holds(&self, engine: &YpirPirEngine, db_bytes: &[u8]) -> bool {
        &&& self.scenario == engine.scenario
        &&& call_ensures(ypir_setup, (engine, db_bytes), (self.server, self.offline_vals))
    }

    /// Whether a response is one that a query can get.
    pub closed spec fn answers(&self, query: &[u8], response: Vec<u8>) -> bool {
        call_ensures(ypir_answer, (self, query), response)
    }

    #[verifier::type_invariant]
    closed spec fn wf(&self) -> bool {
        &&& known_geometry(self.scenario)
        &&& exists|engine: &YpirPirEngine, db_bytes: &[u8]|
            engine.wf() && #[trigger] self.holds(engine, db_bytes)
    }
}

/// What is said of a query of `n` bytes for a geometry whose queries have
/// another length.
pub open spec fn query_len_text(scenario: YpirScenario, n: nat) -> Seq<char> {
    "assertion `left == right` failed\n  left: "@ + decimal_text(n) + "\n right: "@
        + decimal_text(query_len(scenario))
}

/// Whether a query of `n` bytes has the length of a geometry's queries.
pub fn check_query_len(scenario: &YpirScenario, n: usize) -> (r: Result<(), YpirError>)
    requires
        known_geometry(*scenario),
    ensures
        r is Ok <==> n == query_len(*scenario),
        r matches Err(error) ==> (error matches YpirError::Query(reason) && reason@
            == query_len_text(*scenario, n as nat)),
{
    let expected: usize = if scenario.poly_len == 2_048 {
        671_744
    } else {
        1_605_632
    };
    if n == expected {
        Ok(())
    } else {
        let left = around_number(
            "assertion `left == right` failed\n  left: ",
            n as u64,
            "\n right: ",
        );
        let right = decimal(expected as u64);
        Err(YpirError::Query(join(left.as_str(), right.as_str())))
    }
}

impl YpirPirEngine {
    /// The geometry of the databases that the engine serves.
    pub closed spec fn scenario_view(&self) -> YpirScenario {
        self.scenario
    }

    #[verifier::type_invariant]
    closed spec fn wf(&self) -> bool {
        &&& known_geometry(self.scenario)
        &&& params_for(self.scenario, self.params)
        &&& self.row_bytes * 8 == self.scenario.item_size_bits
    }

    /// An engine for databases of one geometry.
    pub fn new(scenario: &YpirScenario) -> (engine: Self)
        requires
            known_geometry(*scenario),
        ensures
            engine.scenario_view() == *scenario,
    {
        YpirPirEngine {
            scenario: *scenario,
            params: ypir_params(scenario),
            row_bytes: scenario.item_size_bits as usize / 8,
        }
    }

    /// The parameters of the encryption.
    pub fn params(&self) -> (params: &'static Params)
        ensures
            params_for(self.scenario_view(), params),
    {
        proof {
            use_type_invariant(self);
        }
        self.params
    }
}

impl PirEngine for YpirPirEngine {
    type ServerState = YpirServerState;

    type Error = YpirError;

    /// Sets up a database of the engine's own geometry; the one given with the
    /// call is not read.
    fn setup(&self, db_bytes: &[u8], _scenario: &YpirScenario) -> (r: Result<
        YpirServerState,
        YpirError,
    >)
        ensures
            r matches Ok(state) && state.scenario_view() == self.scenario_view() && state.holds(
                self,
                db_bytes,
            ),
    {
        proof {
            use_type_invariant(self);
        }
        let (server, offline_vals) = ypir_setup(self, db_bytes);
        let ghost made = YpirServerState { scenario: self.scenario, server, offline_vals };
        assert(made.holds(self, db_bytes));
        Ok(YpirServerState { scenario: self.scenario, server, offline_vals })
    }

    /// Answers a query that has the length of the database's queries.
    fn answer_query(&self, state: &YpirServerState, query_bytes: &[u8]) -> (r: Result<
        Vec<u8>,
        YpirError,
    >)
        ensures
            r is Ok <==> query_bytes@.len() == query_len(state.scenario_view()),
            r matches Ok(response) ==> response@.len() == response_len(state.scenario_view())
                && state.answers(query_bytes, response),
            r matches Err(error) ==> (error matches YpirError::Query(reason) && reason@
                == query_len_text(state.scenario_view(), query_bytes@.len())),
    {
        proof {
            use_type_invariant(state);
        }
        match check_query_len(&state.scenario, query_bytes.len()) {
            Ok(()) => Ok(ypir_answer(state, query_bytes)),
            Err(error) => Err(error),
        }
    }
}

/// A server state holds a database for an engine exactly when it came out of
/// YPIR's setup of that database with that engine's parameters and geometry.
proof fn law_state_is_of_its_database(
    state: &YpirServerState,
    engine: &YpirPirEngine,
    db_bytes: &[u8],
)
    ensures
        state.holds(engine, db_bytes) <==> state.scenario == engine.scenario && call_ensures(
            ypir_setup,
            (engine, db_bytes),
            (state.server, state.offline_vals),
        ),
        state.scenario_view() == state.scenario,
        engine.scenario_view() == engine.scenario,
{
}

/// A response answers a query exactly when YPIR computes it from that query over
/// that state.
proof fn law_answer_is_of_its_query(state: &YpirServerState, query: &[u8], response: Vec<u8>)
    ensures
        state.answers(query, response) <==> call_ensures(ypir_answer, (state, query), response),
{
}

/// Parameters are for a geometry exactly when YPIR makes them for it.
proof fn law_params_are_of_their_geometry(scenario: YpirScenario, params: &'static Params)
    ensures
        params_for(scenario, params) <==> call_ensures(ypir_params, (&scenario,), params),
{
}

} // verus!
