use spendability_pir::client::error::{SpendClientError, WitnessClientError};
use spendability_pir::client::nullifier::{bucket_contains, SpendClient};
use spendability_pir::client::witness::{validate_dataset, Step, WitnessBatch, WitnessClient};
use spendability_pir::nullifier::table::HashTableDb;
use spendability_pir::nullifier::types::{
    hash_to_bucket, nullifier_scenario, SpendabilityMetadata, BUCKET_BYTES, ENTRY_BYTES,
};
use spendability_pir::p2p::MAX_MESSAGE_BYTES;
use spendability_pir::pir::{
    decode_row, has_known_geometry, query_row, response_bytes, RowQuery, YpirError,
};
use spendability_pir::protocol::{ServerPhase, YpirScenario, ZcashNetwork};
use spendability_pir::server::engine::{check_query_len, YpirPirEngine};
use spendability_pir::witness::frontier::witness_scenario;
use spendability_pir::witness::merkle::empty_root;
use spendability_pir::witness::tree::CommitmentTreeDb;
use spendability_pir::witness::types::{
    L0_DB_BYTES, L0_DB_ROWS, SUBSHARD_ROW_BYTES, YPIR_POLY_LEN,
};
use valar_spiral_rs::arith::rescale;
use valar_spiral_rs::client::Client;
use valar_spiral_rs::poly::{PolyMatrix, PolyMatrixRaw};
use valar_ypir::bits::contiguous_bytes_to_u64s;
use valar_ypir::modulus_switch::ModulusSwitch;
use valar_ypir::params::{
    params_for_scenario_simplepir_with_config, DbRowsCols, GetQPrime, PtModulusBits, YPIRSPConfig,
};
use valar_ypir::server::YServer;
use valar_ypir::util::negacyclic_perm;

fn metadata(network: ZcashNetwork) -> SpendabilityMetadata {
    SpendabilityMetadata {
        zcash_network: network,
        nullifier_pool: "ironwood".to_owned(),
        dataset_version: 2,
        earliest_height: 5,
        latest_height: 9,
        num_nullifiers: 1,
        num_buckets: 16_384,
        phase: ServerPhase::Serving,
    }
}

#[test]
fn scans_raw_ironwood_bucket() {
    let nf = [42; 32];
    let mut bucket = vec![0; BUCKET_BYTES];
    bucket[3 * ENTRY_BYTES..4 * ENTRY_BYTES].copy_from_slice(&nf);
    assert!(bucket_contains(&bucket, &nf));
    assert!(!bucket_contains(&bucket, &[99; 32]));
}

#[test]
fn scans_whole_entries_of_one_bucket_only() {
    let nf = [42; 32];
    let mut row = vec![0; BUCKET_BYTES + 32];
    row[BUCKET_BYTES..].copy_from_slice(&nf);
    assert!(!bucket_contains(&row, &nf));
    assert!(!bucket_contains(&nf[..31], &nf));
    assert!(bucket_contains(&nf, &nf));
    let mut shifted = vec![0; 64];
    shifted[16..48].copy_from_slice(&nf);
    assert!(!bucket_contains(&shifted, &nf));
}

#[test]
fn current_queries_fit_message_limit() {
    for (scenario, bytes) in [
        (nullifier_scenario(), 671_744),
        (witness_scenario(), 1_605_632),
    ] {
        assert!(has_known_geometry(&scenario));
        let query = query_row(&scenario, 0);
        assert!(query.bytes.len() <= MAX_MESSAGE_BYTES);
        assert_eq!(query.bytes.len(), bytes);
    }
}

#[test]
fn witness_uses_4096_degree_layout() {
    let engine = YpirPirEngine::new(&YpirScenario {
        num_items: L0_DB_ROWS as u64,
        item_size_bits: (SUBSHARD_ROW_BYTES * 8) as u64,
        poly_len: YPIR_POLY_LEN,
    });

    assert_eq!(engine.params().poly_len, 4_096);
    assert_eq!(engine.params().db_rows(), 4_096);
    assert_eq!(engine.params().instances, 2);
}

#[test]
fn nullifier_engine_uses_2048_degree_layout() {
    let engine = YpirPirEngine::new(&nullifier_scenario());
    assert_eq!(engine.params().poly_len, 2_048);
    assert_eq!(engine.params().db_rows(), 16_384);
    assert_eq!(engine.params().instances, 1);
}

#[test]
fn queries_of_the_wrong_length_are_refused() {
    for (scenario, expected) in [
        (nullifier_scenario(), 671_744),
        (witness_scenario(), 1_605_632),
    ] {
        let query = query_row(&scenario, 3);
        assert!(check_query_len(&scenario, query.bytes.len()).is_ok());
        for n in [0, expected - 1, expected + 1] {
            match check_query_len(&scenario, n) {
                Err(YpirError::Query(reason)) => assert_eq!(
                    reason,
                    format!("assertion `left == right` failed\n  left: {n}\n right: {expected}")
                ),
                other => panic!("unexpected {other:?}"),
            }
        }
    }
}

/// A noiseless response that any key decodes to `row`.
fn plain_response(scenario: &YpirScenario, row: &[u8]) -> Vec<u8> {
    let params = params_for_scenario_simplepir_with_config(
        scenario.num_items,
        scenario.item_size_bits,
        YPIRSPConfig::for_poly_len(scenario.poly_len),
    );
    let mut padded = row.to_vec();
    padded.resize(params.db_cols_simplepir() * params.pt_modulus_bits() / 8, 0);
    let cells = contiguous_bytes_to_u64s(&padded, params.pt_modulus_bits());
    cells
        .chunks(params.poly_len)
        .flat_map(|chunk| {
            let mut ciphertext = PolyMatrixRaw::zero(&params, 2, 1);
            for (z, cell) in chunk.iter().enumerate() {
                ciphertext.get_poly_mut(1, 0)[z] =
                    rescale(*cell, params.pt_modulus, params.modulus);
            }
            ciphertext.switch(params.get_q_prime_1(), params.get_q_prime_2())
        })
        .collect()
}

/// Answers a query with its key at hand: decrypts which row of `db` it selects,
/// and encrypts that row under the same key.
fn keyed_answer(scenario: &YpirScenario, db: &[u8], query: &RowQuery) -> Vec<u8> {
    let params = params_for_scenario_simplepir_with_config(
        scenario.num_items,
        scenario.item_size_bits,
        YPIRSPConfig::for_poly_len(scenario.poly_len),
    );
    let row_bytes = scenario.item_size_bits as usize / 8;
    let mut client = Client::init(&params);
    client.generate_secret_keys_from_seed(query.seed);
    let server = YServer::<u16>::new(&params, std::iter::repeat(0), true, false, true);
    let words: Vec<u64> = query.bytes[..params.db_rows() * 8]
        .chunks_exact(8)
        .map(|word| u64::from_ne_bytes(word.try_into().unwrap()))
        .collect();
    let mut selection = Vec::new();
    for (i, public) in server.generate_pseudorandom_query(0).iter().enumerate() {
        let mut ciphertext = PolyMatrixRaw::zero(&params, 2, 1);
        let mask = negacyclic_perm(public.raw().get_poly(0, 0), 0, params.modulus);
        ciphertext.get_poly_mut(0, 0).copy_from_slice(&mask);
        for z in 0..params.poly_len {
            let word = words[i * params.poly_len + z];
            ciphertext.get_poly_mut(1, 0)[z] =
                params.crt_compose_2(word & 0xffff_ffff, word >> 32);
        }
        let plain = client.decrypt_matrix_reg(&ciphertext.ntt()).raw();
        for value in plain.get_poly(0, 0) {
            let scaled = *value as u128 * params.poly_len as u128 % params.modulus as u128;
            selection.push(rescale(scaled as u64, params.modulus, params.pt_modulus));
        }
    }
    let row = selection.iter().position(|value| *value == 1).unwrap();
    assert!(selection
        .iter()
        .enumerate()
        .all(|(i, value)| *value == u64::from(i == row)));

    let mut padded = db[row * row_bytes..(row + 1) * row_bytes].to_vec();
    padded.resize(params.db_cols_simplepir() * params.pt_modulus_bits() / 8, 0);
    contiguous_bytes_to_u64s(&padded, params.pt_modulus_bits())
        .chunks(params.poly_len)
        .flat_map(|chunk| {
            let mut ciphertext = PolyMatrixRaw::zero(&params, 2, 1);
            let mut mask = PolyMatrixRaw::zero(&params, 1, 1);
            for z in 0..params.poly_len {
                let value = (z as u64 + 1) * 1_234_567_891 % params.modulus;
                mask.get_poly_mut(0, 0)[z] = value;
                ciphertext.get_poly_mut(0, 0)[z] = value;
            }
            let product = (&client.get_sk_reg().ntt() * &mask.ntt()).raw();
            for (z, cell) in chunk.iter().enumerate() {
                let message = rescale(*cell, params.pt_modulus, params.modulus);
                ciphertext.get_poly_mut(1, 0)[z] =
                    (message + params.modulus - product.get_poly(0, 0)[z]) % params.modulus;
            }
            ciphertext.switch(params.get_q_prime_1(), params.get_q_prime_2())
        })
        .collect()
}

/// Packing the answer takes the server too long without optimisation, so the
/// holder of the key answers in its place.
#[test]
fn witness_4096_degree_roundtrip() {
    let scenario = witness_scenario();
    let mut db = vec![0; L0_DB_BYTES];
    let row_idx = 17;
    let row_start = row_idx * SUBSHARD_ROW_BYTES;
    let row_end = row_start + SUBSHARD_ROW_BYTES;
    for (i, byte) in db[row_start..row_end].iter_mut().enumerate() {
        *byte = i as u8;
    }
    let query = query_row(&scenario, row_idx);
    let response = keyed_answer(&scenario, &db, &query);
    assert_eq!(response.len(), response_bytes(&scenario));
    let decoded = decode_row(&scenario, &query.seed, &response);
    assert_eq!(&decoded[..SUBSHARD_ROW_BYTES], &db[row_start..row_end]);
}

#[test]
fn nullifier_query_roundtrip() {
    let mut nf = [42u8; 32];
    nf[..4].copy_from_slice(&9_999u32.to_le_bytes());
    let mut table = HashTableDb::new();
    table.insert_block(1, [1; 32], &[nf]).unwrap();
    let client = SpendClient::connect(
        nullifier_scenario(),
        metadata(ZcashNetwork::Main),
        ZcashNetwork::Main,
    )
    .unwrap();
    let query = client.query(&nf);
    let response = keyed_answer(&nullifier_scenario(), &table.to_pir_bytes(), &query);
    assert!(client.accepts(&response));
    assert!(client.is_spent(&nf, &query.seed, &response));
    let mut absent = nf;
    absent[31] = 1;
    assert!(!client.is_spent(&absent, &query.seed, &response));
    // Another key does not decode it.
    assert!(!client.is_spent(&nf, &[7; 32], &response));
}

#[test]
fn witness_rows_decode() {
    let scenario = witness_scenario();
    let row: Vec<u8> = (0..SUBSHARD_ROW_BYTES).map(|i| i as u8).collect();
    let query = query_row(&scenario, 17);
    let response = plain_response(&scenario, &row);
    assert_eq!(response.len(), response_bytes(&scenario));
    let decoded = decode_row(&scenario, &query.seed, &response);
    assert_eq!(decoded.len(), 14_336);
    assert_eq!(&decoded[..SUBSHARD_ROW_BYTES], &row);
}

#[test]
fn spent_nullifier_is_found_in_its_row() {
    let nf = [42; 32];
    let mut table = HashTableDb::new();
    table.insert_block(1, [1; 32], &[nf]).unwrap();
    let client = SpendClient::connect(
        nullifier_scenario(),
        metadata(ZcashNetwork::Main),
        ZcashNetwork::Main,
    )
    .unwrap();
    let query = client.query(&nf);
    assert_eq!(query.bytes.len(), 671_744);
    let bucket = hash_to_bucket(&nf) as usize;
    let image = table.to_pir_bytes();
    let row = &image[bucket * BUCKET_BYTES..(bucket + 1) * BUCKET_BYTES];
    let response = plain_response(&nullifier_scenario(), row);
    assert!(client.accepts(&response));
    assert!(!client.accepts(&response[1..]));
    assert!(client.is_spent(&nf, &query.seed, &response));
    let mut same_bucket = nf;
    same_bucket[31] = 1;
    assert_eq!(hash_to_bucket(&same_bucket), hash_to_bucket(&nf));
    assert!(!client.is_spent(&same_bucket, &query.seed, &response));
}

#[test]
fn only_the_ironwood_dataset_is_accepted() {
    let mut client = SpendClient::connect(
        nullifier_scenario(),
        metadata(ZcashNetwork::Test),
        ZcashNetwork::Test,
    )
    .unwrap();
    assert_eq!(client.earliest_height(), 5);
    assert_eq!(client.latest_height(), 9);
    assert_eq!(client.scenario().num_items, 16_384);
    let mut newer = metadata(ZcashNetwork::Test);
    newer.latest_height = 10;
    client.refresh_metadata(newer).unwrap();
    assert_eq!(client.metadata().latest_height, 10);
    assert!(client.refresh_metadata(metadata(ZcashNetwork::Main)).is_err());
    assert_eq!(client.metadata().latest_height, 10);

    let mut scenario = nullifier_scenario();
    scenario.num_items = 8;
    match SpendClient::connect(scenario, metadata(ZcashNetwork::Main), ZcashNetwork::Main) {
        Err(SpendClientError::InvalidParams(reason)) => assert_eq!(
            reason,
            "unexpected Ironwood nullifier PIR scenario: 8 rows, 28672 item bits, degree 2048"
        ),
        _ => panic!("the geometry is another one"),
    }
    let mut old = metadata(ZcashNetwork::Main);
    old.dataset_version = 1;
    match SpendClient::connect(nullifier_scenario(), old, ZcashNetwork::Main) {
        Err(SpendClientError::InvalidParams(reason)) => {
            assert_eq!(reason, "server is not the current Ironwood dataset")
        }
        _ => panic!("the dataset is another one"),
    }
    assert!(validate_dataset(ZcashNetwork::Main, "ironwood", 2, ZcashNetwork::Main).is_ok());
    assert!(validate_dataset(ZcashNetwork::Main, "orchard", 2, ZcashNetwork::Main).is_err());
}

#[test]
fn batches_query_each_row_once() {
    let mut tree = CommitmentTreeDb::new();
    let mut leaves = vec![empty_root(0); 600];
    for at in [0usize, 1, 3, 4, 9, 300, 599] {
        leaves[at] = [at as u8; 32];
        leaves[at][31] = 1;
    }
    tree.append_commitments(1, [1; 32], &leaves);
    let root = tree.tree_root();
    let (database, broadcast) = tree.build_pir_db_and_broadcast(7);
    let client = WitnessClient::connect(witness_scenario(), broadcast).unwrap();
    assert_eq!(client.anchor_height(), 7);
    let mut batch = WitnessBatch::begin(client.broadcast(), vec![3, 4, 599, 0]).unwrap();
    let mut queried = Vec::new();
    loop {
        match batch.step(client.broadcast()).unwrap() {
            Step::Query(row) => {
                queried.push(row);
                batch.supply(
                    row,
                    database[row * SUBSHARD_ROW_BYTES..(row + 1) * SUBSHARD_ROW_BYTES].to_vec(),
                );
            }
            Step::Rebuilt => {}
            Step::Done => break,
            Step::Malformed => panic!("the data forms a tree"),
        }
    }
    assert_eq!(queried, vec![0, 2]);
    let witnesses = batch.into_witnesses();
    assert_eq!(witnesses.len(), 4);
    assert!(witnesses.iter().all(|witness| witness.anchor_root == root));
    assert_eq!(witnesses[2].position, 599);

    let mut outside = WitnessBatch::begin(client.broadcast(), vec![65_536]).unwrap();
    assert!(matches!(
        outside.step(client.broadcast()),
        Err(WitnessClientError::PositionOutsideWindow(65_536, 0, 1))
    ));
    let mut altered = database[..SUBSHARD_ROW_BYTES].to_vec();
    altered[9 * 32] ^= 1;
    let mut mismatched = WitnessBatch::begin(client.broadcast(), vec![1]).unwrap();
    mismatched.supply(0, altered);
    assert!(matches!(
        mismatched.step(client.broadcast()),
        Err(WitnessClientError::VerificationFailed(1))
    ));
    assert!(mismatched.into_witnesses().is_empty());
    let mut garbled = WitnessBatch::begin(client.broadcast(), vec![1]).unwrap();
    garbled.supply(0, vec![0xff; SUBSHARD_ROW_BYTES]);
    assert_eq!(garbled.step(client.broadcast()).unwrap(), Step::Malformed);
    let mut short = WitnessBatch::begin(client.broadcast(), vec![1]).unwrap();
    short.supply(0, vec![0; 5]);
    assert!(matches!(
        short.step(client.broadcast()),
        Err(WitnessClientError::QueryFailed(_))
    ));
}
