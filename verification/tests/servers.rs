use spendability_pir::ingest::pipeline::{BlockEvent, ValidatedBlock};
use spendability_pir::ingest::proto::{
    ChainMetadata, CompactBlock, CompactOrchardAction, CompactTx, SubtreeRoot,
};
use spendability_pir::nullifier::table::{HashTableDb, HashTableError};
use spendability_pir::nullifier::types::nullifier_scenario;
use spendability_pir::p2p::{Message, P2PError};
use spendability_pir::pir::YpirError;
use spendability_pir::protocol::{ErrorText, PirEngine, ServerPhase, YpirScenario, ZcashNetwork};
use spendability_pir::server::combined::{self, apply_block, shared_tip};
use spendability_pir::server::nullifier as nf;
use spendability_pir::server::p2p::{answer_query, route, Handling};
use spendability_pir::server::schedule::{
    confirmed_height, forward_start, min_sync_height, resume_from, shared_start, sync_progress,
    Backfill, SnapshotCounter,
};
use spendability_pir::server::witness::{
    self as wit, open_window, plan_tree, rebuild_pir, spillover_from_commitments, sync_start,
    validate_prior_tree_size, ServerError, TreeStart,
};
use spendability_pir::witness::frontier::witness_scenario;
use spendability_pir::witness::tree::CommitmentTreeDb;

fn make_leaf(tag: u64) -> [u8; 32] {
    let mut hash = [0u8; 32];
    hash[..8].copy_from_slice(&tag.to_le_bytes());
    hash
}

#[test]
fn spillover_slice_keeps_only_commitments_past_offset() {
    let commitments = vec![make_leaf(1), make_leaf(2), make_leaf(3), make_leaf(4)];

    let spillover = spillover_from_commitments(&commitments, 6, 4);

    assert_eq!(spillover, vec![make_leaf(3), make_leaf(4)]);
}

#[test]
fn spillover_is_empty_before_and_whole_far_past_the_offset() {
    let commitments = vec![make_leaf(1), make_leaf(2)];
    assert!(spillover_from_commitments(&commitments, 4, 4).is_empty());
    assert_eq!(spillover_from_commitments(&commitments, 100, 4), commitments);
}

#[test]
fn validate_prior_tree_size_rejects_drift() {
    let mut tree = CommitmentTreeDb::new();
    tree.append_commitments(100, [1u8; 32], &[make_leaf(1), make_leaf(2)]);

    let err = validate_prior_tree_size(&tree, 101, Some(1), "test").unwrap_err();

    match err {
        ServerError::TreeSizeMismatch {
            context,
            height,
            expected,
            actual,
        } => {
            assert_eq!(context, "test");
            assert_eq!(height, 101);
            assert_eq!(expected, 1);
            assert_eq!(actual, 2);
        }
        other => panic!("expected TreeSizeMismatch, got {other:?}"),
    }
    assert!(validate_prior_tree_size(&tree, 101, Some(2), "test").is_ok());
    assert!(validate_prior_tree_size(&tree, 101, None, "test").is_ok());
}

fn one_action_block(height: u64, hash: u8, nullifier: [u8; 32], cmx: [u8; 32], size: u32) -> ValidatedBlock {
    ValidatedBlock {
        block: CompactBlock {
            height,
            hash: vec![hash; 32],
            prev_hash: vec![hash - 1; 32],
            vtx: vec![CompactTx {
                ironwood_actions: vec![CompactOrchardAction {
                    nullifier: nullifier.to_vec(),
                    cmx: cmx.to_vec(),
                    ephemeral_key: vec![3; 32],
                    ciphertext: vec![4; 52],
                }],
                ..Default::default()
            }],
            chain_metadata: Some(ChainMetadata {
                ironwood_commitment_tree_size: size,
                ..Default::default()
            }),
            ..Default::default()
        },
        hash: [hash; 32],
        prev_hash: [hash - 1; 32],
    }
}

#[test]
fn one_validated_block_feeds_both_stores() {
    let nullifier = [7; 32];
    let commitment = [2; 32];
    let block = one_action_block(10, 10, nullifier, commitment, 1);
    let mut hashtable = HashTableDb::new();
    let mut tree = CommitmentTreeDb::new();

    apply_block(&block, Some(&mut hashtable), Some(&mut tree), "test").unwrap();

    assert!(hashtable.contains(&nullifier));
    assert_eq!(tree.leaves(), &[commitment]);
    assert_eq!(hashtable.latest_height(), tree.latest_height());
}

#[test]
fn a_refused_block_reaches_neither_store() {
    let mut hashtable = HashTableDb::new();
    let mut tree = CommitmentTreeDb::new();
    let drifted = one_action_block(10, 10, [7; 32], [2; 32], 9);
    match apply_block(&drifted, Some(&mut hashtable), Some(&mut tree), "test") {
        Err(error) => assert_eq!(
            error.message(),
            "witness server error: test tree size mismatch before appending block 10: expected 8, got 0"
        ),
        Ok(_) => panic!("tree sizes differ"),
    }
    assert!(hashtable.is_empty());
    assert_eq!(tree.tree_size(), 0);
    let counts = apply_block(&drifted, Some(&mut hashtable), None, "test").unwrap();
    assert_eq!(counts, (1, 0));
    assert!(shared_tip(&hashtable, &tree).is_err());

    let mut malformed = one_action_block(11, 11, [8; 32], [2; 32], 1);
    malformed.block.vtx[0].ironwood_actions[0].nullifier.pop();
    assert!(matches!(
        apply_block(&malformed, Some(&mut hashtable), Some(&mut tree), "test"),
        Err(combined::ServerError::Ironwood(_))
    ));
    assert_eq!(apply_block(&malformed, None, Some(&mut tree), "test").unwrap(), (0, 1));
    assert_eq!(hashtable.len(), 1);
}

#[test]
fn shared_events_move_both_stores() {
    let mut hashtable = HashTableDb::new();
    let mut tree = CommitmentTreeDb::new();
    for h in 1..=4u8 {
        let block = one_action_block(h as u64, h, [h; 32], [h; 32], h as u32);
        assert!(combined::apply_event(
            &mut hashtable,
            &mut tree,
            &BlockEvent::NewBlock(block),
            3
        )
        .unwrap());
    }
    assert_eq!(hashtable.len(), 3);
    assert_eq!(tree.tree_size(), 4);
    let tip = shared_tip(&hashtable, &tree).unwrap();
    assert_eq!((tip.height, tip.hash), (4, [4; 32]));
    assert!(!combined::apply_event(
        &mut hashtable,
        &mut tree,
        &BlockEvent::Reorg { rollback_to: 2 },
        3
    )
    .unwrap());
    assert_eq!(hashtable.latest_height(), Some(2));
    assert_eq!(tree.latest_height(), Some(2));
    assert_eq!(tree.tree_size(), 2);
    let tip = shared_tip(&hashtable, &tree).unwrap();
    assert_eq!((tip.height, tip.hash), (2, [2; 32]));
}

#[test]
fn shared_sync_feeds_each_store_from_its_height() {
    let mut hashtable = HashTableDb::new();
    let mut tree = CommitmentTreeDb::new();
    let first = one_action_block(5, 5, [5; 32], [5; 32], 1);
    combined::sync_block(&mut hashtable, &mut tree, &first, 6, 5, 10).unwrap();
    assert!(hashtable.is_empty());
    assert_eq!(tree.tree_size(), 1);
    let second = one_action_block(6, 6, [6; 32], [6; 32], 2);
    combined::sync_block(&mut hashtable, &mut tree, &second, 6, 5, 10).unwrap();
    assert_eq!(hashtable.len(), 1);
    assert_eq!(tree.tree_size(), 2);
}

#[test]
fn nullifier_events_insert_and_rewind() {
    let mut table = HashTableDb::new();
    for h in 1..=3u8 {
        let event = BlockEvent::NewBlock(one_action_block(h as u64, h, [h; 32], [h; 32], 1));
        nf::apply_event(&mut table, &event).unwrap();
    }
    nf::apply_event(&mut table, &BlockEvent::Reorg { rollback_to: 1 }).unwrap();
    assert_eq!(table.latest_height(), Some(1));
    assert!(!table.contains(&[2; 32]));
    let error = nf::ServerError::HashTable(HashTableError::BucketOverflow { bucket_idx: 4 });
    assert_eq!(error.message(), "hashtable error: bucket 4 overflow");
}

#[test]
fn witness_events_append_and_roll_back() {
    let mut tree = CommitmentTreeDb::new();
    for h in 1..=3u8 {
        let event = BlockEvent::NewBlock(one_action_block(h as u64, h, [h; 32], [h; 32], h as u32));
        wit::apply_event(&mut tree, &event).unwrap();
    }
    wit::apply_event(&mut tree, &BlockEvent::Reorg { rollback_to: 2 }).unwrap();
    assert_eq!(tree.tree_size(), 2);
    assert_eq!(wit::anchor_height(&tree), 2);
    let stale = BlockEvent::NewBlock(one_action_block(3, 3, [3; 32], [3; 32], 9));
    match wit::apply_event(&mut tree, &stale) {
        Err(error) => assert_eq!(
            error.message(),
            "follow mode tree size mismatch before appending block 3: expected 8, got 2"
        ),
        Ok(()) => panic!("tree sizes differ"),
    }
}

fn root(tag: u64, height: u64) -> SubtreeRoot {
    SubtreeRoot {
        root_hash: make_leaf(tag).to_vec(),
        completing_block_height: height,
    }
}

#[test]
fn windows_begin_after_the_shards_before_them() {
    assert!(matches!(
        plan_tree(vec![root(1, 5), root(2, 9)], 8, 2),
        Ok(TreeStart::Activation)
    ));
    let start = plan_tree(vec![root(1, 5), root(2, 9), root(3, 20)], 10, 2).unwrap();
    assert_eq!(sync_start(&start, ZcashNetwork::Main), 6);
    match start {
        TreeStart::Window {
            prefetched,
            completing_height,
        } => {
            assert_eq!(prefetched, vec![make_leaf(1)]);
            assert_eq!(completing_height, 5);
        }
        TreeStart::Activation => panic!("two shards are complete"),
    }
    assert_eq!(sync_start(&TreeStart::Activation, ZcashNetwork::Test), 4_134_000);
    let mut bad = root(1, 5);
    bad.root_hash.pop();
    match plan_tree(vec![root(7, 1), bad, root(2, 9)], 10, 1) {
        Err(error) => assert_eq!(
            error.message(),
            "malformed Ironwood subtree root at index 1"
        ),
        Ok(_) => panic!("a root is malformed"),
    }
}

#[test]
fn windows_open_with_the_completing_block() {
    let mut block = one_action_block(5, 5, [5; 32], [5; 32], 65_538).block;
    let action = block.vtx[0].ironwood_actions[0].clone();
    let mut second = action.clone();
    second.cmx = make_leaf(8).to_vec();
    let mut third = action.clone();
    third.cmx = make_leaf(9).to_vec();
    block.vtx[0].ironwood_actions = vec![action, second, third];
    let tree = open_window(vec![make_leaf(1)], 5, &vec![block.clone()]).unwrap();
    assert_eq!(tree.leaf_offset(), 65_536);
    assert_eq!(tree.leaves(), &[make_leaf(8), make_leaf(9)]);
    assert_eq!(tree.latest_height(), Some(5));

    let text = |blocks: Vec<CompactBlock>, height: u64| {
        match open_window(vec![make_leaf(1)], height, &blocks) {
            Err(error) => error.message(),
            Ok(_) => panic!("the window cannot open"),
        }
    };
    assert_eq!(
        text(vec![], 5),
        "lightwalletd returned no block at height 5 while bootstrapping windowed sync"
    );
    assert_eq!(
        text(vec![block.clone()], 6),
        "lightwalletd returned height 5 while requesting completing block 6"
    );
    block.hash.pop();
    assert_eq!(text(vec![block], 5), "malformed block hash at height 5");
}

#[test]
fn sync_plans() {
    let main = ZcashNetwork::Main;
    assert_eq!(min_sync_height(3_428_142, main), 1);
    assert_eq!(min_sync_height(3_428_143, main), 3_428_143);
    assert_eq!(forward_start(true, Some(7), 100, main), 8);
    assert_eq!(forward_start(true, None, 100, main), 100);
    assert_eq!(forward_start(false, None, 100, main), 1);
    assert_eq!(forward_start(false, None, 3_500_000, main), 3_450_000);
    assert_eq!(forward_start(false, None, 3_450_000, main), 3_428_143);
    assert_eq!(resume_from(Some(4), main), 5);
    assert_eq!(resume_from(None, main), 3_428_143);
    assert_eq!(confirmed_height(15, 10), 5);
    assert_eq!(confirmed_height(3, 10), 0);
    assert_eq!(sync_progress(999, 5000), None);
    assert_eq!(
        sync_progress(2000, 5000),
        Some(ServerPhase::Syncing {
            current_height: 2000,
            target_height: 5000
        })
    );

    let mut backfill = Backfill::new(150_000, 40_000);
    assert_eq!(backfill.next_range(0, 10), Some((100_000, 149_999)));
    assert_eq!(backfill.next_range(10, 10), None);
    backfill.advance();
    assert_eq!(backfill.next_range(0, 10), Some((50_000, 99_999)));
    backfill.advance();
    assert_eq!(backfill.next_range(0, 10), Some((40_000, 49_999)));
    backfill.advance();
    assert_eq!(backfill.next_range(0, 10), None);

    let mut counter = SnapshotCounter::new();
    counter.count();
    assert!(!counter.take_due(2));
    counter.count();
    assert!(counter.take_due(2));
    assert!(!counter.take_due(2));
}

struct StubEngine {
    fail: bool,
}

impl PirEngine for StubEngine {
    type ServerState = Vec<u8>;
    type Error = YpirError;

    fn setup(&self, db_bytes: &[u8], _scenario: &YpirScenario) -> Result<Vec<u8>, YpirError> {
        if self.fail {
            Err(YpirError::Setup("stub".to_owned()))
        } else {
            Ok(db_bytes.to_vec())
        }
    }

    fn answer_query(&self, state: &Vec<u8>, query_bytes: &[u8]) -> Result<Vec<u8>, YpirError> {
        match query_bytes.first() {
            Some(row) => Ok(vec![state[*row as usize]]),
            None => Err(YpirError::Query("empty".to_owned())),
        }
    }
}

#[test]
fn rebuilding_hands_the_database_to_the_engine() {
    let mut table = HashTableDb::new();
    table.insert_block(3, [3; 32], &[[9; 32]]).unwrap();
    let scenario = nullifier_scenario();
    let state = nf::rebuild_pir(&StubEngine { fail: false }, &table, &scenario, ZcashNetwork::Main)
        .unwrap();
    assert_eq!(state.engine_state, table.to_pir_bytes());
    assert_eq!(state.metadata.nullifier_pool, "ironwood");
    assert_eq!(state.metadata.num_nullifiers, 1);
    assert_eq!(state.metadata.earliest_height, 3);
    assert_eq!(state.metadata.num_buckets, 16_384);
    match nf::rebuild_pir(&StubEngine { fail: true }, &table, &scenario, ZcashNetwork::Main) {
        Err(error) => assert_eq!(
            error.message(),
            "pir setup failed: YPIR setup failed: stub"
        ),
        Ok(_) => panic!("the engine fails"),
    }

    let mut tree = CommitmentTreeDb::new();
    tree.append_commitments(1, [1; 32], &[[0; 32]]);
    let state = rebuild_pir(
        &StubEngine { fail: false },
        &mut tree,
        &witness_scenario(),
        1,
        ZcashNetwork::Main,
    )
    .unwrap();
    assert_eq!(state.engine_state.len(), 33_554_432);
    assert_eq!(state.metadata.tree_size, 1);
    assert_eq!(state.metadata.commitment_pool, "ironwood");
    assert_eq!(state.broadcast.anchor_height, 1);
    assert_eq!(YpirError::Query("q".to_owned()).message(), "YPIR query failed: q");
}

#[test]
fn witness_params_are_known_before_setup() {
    assert_eq!(
        route(Message::WitnessParamsReq, false),
        Handling::WitnessParams
    );
    for request in [
        Message::WitnessMetadataReq,
        Message::WitnessBroadcastReq,
        Message::WitnessQueryReq,
        Message::HealthReq,
        Message::NullifierQueryReq,
    ] {
        assert_eq!(route(request, false), Handling::Unavailable);
    }
    assert_eq!(
        route(Message::WitnessMetadataReq, true),
        Handling::WitnessMetadata
    );
    assert_eq!(
        route(Message::WitnessBroadcastReq, true),
        Handling::WitnessBroadcast
    );
    assert_eq!(route(Message::WitnessQueryReq, true), Handling::WitnessQuery);
    assert_eq!(route(Message::HealthReq, true), Handling::Unavailable);
    assert_eq!(
        route(Message::NullifierParamsReq, true),
        Handling::Unavailable
    );
}

#[test]
fn queries_go_to_the_live_database() {
    let engine = StubEngine { fail: false };
    assert!(matches!(
        answer_query(&engine, None, &[0]),
        Err(P2PError::ServiceUnavailable)
    ));
    let mut tree = CommitmentTreeDb::new();
    let mut leaf = [0u8; 32];
    leaf[5] = 77;
    tree.append_commitments(1, [1; 32], &[leaf]);
    let state =
        rebuild_pir(&engine, &mut tree, &witness_scenario(), 1, ZcashNetwork::Test).unwrap();
    assert_eq!(answer_query(&engine, Some(&state.engine_state), &[5]).unwrap(), vec![77]);
    match answer_query(&engine, Some(&state.engine_state), &[]) {
        Err(P2PError::QueryError(reason)) => assert_eq!(reason, "YPIR query failed: empty"),
        other => panic!("unexpected {other:?}"),
    }
}

#[test]
fn nullifier_queries_go_to_the_live_database() {
    let engine = StubEngine { fail: false };
    let mut table = HashTableDb::new();
    let mut nullifier = [0u8; 32];
    nullifier[8] = 99;
    table.insert_block(3, [3; 32], &[nullifier]).unwrap();
    let state =
        nf::rebuild_pir(&engine, &table, &nullifier_scenario(), ZcashNetwork::Test).unwrap();
    assert_eq!(answer_query(&engine, Some(&state.engine_state), &[8]).unwrap(), vec![99]);
    assert!(matches!(
        answer_query(&engine, Some(&state.engine_state), &[]),
        Err(P2PError::QueryError(_))
    ));
}

#[test]
fn shared_sync_starts_at_the_lower_height() {
    assert_eq!(shared_start(5, 3, 10), Some(3));
    assert_eq!(shared_start(3, 5, 3), Some(3));
    assert_eq!(shared_start(4, 4, 4), Some(4));
    assert_eq!(shared_start(5, 6, 4), None);
}
