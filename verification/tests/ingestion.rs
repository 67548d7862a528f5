use prost::bytes::{Buf, BufMut};
use prost::encoding::{self, DecodeContext, WireType};
use prost::Message;
use spendability_pir::ingest::commitment::{
    extract_commitments, ironwood_prior_tree_size, ParseError,
};
use spendability_pir::ingest::dataset::{
    ensure_ironwood_dataset, marker_for, Artifact, DatasetError, DatasetMarker, MarkerAction,
    DATASET_MARKER_FILENAME,
};
use spendability_pir::ingest::follow::{history_start, BlockSync, Follower};
use spendability_pir::ingest::ironwood::{
    extract_ironwood_nullifiers, nu6_3_activation_height, validate_ironwood_tree_state,
    EndpointError, IronwoodError, NU6_3_MAINNET_ACTIVATION_HEIGHT, NU6_3_TESTNET_ACTIVATION_HEIGHT,
};
use spendability_pir::ingest::pipeline::{validate_range, PipelineError};
use spendability_pir::ingest::proto::{
    ChainMetadata, CompactBlock, CompactOrchardAction, CompactTx, TreeState,
};
use spendability_pir::protocol::ZcashNetwork;

#[derive(Debug, Default, Clone, PartialEq)]
struct WireAction {
    nullifier: Vec<u8>,
    cmx: Vec<u8>,
    ephemeral_key: Vec<u8>,
    ciphertext: Vec<u8>,
}

impl Message for WireAction {
    fn encode_raw(&self, buf: &mut impl BufMut) {
        encoding::bytes::encode(1, &self.nullifier, buf);
        encoding::bytes::encode(2, &self.cmx, buf);
        encoding::bytes::encode(3, &self.ephemeral_key, buf);
        encoding::bytes::encode(4, &self.ciphertext, buf);
    }

    fn merge_field(
        &mut self,
        tag: u32,
        wire_type: WireType,
        buf: &mut impl Buf,
        ctx: DecodeContext,
    ) -> Result<(), prost::DecodeError> {
        match tag {
            1 => encoding::bytes::merge(wire_type, &mut self.nullifier, buf, ctx),
            2 => encoding::bytes::merge(wire_type, &mut self.cmx, buf, ctx),
            3 => encoding::bytes::merge(wire_type, &mut self.ephemeral_key, buf, ctx),
            4 => encoding::bytes::merge(wire_type, &mut self.ciphertext, buf, ctx),
            _ => encoding::skip_field(wire_type, tag, buf, ctx),
        }
    }

    fn encoded_len(&self) -> usize {
        encoding::bytes::encoded_len(1, &self.nullifier)
            + encoding::bytes::encoded_len(2, &self.cmx)
            + encoding::bytes::encoded_len(3, &self.ephemeral_key)
            + encoding::bytes::encoded_len(4, &self.ciphertext)
    }

    fn clear(&mut self) {
        *self = WireAction::default();
    }
}

#[derive(Debug, Default, Clone, PartialEq)]
struct WireTx {
    actions: Vec<WireAction>,
    ironwood_actions: Vec<WireAction>,
}

impl Message for WireTx {
    fn encode_raw(&self, buf: &mut impl BufMut) {
        encoding::message::encode_repeated(6, &self.actions, buf);
        encoding::message::encode_repeated(9, &self.ironwood_actions, buf);
    }

    fn merge_field(
        &mut self,
        tag: u32,
        wire_type: WireType,
        buf: &mut impl Buf,
        ctx: DecodeContext,
    ) -> Result<(), prost::DecodeError> {
        match tag {
            6 => encoding::message::merge_repeated(wire_type, &mut self.actions, buf, ctx),
            9 => encoding::message::merge_repeated(wire_type, &mut self.ironwood_actions, buf, ctx),
            _ => encoding::skip_field(wire_type, tag, buf, ctx),
        }
    }

    fn encoded_len(&self) -> usize {
        encoding::message::encoded_len_repeated(6, &self.actions)
            + encoding::message::encoded_len_repeated(9, &self.ironwood_actions)
    }

    fn clear(&mut self) {
        *self = WireTx::default();
    }
}

fn from_wire_action(wire: WireAction) -> CompactOrchardAction {
    CompactOrchardAction {
        nullifier: wire.nullifier,
        cmx: wire.cmx,
        ephemeral_key: wire.ephemeral_key,
        ciphertext: wire.ciphertext,
    }
}

fn from_wire(wire: WireTx) -> CompactTx {
    CompactTx {
        actions: wire.actions.into_iter().map(from_wire_action).collect(),
        ironwood_actions: wire.ironwood_actions.into_iter().map(from_wire_action).collect(),
        ..Default::default()
    }
}

#[test]
fn decodes_and_extracts_tag_nine_only() {
    let mut encoded = vec![0x4a, 0x22, 0x0a, 0x20];
    encoded.extend([7u8; 32]);
    let tx = from_wire(WireTx::decode(encoded.as_slice()).unwrap());
    assert_eq!(tx.ironwood_actions[0].nullifier, vec![7; 32]);

    let block = CompactBlock {
        height: NU6_3_MAINNET_ACTIVATION_HEIGHT,
        vtx: vec![CompactTx {
            actions: vec![CompactOrchardAction {
                nullifier: vec![1; 32],
                ..Default::default()
            }],
            ironwood_actions: vec![CompactOrchardAction {
                nullifier: vec![2; 32],
                ..Default::default()
            }],
            ..Default::default()
        }],
        ..Default::default()
    };
    assert_eq!(extract_ironwood_nullifiers(&block).unwrap(), vec![[2; 32]]);
}

#[test]
fn validates_tree_state() {
    let state = TreeState {
        network: "main".into(),
        height: NU6_3_MAINNET_ACTIVATION_HEIGHT,
        ironwood_tree: "00".into(),
        ..Default::default()
    };
    validate_ironwood_tree_state(ZcashNetwork::Main, state.height, &state).unwrap();
}

#[test]
fn tree_states_of_another_chain_are_refused() {
    let mut state = TreeState {
        network: "main".into(),
        height: 10,
        ironwood_tree: "00".into(),
        ..Default::default()
    };
    let wrong = validate_ironwood_tree_state(ZcashNetwork::Test, 10, &state).unwrap_err();
    assert_eq!(
        wrong,
        IronwoodError::WrongNetwork {
            actual: "main".into(),
            expected: ZcashNetwork::Test
        }
    );
    assert_eq!(
        wrong.message(),
        "lightwalletd returned network \"main\"; expected test"
    );
    let height = validate_ironwood_tree_state(ZcashNetwork::Main, 11, &state).unwrap_err();
    assert_eq!(
        height.message(),
        "lightwalletd returned tree state height 10; expected 11"
    );
    state.ironwood_tree = String::new();
    let missing = validate_ironwood_tree_state(ZcashNetwork::Main, 10, &state).unwrap_err();
    assert_eq!(missing, IronwoodError::MissingTree { height: 10 });
    assert_eq!(
        EndpointError::Invalid(missing).message(),
        "lightwalletd omitted the Ironwood tree at height 10"
    );
    assert_eq!(nu6_3_activation_height(ZcashNetwork::Main), 3_428_143);
    assert_eq!(
        nu6_3_activation_height(ZcashNetwork::Test),
        NU6_3_TESTNET_ACTIVATION_HEIGHT
    );
}

fn action(byte: u8) -> CompactOrchardAction {
    CompactOrchardAction {
        nullifier: vec![byte; 32],
        cmx: vec![byte; 32],
        ephemeral_key: vec![byte; 32],
        ciphertext: vec![byte; 52],
    }
}

#[test]
fn extracts_only_strict_ironwood_actions() {
    let block = CompactBlock {
        height: 10,
        vtx: vec![CompactTx {
            actions: vec![action(1)],
            ironwood_actions: vec![action(2)],
            ..Default::default()
        }],
        ..Default::default()
    };
    let commitments = extract_commitments(&block).unwrap();
    assert_eq!(commitments, vec![[2; 32]]);
}

#[test]
fn rejects_malformed_action() {
    let mut malformed = action(1);
    malformed.cmx.pop();
    let block = CompactBlock {
        height: 10,
        vtx: vec![CompactTx {
            ironwood_actions: vec![malformed],
            ..Default::default()
        }],
        ..Default::default()
    };
    assert!(matches!(
        extract_commitments(&block),
        Err(ParseError::InvalidField {
            field: "commitment",
            actual: 31,
            ..
        })
    ));

    let noncanonical = CompactBlock {
        height: 10,
        vtx: vec![CompactTx {
            ironwood_actions: vec![action(0xff)],
            ..Default::default()
        }],
        ..Default::default()
    };
    assert!(matches!(
        extract_commitments(&noncanonical),
        Err(ParseError::NonCanonicalCommitment { .. })
    ));
}

#[test]
fn reads_ironwood_tree_size() {
    let block = CompactBlock {
        chain_metadata: Some(ChainMetadata {
            ironwood_commitment_tree_size: 42,
            ..Default::default()
        }),
        ..Default::default()
    };
    assert_eq!(ironwood_prior_tree_size(&block, 2).unwrap(), 40);
}

#[test]
fn field_modulus_bounds_commitments() {
    // The modulus, little-endian, and the element just below it.
    let mut modulus = vec![0u8; 32];
    modulus[..16].copy_from_slice(&0x224698fc094cf91b992d30ed00000001u128.to_le_bytes());
    modulus[31] = 0x40;
    let mut below = modulus.clone();
    below[0] = 0;
    let block = |cmx: Vec<u8>| CompactBlock {
        height: 10,
        vtx: vec![CompactTx {
            ironwood_actions: vec![CompactOrchardAction {
                cmx,
                ..Default::default()
            }],
            ..Default::default()
        }],
        ..Default::default()
    };
    assert_eq!(
        extract_commitments(&block(modulus)),
        Err(ParseError::NonCanonicalCommitment { height: 10 })
    );
    assert_eq!(extract_commitments(&block(below.clone())).unwrap()[0].to_vec(), below);
}

#[test]
fn first_malformed_nullifier_is_reported() {
    let mut short = action(3);
    short.nullifier.truncate(5);
    let mut long = action(4);
    long.nullifier.push(0);
    let block = CompactBlock {
        height: 77,
        vtx: vec![
            CompactTx {
                ironwood_actions: vec![action(1), action(2)],
                ..Default::default()
            },
            CompactTx {
                ironwood_actions: vec![short, long],
                ..Default::default()
            },
        ],
        ..Default::default()
    };
    let error = extract_ironwood_nullifiers(&block).unwrap_err();
    assert_eq!(
        error,
        IronwoodError::InvalidNullifier {
            height: 77,
            actual: 5
        }
    );
    assert_eq!(
        error.message(),
        "Ironwood nullifier at height 77 has 5 bytes; expected 32"
    );
}

#[test]
fn tree_size_errors_have_texts() {
    let missing = ironwood_prior_tree_size(&CompactBlock { height: 5, ..Default::default() }, 1)
        .unwrap_err();
    assert_eq!(
        missing.message(),
        "compact block at height 5 omitted Ironwood tree-size metadata"
    );
    let block = CompactBlock {
        height: 6,
        chain_metadata: Some(ChainMetadata {
            ironwood_commitment_tree_size: 1,
            ..Default::default()
        }),
        ..Default::default()
    };
    assert_eq!(
        ironwood_prior_tree_size(&block, 2).unwrap_err().message(),
        "Ironwood tree size 1 at height 6 is smaller than its 2 commitments"
    );
    assert_eq!(
        ParseError::InvalidField {
            height: 1,
            field: "commitment",
            actual: 31,
            expected: 32
        }
        .message(),
        "Ironwood commitment at height 1 has 31 bytes; expected 32"
    );
    assert_eq!(
        ParseError::NonCanonicalCommitment { height: 8 }.message(),
        "Ironwood commitment at height 8 is not canonically encoded"
    );
}

fn block(height: u64, hash: u8, prev: u8) -> CompactBlock {
    CompactBlock {
        height,
        hash: vec![hash; 32],
        prev_hash: vec![prev; 32],
        ..Default::default()
    }
}

#[test]
fn validates_complete_linked_range() {
    let blocks =
        validate_range(vec![block(10, 10, 9), block(11, 11, 10)], 10, 11, None).unwrap();
    assert_eq!(blocks.len(), 2);
}

#[test]
fn rejects_missing_block_before_emission() {
    let error = validate_range(vec![block(10, 10, 9)], 10, 11, None).unwrap_err();
    assert!(matches!(error, PipelineError::IncompleteRange { .. }));
}

#[test]
fn rejects_broken_link_and_malformed_hash() {
    assert!(matches!(
        validate_range(vec![block(10, 10, 9), block(11, 11, 8)], 10, 11, None),
        Err(PipelineError::BrokenLink { height: 11 })
    ));
    let mut malformed = block(10, 10, 9);
    malformed.hash.pop();
    assert!(matches!(
        validate_range(vec![malformed], 10, 10, None),
        Err(PipelineError::InvalidHash { actual: 31, .. })
    ));
}

#[test]
fn range_errors_have_texts() {
    let text = |result: Result<Vec<_>, PipelineError>| -> String {
        let _: &Result<Vec<spendability_pir::ingest::pipeline::ValidatedBlock>, PipelineError> =
            &result;
        result.unwrap_err().message()
    };
    assert_eq!(
        text(validate_range(vec![block(12, 1, 0)], 10, 11, None)),
        "block range returned height 12; expected 10"
    );
    assert_eq!(
        text(validate_range(vec![block(10, 1, 0)], 10, 11, None)),
        "block range ended at height 10; expected 11"
    );
    assert_eq!(
        text(validate_range(vec![block(10, 1, 0)], 10, 10, Some([9; 32]))),
        "block 10 does not link to the preceding block"
    );
    let mut malformed = block(10, 1, 0);
    malformed.prev_hash.clear();
    assert_eq!(
        text(validate_range(vec![malformed], 10, 10, None)),
        "block 10 has a 0-byte previous hash; expected 32"
    );
    assert_eq!(
        PipelineError::ConsumerDropped.message(),
        "block consumer dropped"
    );
    assert_eq!(
        PipelineError::InvalidBlock {
            height: 4,
            reason: "odd".to_owned()
        }
        .message(),
        "invalid block 4: odd"
    );
}

#[test]
fn sync_goes_in_linked_batches() {
    let mut sync = BlockSync::new(5, 20_010, None);
    assert_eq!(sync.next_range(), Some((5, 10_004)));
    let batch = |from: u64, to: u64| -> Vec<CompactBlock> {
        (from..=to)
            .map(|h| {
                let mut b = block(h, 0, 0);
                b.hash[..8].copy_from_slice(&h.to_le_bytes());
                b.prev_hash[..8].copy_from_slice(&(h - 1).to_le_bytes());
                b
            })
            .collect()
    };
    assert!(sync.accept(batch(5, 10_003)).is_err());
    assert_eq!(sync.next_range(), Some((5, 10_004)));
    assert_eq!(sync.accept(batch(5, 10_004)).unwrap().len(), 10_000);
    assert_eq!(sync.next_range(), Some((10_005, 20_004)));
    let mut broken = batch(10_005, 20_004);
    broken[0].prev_hash[0] ^= 1;
    assert!(matches!(
        sync.accept(broken),
        Err(PipelineError::BrokenLink { height: 10_005 })
    ));
    sync.accept(batch(10_005, 20_004)).unwrap();
    assert_eq!(sync.next_range(), Some((20_005, 20_010)));
    sync.accept(batch(20_005, 20_010)).unwrap();
    assert_eq!(sync.next_range(), None);
}

#[test]
fn follower_finds_the_fork_and_catches_up() {
    assert_eq!(history_start(0, 20), 0);
    assert_eq!(history_start(5, 20), 1);
    assert_eq!(history_start(100, 20), 81);
    assert_eq!(history_start(7, 0), 7);

    let chain = |from: u8, to: u8| -> Vec<CompactBlock> {
        (from..=to).map(|h| block(h as u64, h, h - 1)).collect()
    };
    let mut follower = Follower::begin(10, [10; 32], 10, 5, chain(6, 10)).unwrap();
    let poll = follower.plan_poll(22).unwrap();
    assert_eq!((poll.target, poll.from, poll.to), (12, 6, 10));
    let mut advance = follower.settle(&poll, chain(6, 10)).unwrap();
    assert_eq!(advance.rollback_to, None);
    assert_eq!(advance.sync.next_range(), Some((11, 12)));
    let blocks = advance.sync.accept(chain(11, 12)).unwrap();
    follower.record(&blocks);
    assert_eq!(follower.current_height(), 12);

    // Heights 11 and 12 are replaced.
    let poll = follower.plan_poll(23).unwrap();
    assert_eq!((poll.target, poll.from, poll.to), (13, 8, 12));
    let mut overlap = chain(8, 10);
    overlap.push(block(11, 111, 10));
    overlap.push(block(12, 112, 111));
    let mut advance = follower.settle(&poll, overlap).unwrap();
    assert_eq!(advance.rollback_to, Some(10));
    assert_eq!(advance.sync.next_range(), Some((11, 13)));
    assert!(matches!(
        advance
            .sync
            .accept(vec![block(11, 111, 9), block(12, 112, 111), block(13, 113, 112)]),
        Err(PipelineError::BrokenLink { height: 11 })
    ));
    let blocks = advance
        .sync
        .accept(vec![block(11, 111, 10), block(12, 112, 111), block(13, 113, 112)])
        .unwrap();
    follower.record(&blocks);
    assert_eq!(follower.current_height(), 13);
    assert_eq!(advance.sync.next_range(), None);

    // A chain that shares nothing with the window.
    let poll = follower.plan_poll(23).unwrap();
    let strangers: Vec<CompactBlock> = (poll.from..=poll.to)
        .map(|h| block(h, h as u8 + 100, h as u8 + 99))
        .enumerate()
        .map(|(i, mut b)| {
            b.hash = vec![200 + i as u8; 32];
            b.prev_hash = vec![199 + i as u8; 32];
            b
        })
        .collect();
    match follower.settle(&poll, strangers) {
        Err(error) => assert_eq!(
            error.message(),
            "local block 13 no longer matches lightwalletd and the fork exceeds the 5-block tracking window"
        ),
        Ok(_) => panic!("no common block"),
    }
    assert!(follower.plan_poll(15).is_err());
}

#[test]
fn follower_starts_from_the_known_block() {
    match Follower::begin(3, [9; 32], 10, 2, vec![block(2, 2, 1), block(3, 3, 2)]) {
        Err(PipelineError::ReorgBeyondWindow { height, depth }) => {
            assert_eq!((height, depth), (3, 2))
        }
        _ => panic!("another block is known at height 3"),
    }
    assert!(matches!(
        Follower::begin(3, [3; 32], 10, 2, vec![block(3, 3, 2)]),
        Err(PipelineError::UnexpectedHeight {
            expected: 2,
            actual: 3
        })
    ));
}

#[test]
fn marker_binds_artifacts_to_network() {
    let artifacts = vec![Artifact {
        name: "snapshot.bin".to_owned(),
        exists: true,
    }];
    let none: Vec<Artifact> = vec![Artifact {
        name: "snapshot.bin".to_owned(),
        exists: false,
    }];
    assert_eq!(
        ensure_ironwood_dataset(None, ZcashNetwork::Main, &none).unwrap(),
        MarkerAction::Write
    );
    let marker = marker_for(ZcashNetwork::Main);
    assert_eq!(
        ensure_ironwood_dataset(Some(marker.clone()), ZcashNetwork::Main, &artifacts).unwrap(),
        MarkerAction::Keep
    );
    let other = ensure_ironwood_dataset(Some(marker), ZcashNetwork::Test, &artifacts).unwrap_err();
    assert!(matches!(other, DatasetError::WrongNetwork { .. }));
    assert_eq!(other.message(), "dataset is main; expected test");
    let wrong = ensure_ironwood_dataset(
        Some(DatasetMarker {
            zcash_network: ZcashNetwork::Main,
            pool: "orchard".to_owned(),
            dataset_version: 2,
        }),
        ZcashNetwork::Main,
        &artifacts,
    )
    .unwrap_err();
    assert!(matches!(wrong, DatasetError::WrongDataset { .. }));
    assert_eq!(
        wrong.message(),
        "dataset identifies pool \"orchard\" version 2; expected Ironwood version 2"
    );
    let unlabelled =
        ensure_ironwood_dataset(None, ZcashNetwork::Main, &artifacts).unwrap_err();
    assert!(matches!(unlabelled, DatasetError::UnlabelledArtifact { .. }));
    assert_eq!(
        unlabelled.message(),
        "snapshot.bin exists without dataset.json; rebuild it as Ironwood"
    );
    assert_eq!(DATASET_MARKER_FILENAME, "dataset.json");
}
