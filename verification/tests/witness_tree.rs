use incrementalmerkletree::Hashable;
use orchard::tree::MerkleHashOrchard;
use spendability_pir::client::error::WitnessClientError;
use spendability_pir::ingest::commitment::extract_commitments;
use spendability_pir::ingest::proto::{
    ChainMetadata, CompactBlock, CompactOrchardAction, CompactTx,
};
use spendability_pir::witness::frontier::{
    effective_window_shard_limit, FrontierHistory, FRONTIER_HISTORY_LIMIT,
};
use spendability_pir::witness::merkle::{
    all_canonical, compute_root_from_path, empty_root, extract_siblings, hash_combine,
    is_canonical,
};
use spendability_pir::witness::reconstruct::{
    can_rebuild, can_update, parse_subshard_leaves, reconstruct_witness, update_witness,
};
use spendability_pir::witness::tree::CommitmentTreeDb;
use spendability_pir::witness::types::{
    decompose_position, physical_row_index, FrontierUpdate, PirWitness, L0_MAX_SHARDS,
    SUBSHARD_LEAVES, SUBSHARD_ROW_BYTES, TREE_DEPTH,
};

type Hash32 = [u8; 32];

#[test]
fn parse_leaves_correct_count() {
    let row = vec![0u8; SUBSHARD_ROW_BYTES];
    let leaves = parse_subshard_leaves(&row).unwrap();
    assert_eq!(leaves.len(), SUBSHARD_LEAVES);
}

#[test]
fn parse_leaves_too_short() {
    let row = vec![0u8; SUBSHARD_ROW_BYTES - 1];
    assert!(parse_subshard_leaves(&row).is_err());
}

#[test]
fn short_rows_are_measured() {
    match parse_subshard_leaves(&[0; 10]) {
        Err(error) => assert_eq!(
            error.message(),
            "query failed: decoded row too short: 10 bytes, expected >= 8192"
        ),
        Ok(_) => panic!("too short"),
    }
    let mut row = vec![0u8; SUBSHARD_ROW_BYTES];
    row[3 * 32] = 7;
    assert_eq!(parse_subshard_leaves(&row).unwrap()[3][0], 7);
}

#[test]
fn empty_root_level_0_is_empty_leaf() {
    let root = empty_root(0);
    let expected = MerkleHashOrchard::empty_leaf().to_bytes();
    assert_eq!(root, expected);
    let mut two = [0u8; 32];
    two[0] = 2;
    assert_eq!(root, two);
}

#[test]
fn hash_combine_matches_protocol() {
    let a = MerkleHashOrchard::empty_leaf().to_bytes();
    let b = MerkleHashOrchard::empty_leaf().to_bytes();
    let combined = hash_combine(0, &a, &b);
    let expected = empty_root(1);
    assert_eq!(
        combined, expected,
        "H(0, empty, empty) should equal empty_root(1)"
    );
}

#[test]
fn empty_roots_stack() {
    for level in 0..32u8 {
        let below = empty_root(level);
        assert_eq!(hash_combine(level, &below, &below), empty_root(level + 1));
        assert!(is_canonical(&below));
    }
    assert!(!is_canonical(&[0xff; 32]));
    assert!(is_canonical(&[0; 32]));
    assert!(!all_canonical(&[[0; 32], [0xff; 32]]));
}

#[test]
fn combine_tells_children_and_levels_apart() {
    let a = leaf(1);
    let b = leaf(2);
    assert_ne!(hash_combine(0, &a, &b), hash_combine(0, &b, &a));
    assert_ne!(hash_combine(0, &a, &b), hash_combine(1, &a, &b));
}

#[test]
fn extract_siblings_power_of_two() {
    let empty_leaf = empty_root(0);
    let leaves = vec![empty_leaf; 4];
    let mut siblings = [[0u8; 32]; TREE_DEPTH];
    extract_siblings(&leaves, 0, 0, &mut siblings);
    assert_eq!(
        siblings[0], empty_leaf,
        "level 0 sibling of leaf 0 is leaf 1"
    );
    assert_eq!(
        siblings[1],
        empty_root(1),
        "level 1 sibling is root of pair (2,3)"
    );
}

fn leaf(tag: u64) -> Hash32 {
    let mut hash = [0u8; 32];
    hash[..8].copy_from_slice(&tag.to_le_bytes());
    hash
}

fn path_for(leaves: &[Hash32], position: usize) -> ([Hash32; TREE_DEPTH], Hash32) {
    let mut siblings = [[0u8; 32]; TREE_DEPTH];
    let mut current = leaves.to_vec();
    let mut index = position;

    for (level, sibling) in siblings.iter_mut().enumerate() {
        *sibling = current
            .get(index ^ 1)
            .copied()
            .unwrap_or_else(|| empty_root(level as u8));
        current = current
            .chunks(2)
            .map(|pair| {
                hash_combine(
                    level as u8,
                    &pair[0],
                    &pair
                        .get(1)
                        .copied()
                        .unwrap_or_else(|| empty_root(level as u8)),
                )
            })
            .collect();
        index /= 2;
    }

    (siblings, current[0])
}

fn frontier_for(height: u64, leaves: &[Hash32]) -> FrontierUpdate {
    let mut rightmost_nodes = [[0u8; 32]; TREE_DEPTH];
    let mut current = leaves.to_vec();
    let mut index = leaves.len() - 1;

    for (level, node) in rightmost_nodes.iter_mut().enumerate() {
        *node = current[index];
        current = current
            .chunks(2)
            .map(|pair| {
                hash_combine(
                    level as u8,
                    &pair[0],
                    &pair
                        .get(1)
                        .copied()
                        .unwrap_or_else(|| empty_root(level as u8)),
                )
            })
            .collect();
        index /= 2;
    }

    FrontierUpdate {
        height,
        tree_size: leaves.len() as u64,
        root: current[0],
        rightmost_nodes,
    }
}

#[test]
fn update_witness_advances_with_frontier_subshard_leaves() {
    let old_leaves = vec![leaf(1), leaf(2)];
    let (siblings, old_root) = path_for(&old_leaves, 0);
    let mut witness = PirWitness {
        position: 0,
        siblings,
        anchor_height: 100,
        anchor_root: old_root,
    };
    let new_leaves = vec![leaf(1), leaf(2), leaf(3)];
    let frontier = frontier_for(101, &new_leaves);
    let mut subshard = [empty_root(0); SUBSHARD_LEAVES];
    subshard[..new_leaves.len()].copy_from_slice(&new_leaves);

    let root = update_witness(&mut witness, &leaf(1), &frontier, Some(&subshard)).unwrap();

    assert_eq!(root, frontier.root);
    assert_eq!(witness.anchor_height, 101);
    assert_eq!(witness.anchor_root, frontier.root);
}

#[test]
fn update_witness_completed_subshard_needs_no_leaf_cache() {
    let old_leaves: Vec<_> = (1..=256).map(leaf).collect();
    let (siblings, old_root) = path_for(&old_leaves, 0);
    let mut witness = PirWitness {
        position: 0,
        siblings,
        anchor_height: 100,
        anchor_root: old_root,
    };
    let mut new_leaves = old_leaves;
    new_leaves.push(leaf(257));
    let frontier = frontier_for(101, &new_leaves);

    update_witness(&mut witness, &leaf(1), &frontier, None).unwrap();

    assert_eq!(witness.anchor_root, frontier.root);
}

#[test]
fn update_witness_fails_atomically_when_path_is_insufficient() {
    let old_leaves: Vec<_> = (1..=511).map(leaf).collect();
    let (siblings, old_root) = path_for(&old_leaves, 0);
    let mut witness = PirWitness {
        position: 0,
        siblings,
        anchor_height: 100,
        anchor_root: old_root,
    };
    let before = witness.clone();
    let mut new_leaves = old_leaves;
    new_leaves.extend([leaf(512), leaf(513)]);
    let frontier = frontier_for(101, &new_leaves);

    assert!(matches!(
        update_witness(&mut witness, &leaf(1), &frontier, None),
        Err(WitnessClientError::FrontierUpdateIncomplete(101))
    ));
    assert_eq!(witness, before);
}

#[test]
fn update_witness_refuses_foreign_frontiers() {
    let leaves = vec![leaf(1), leaf(2)];
    let (siblings, root) = path_for(&leaves, 1);
    let mut witness = PirWitness {
        position: 1,
        siblings,
        anchor_height: 100,
        anchor_root: root,
    };
    let mut frontier = frontier_for(100, &leaves);
    let text = |result: Result<Hash32, WitnessClientError>| match result {
        Err(WitnessClientError::InvalidFrontierUpdate(reason)) => reason,
        other => panic!("unexpected {other:?}"),
    };
    assert_eq!(
        text(update_witness(&mut witness, &leaf(2), &frontier, None)),
        "height 100 does not advance witness height 100"
    );
    frontier.height = 101;
    let strangers = [leaf(9); SUBSHARD_LEAVES];
    assert_eq!(
        text(update_witness(&mut witness, &leaf(2), &frontier, Some(&strangers))),
        "subshard leaves do not contain the witnessed commitment"
    );
    frontier.tree_size = 1;
    assert_eq!(
        text(update_witness(&mut witness, &leaf(2), &frontier, None)),
        "position 1 is outside tree size 1"
    );
    frontier.tree_size = 2;
    assert!(can_update(&witness, &leaf(2), &frontier, None));
    assert!(!can_update(&witness, &[0xff; 32], &frontier, None));
    assert_eq!(
        compute_root_from_path(1, &leaf(2), &witness.siblings),
        witness.anchor_root
    );
}

#[test]
fn tag_nine_block_reconstructs_ironwood_witness() {
    let commitment = |value: u64| {
        let mut cmx = [0; 32];
        cmx[..8].copy_from_slice(&value.to_le_bytes());
        CompactOrchardAction {
            nullifier: vec![value as u8; 32],
            cmx: cmx.to_vec(),
            ephemeral_key: vec![value as u8; 32],
            ciphertext: vec![value as u8; 52],
        }
    };
    let block = CompactBlock {
        height: 3_428_143,
        hash: vec![1; 32],
        prev_hash: vec![0; 32],
        vtx: vec![CompactTx {
            actions: vec![commitment(99)],
            ironwood_actions: vec![commitment(1), commitment(2)],
            ..Default::default()
        }],
        chain_metadata: Some(ChainMetadata {
            ironwood_commitment_tree_size: 2,
            ..Default::default()
        }),
        ..Default::default()
    };

    let commitments = extract_commitments(&block).unwrap();
    assert_eq!(commitments.len(), 2);
    let mut tree = CommitmentTreeDb::new();
    tree.append_commitments(block.height, [1; 32], &commitments);
    let expected_root = tree.tree_root();
    let (database, broadcast) = tree.build_pir_db_and_broadcast(block.height);

    let witness =
        reconstruct_witness(1, 0, 0, 1, &database[..SUBSHARD_ROW_BYTES], &broadcast).unwrap();
    assert_eq!(witness.anchor_root, expected_root);
}

/// Every level of the tree over `leaves`, from the leaves to the root.
fn levels_over(leaves: &[Hash32]) -> Vec<Vec<Hash32>> {
    let mut levels = vec![leaves.to_vec()];
    for level in 0..TREE_DEPTH as u8 {
        let empty = empty_root(level);
        let above = levels[level as usize]
            .chunks(2)
            .map(|pair| {
                let right = pair.get(1).copied().unwrap_or(empty);
                if pair[0] == empty && right == empty {
                    empty_root(level + 1)
                } else {
                    hash_combine(level, &pair[0], &right)
                }
            })
            .collect();
        levels.push(above);
    }
    levels
}

#[test]
fn witnesses_anchor_to_the_root_across_subshards() {
    let mut leaves = vec![empty_root(0); 700];
    for at in [0usize, 1, 7, 255, 256, 300, 511, 512, 698, 699] {
        leaves[at] = leaf(at as u64 + 10);
    }
    let levels = levels_over(&leaves);
    let root = levels[TREE_DEPTH][0];
    let mut tree = CommitmentTreeDb::new();
    tree.append_commitments(1, [1; 32], &leaves[..300]);
    tree.append_commitments(2, [2; 32], &leaves[300..]);
    assert_eq!(tree.tree_root(), root);
    let (database, broadcast) = tree.build_pir_db_and_broadcast(2);
    assert_eq!(broadcast.window_start_shard, 0);
    assert_eq!(broadcast.window_shard_count, 1);
    for position in [0u64, 255, 256, 511, 699] {
        let (shard, subshard, index) = decompose_position(position);
        let row = physical_row_index(shard, subshard, broadcast.window_start_shard);
        let bytes = &database[row * SUBSHARD_ROW_BYTES..(row + 1) * SUBSHARD_ROW_BYTES];
        assert!(can_rebuild(shard, bytes, &broadcast));
        let witness =
            reconstruct_witness(position, shard, subshard, index, bytes, &broadcast).unwrap();
        for (level, sibling) in witness.siblings.iter().enumerate() {
            let expected = levels[level]
                .get((position as usize >> level) ^ 1)
                .copied()
                .unwrap_or_else(|| empty_root(level as u8));
            assert_eq!(*sibling, expected);
        }
        assert_eq!(witness.anchor_root, root);
        assert_eq!(witness.anchor_height, 2);
        assert_eq!(witness.leaf_index(), index);
    }
}

#[test]
fn witnesses_that_miss_the_anchor_are_refused() {
    let mut tree = CommitmentTreeDb::new();
    let mut leaves = vec![empty_root(0); 300];
    for at in [0usize, 3, 200, 259, 299] {
        leaves[at] = leaf(at as u64 + 10);
    }
    tree.append_commitments(1, [1; 32], &leaves);
    let (database, broadcast) = tree.build_pir_db_and_broadcast(1);
    let row = &database[..SUBSHARD_ROW_BYTES];
    assert!(reconstruct_witness(3, 0, 0, 3, row, &broadcast).is_ok());

    // Another row of the same database.
    let other = &database[SUBSHARD_ROW_BYTES..2 * SUBSHARD_ROW_BYTES];
    match reconstruct_witness(3, 0, 0, 3, other, &broadcast) {
        Err(WitnessClientError::VerificationFailed(position)) => assert_eq!(position, 3),
        other => panic!("unexpected {other:?}"),
    }
    // One leaf of the row altered.
    let mut altered = row.to_vec();
    altered[200 * 32] ^= 1;
    assert!(can_rebuild(0, &altered, &broadcast));
    assert!(matches!(
        reconstruct_witness(3, 0, 0, 3, &altered, &broadcast),
        Err(WitnessClientError::VerificationFailed(3))
    ));
    // Another anchor.
    let mut moved = broadcast.clone();
    moved.cap.shard_roots[0] = leaf(5);
    assert!(matches!(
        reconstruct_witness(3, 0, 0, 3, row, &moved),
        Err(WitnessClientError::VerificationFailed(3))
    ));
    // A subshard root that belongs to another tree.
    let mut mixed = broadcast;
    mixed.subshard_roots[0].roots[1] = leaf(5);
    assert!(matches!(
        reconstruct_witness(3, 0, 0, 3, row, &mixed),
        Err(WitnessClientError::VerificationFailed(3))
    ));
}

#[test]
fn tree_with_given_roots_has_the_same_shape() {
    let roots = vec![leaf(11), leaf(12)];
    let mut tree = CommitmentTreeDb::with_offset(2 * 65_536, roots);
    assert_eq!(tree.tree_size(), 131_072);
    assert_eq!(tree.populated_shards(), 2);
    assert_eq!(tree.window_start_shard(), 2);
    assert_eq!(tree.window_shard_count(), 0);
    tree.append_commitments(5, [5; 32], &[leaf(1), leaf(2), leaf(3)]);
    assert_eq!(tree.tree_size(), 131_075);
    assert_eq!(tree.leaf_offset(), 131_072);
    let root = tree.tree_root();
    let (database, broadcast) = tree.build_pir_db_and_broadcast(5);
    assert_eq!(broadcast.window_start_shard, 2);
    assert_eq!(broadcast.window_shard_count, 1);
    assert_eq!(broadcast.cap.shard_roots[..2], [leaf(11), leaf(12)]);
    let witness = reconstruct_witness(
        131_074,
        2,
        0,
        2,
        &database[..SUBSHARD_ROW_BYTES],
        &broadcast,
    )
    .unwrap();
    assert_eq!(witness.anchor_root, root);
    assert_eq!(witness.siblings[17], {
        let pair = hash_combine(16, &leaf(11), &leaf(12));
        pair
    });
}

#[test]
fn windowed_tree_has_the_root_of_the_whole() {
    let mut leaves = vec![empty_root(0); 65_539];
    for at in [0usize, 5, 300, 65_535, 65_536, 65_538] {
        leaves[at] = leaf(at as u64 + 10);
    }
    let mut whole = CommitmentTreeDb::new();
    whole.append_commitments(1, [1; 32], &leaves);
    let (_, broadcast) = whole.build_pir_db_and_broadcast(1);
    assert_eq!(broadcast.cap.shard_roots.len(), 2);
    let mut window =
        CommitmentTreeDb::with_offset(65_536, vec![broadcast.cap.shard_roots[0]]);
    window.append_commitments(1, [1; 32], &leaves[65_536..]);
    assert_eq!(window.tree_root(), whole.tree_root());
}

#[test]
fn tree_rolls_back_by_height_and_restores() {
    let mut tree = CommitmentTreeDb::new();
    let mut leaves = vec![empty_root(0); 600];
    for at in [0usize, 255, 256, 599] {
        leaves[at] = leaf(at as u64 + 10);
    }
    tree.append_commitments(10, [10; 32], &leaves);
    let root = tree.tree_root();
    tree.build_pir_db_and_broadcast(10);
    tree.append_commitments(11, [11; 32], &[]);
    tree.append_commitments(12, [12; 32], &[leaf(601), leaf(602)]);
    tree.build_pir_db_and_broadcast(12);
    assert_eq!(tree.latest_height(), Some(12));

    let restored = CommitmentTreeDb::from_snapshot(&tree.to_snapshot()).unwrap();
    assert_eq!(restored.tree_size(), 602);
    assert_eq!(restored.latest_block_hash(), Some([12; 32]));
    assert_eq!(restored.leaves(), tree.leaves());
    assert_eq!(restored.tree_root(), tree.tree_root());

    tree.rollback_to(11);
    assert_eq!(tree.latest_height(), Some(11));
    assert_eq!(tree.latest_block_hash(), Some([11; 32]));
    assert_eq!(tree.tree_size(), 600);
    assert_eq!(tree.tree_root(), root);
    tree.rollback_to(0);
    assert_eq!(tree.latest_height(), None);
    assert_eq!(tree.tree_size(), 0);
    assert_eq!(tree.tree_root(), empty_root(32));
}

#[test]
fn damaged_tree_snapshots_are_refused() {
    let mut tree = CommitmentTreeDb::new();
    tree.append_commitments(1, [1; 32], &[leaf(1)]);
    let good = tree.to_snapshot();
    assert!(CommitmentTreeDb::from_snapshot(&good).is_some());
    assert!(CommitmentTreeDb::from_snapshot(&[]).is_none());
    assert!(CommitmentTreeDb::from_snapshot(&good[..good.len() - 1]).is_none());
    let mut leaf_bytes = good.clone();
    leaf_bytes[24 + 31] = 0xff;
    assert!(CommitmentTreeDb::from_snapshot(&leaf_bytes).is_none());
    let mut header = good.clone();
    header[7] ^= 1;
    assert!(CommitmentTreeDb::from_snapshot(&header).is_none());
    let mut count = good;
    let end = count.len();
    count[end - 8] = 2;
    assert!(CommitmentTreeDb::from_snapshot(&count).is_none());
}

#[test]
fn positions_split_into_shard_subshard_and_leaf() {
    assert_eq!(decompose_position(0), (0, 0, 0));
    assert_eq!(decompose_position(65_536 * 3 + 256 * 5 + 7), (3, 5, 7));
    assert_eq!(physical_row_index(3, 5, 1), 517);
    assert_eq!(decompose_position(u64::MAX).0, u32::MAX);
}

#[test]
fn effective_window_shard_limit_is_clamped() {
    assert_eq!(0usize.clamp(1, L0_MAX_SHARDS), 1);
    assert_eq!(2usize.clamp(1, L0_MAX_SHARDS), 2);
    assert_eq!(64usize.clamp(1, L0_MAX_SHARDS), L0_MAX_SHARDS);
    assert_eq!(effective_window_shard_limit(0), 1);
    assert_eq!(effective_window_shard_limit(2), 2);
    assert_eq!(effective_window_shard_limit(64), L0_MAX_SHARDS);
}

fn update(height: u64) -> FrontierUpdate {
    FrontierUpdate {
        height,
        tree_size: height,
        root: [height as u8; 32],
        rightmost_nodes: [[height as u8; 32]; TREE_DEPTH],
    }
}

#[test]
fn frontier_range_requires_complete_history_and_handles_reorgs() {
    let mut state = FrontierHistory::new();
    state.push_frontier(update(10));
    state.push_frontier(update(11));
    state.push_frontier(update(12));

    assert_eq!(
        state
            .frontier_range(10, 12)
            .unwrap()
            .iter()
            .map(|update| update.height)
            .collect::<Vec<_>>(),
        vec![10, 11, 12]
    );
    assert!(state.frontier_range(9, 12).is_none());

    state.rollback_frontiers(10);
    state.push_frontier(update(11));
    assert!(state.frontier_range(10, 12).is_none());
    assert!(state.frontier_range(10, 11).is_some());
}

#[test]
fn frontier_history_is_bounded() {
    let mut state = FrontierHistory::new();
    for height in 0..=FRONTIER_HISTORY_LIMIT as u64 {
        state.push_frontier(update(height));
    }
    assert!(state.frontier_range(0, 0).is_none());
    assert!(state
        .frontier_range(1, FRONTIER_HISTORY_LIMIT as u64)
        .is_some());
}

#[test]
fn frontier_push_replaces_higher_heights() {
    let mut state = FrontierHistory::new();
    for height in 5..=9 {
        state.push_frontier(update(height));
    }
    state.push_frontier(update(7));
    assert!(state.frontier_range(5, 7).is_some());
    assert!(state.frontier_range(8, 8).is_none());
    assert!(state.frontier_range(7, 6).is_none());
    assert!(state.frontier_range(0, u64::MAX).is_none());
}
