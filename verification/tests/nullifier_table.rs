use spendability_pir::client::nullifier::bucket_contains;
use spendability_pir::nullifier::table::{HashTableDb, HashTableError};
use spendability_pir::nullifier::types::{
    hash_to_bucket, Nullifier, BUCKET_BYTES, BUCKET_CAPACITY, DB_BYTES, ENTRY_BYTES, NUM_BUCKETS,
};

fn nfs(start: u32, count: u32) -> Vec<Nullifier> {
    (start..start + count)
        .map(|i| {
            let mut nf = [i as u8; 32];
            nf[..4].copy_from_slice(&i.to_le_bytes());
            nf
        })
        .collect()
}

#[test]
fn insert_rollback_and_snapshot() {
    let mut db = HashTableDb::new();
    let values = nfs(1, 100);
    db.insert_block(10, [10; 32], &values).unwrap();
    assert!(values.iter().all(|nf| db.contains(nf)));

    let restored = HashTableDb::from_snapshot(&db.to_snapshot()).unwrap();
    assert!(values.iter().all(|nf| restored.contains(nf)));

    db.rollback_block(&[10; 32]).unwrap();
    assert!(db.is_empty());
}

#[test]
fn pir_bytes_are_raw_nullifiers() {
    let mut db = HashTableDb::new();
    let nf = nfs(42, 1)[0];
    db.insert_block(10, [10; 32], &[nf]).unwrap();
    let bytes = db.to_pir_bytes();
    assert_eq!(bytes.len(), DB_BYTES);
    let bucket = hash_to_bucket(&nf) as usize;
    assert_eq!(&bytes[bucket * BUCKET_BYTES..][..32], &nf);
}

#[test]
fn overflowing_block_is_not_partially_inserted() {
    let values: Vec<Nullifier> = (1..=BUCKET_CAPACITY + 1)
        .map(|i| {
            let mut nf = [i as u8; 32];
            nf[..4].copy_from_slice(&((i * NUM_BUCKETS) as u32).to_le_bytes());
            nf
        })
        .collect();
    let mut db = HashTableDb::new();
    assert!(db.insert_block(10, [10; 32], &values).is_err());
    assert!(db.is_empty());
}

#[test]
fn ironwood_geometry_meets_simplepir_minimum_exactly() {
    assert_eq!(ENTRY_BYTES, 32);
    assert_eq!(BUCKET_BYTES * 8, 28_672);
    assert_eq!(DB_BYTES, NUM_BUCKETS * BUCKET_BYTES);
}

#[test]
fn bucket_mapping_is_deterministic() {
    let nf = [42; 32];
    assert_eq!(hash_to_bucket(&nf), hash_to_bucket(&nf));
    assert!((hash_to_bucket(&nf) as usize) < NUM_BUCKETS);
}

#[test]
fn bucket_is_low_word_modulo_buckets() {
    let mut nf = [9u8; 32];
    nf[..4].copy_from_slice(&(3 * 16_384u32 + 77).to_le_bytes());
    assert_eq!(hash_to_bucket(&nf), 77);
    assert_eq!(hash_to_bucket(&[0xff; 32]), 16_383);
}

#[test]
fn overflow_names_the_full_bucket() {
    let mut db = HashTableDb::new();
    let full: Vec<Nullifier> = (1..=112u32)
        .map(|i| {
            let mut nf = [1u8; 32];
            nf[..4].copy_from_slice(&(i * 16_384 + 5).to_le_bytes());
            nf
        })
        .collect();
    db.insert_block(1, [1; 32], &full).unwrap();
    let mut more = [2u8; 32];
    more[..4].copy_from_slice(&5u32.to_le_bytes());
    let before = db.len();
    match db.insert_block(2, [2; 32], &[nfs(900, 1)[0], more]) {
        Err(HashTableError::BucketOverflow { bucket_idx }) => assert_eq!(bucket_idx, 5),
        other => panic!("unexpected {other:?}"),
    }
    assert_eq!(db.len(), before);
    assert_eq!(db.latest_height(), Some(1));
    assert!(!db.contains(&nfs(900, 1)[0]));
}

#[test]
fn rollback_restores_and_unknown_hash_is_refused() {
    let mut db = HashTableDb::new();
    let a = nfs(1, 20);
    let b = nfs(100, 20);
    db.insert_block(1, [1; 32], &a).unwrap();
    let image = db.to_pir_bytes();
    db.insert_block(2, [2; 32], &b).unwrap();
    db.rollback_block(&[2; 32]).unwrap();
    assert_eq!(db.to_pir_bytes(), image);
    assert!(a.iter().all(|nf| db.contains(nf)));
    assert!(b.iter().all(|nf| !db.contains(nf)));
    assert!(matches!(
        db.rollback_block(&[2; 32]),
        Err(HashTableError::BlockNotFound)
    ));
    assert_eq!(db.latest_block_hash(), Some([1; 32]));
}

#[test]
fn eviction_drops_oldest_blocks_first() {
    let mut db = HashTableDb::new();
    for h in 1..=20u64 {
        db.insert_block(h, [h as u8; 32], &nfs(h as u32 * 1000, 10))
            .unwrap();
    }
    assert_eq!(db.len(), 200);
    assert_eq!(db.evict_oldest_block(), Some(1));
    db.evict_to_size(55);
    assert_eq!(db.len(), 50);
    assert_eq!(db.earliest_height(), Some(16));
    assert_eq!(db.latest_height(), Some(20));
    assert_eq!(db.num_blocks(), 5);
    db.evict_to_target();
    assert_eq!(db.len(), 50);
    db.evict_to_size(0);
    assert!(db.is_empty());
    assert_eq!(db.evict_oldest_block(), None);
    assert_eq!(db.earliest_height(), None);
    assert_eq!(db.latest_block_hash(), None);
}

#[test]
fn blocks_out_of_order_keep_height_order() {
    let mut db = HashTableDb::new();
    for h in [5u64, 3, 9, 4] {
        db.insert_block(h, [h as u8; 32], &nfs(h as u32 * 10, 2))
            .unwrap();
    }
    assert_eq!(db.earliest_height(), Some(3));
    assert_eq!(db.latest_height(), Some(9));
    db.rewind_to(4).unwrap();
    assert_eq!(db.latest_height(), Some(4));
    assert_eq!(db.num_blocks(), 2);
    assert_eq!(db.len(), 4);
}

#[test]
fn replaced_height_leaves_old_entries_behind() {
    let mut db = HashTableDb::new();
    db.insert_block(1, [1; 32], &nfs(1, 3)).unwrap();
    db.insert_block(1, [2; 32], &nfs(50, 2)).unwrap();
    assert_eq!(db.len(), 5);
    assert_eq!(db.num_blocks(), 1);
    db.rollback_block(&[1; 32]).unwrap();
    assert_eq!(db.len(), 3);
    assert!(db.contains(&nfs(1, 1)[0]));
    assert!(!db.contains(&nfs(50, 1)[0]));
    assert!(matches!(
        db.rollback_block(&[2; 32]),
        Err(HashTableError::BlockNotFound)
    ));
}

#[test]
fn snapshot_restores_every_part() {
    let mut db = HashTableDb::new();
    db.insert_block(7, [7; 32], &nfs(1, 5)).unwrap();
    db.insert_block(8, [8; 32], &nfs(100, 5)).unwrap();
    db.insert_block(8, [9; 32], &nfs(200, 5)).unwrap();
    let snapshot = db.to_snapshot();
    let mut restored = HashTableDb::from_snapshot(&snapshot).unwrap();
    assert_eq!(restored.to_pir_bytes(), db.to_pir_bytes());
    assert_eq!(restored.len(), 15);
    assert_eq!(restored.num_blocks(), 2);
    assert_eq!(restored.latest_block_hash(), Some([9; 32]));
    restored.rollback_block(&[7; 32]).unwrap();
    assert_eq!(restored.len(), 10);
    assert_eq!(restored.to_snapshot().len(), snapshot.len() - 48 - 5 * 8 - 40);
}

#[test]
fn damaged_snapshots_are_refused() {
    let mut db = HashTableDb::new();
    db.insert_block(7, [7; 32], &nfs(1, 2)).unwrap();
    let good = db.to_snapshot();
    let refused = |bytes: &[u8]| match HashTableDb::from_snapshot(bytes) {
        Err(error) => error.message() == "snapshot error: malformed snapshot",
        Ok(_) => false,
    };
    assert!(refused(&[]));
    assert!(refused(&good[..good.len() - 1]));
    let mut header = good.clone();
    header[0] ^= 1;
    assert!(refused(&header));
    let mut longer = good.clone();
    longer.push(0);
    assert!(refused(&longer));
    let mut count = good.clone();
    count[8] = 1;
    assert!(refused(&count));
    let mut place = good.clone();
    place[58_720_280 + 48 + 7] = 0xff;
    assert!(refused(&place));
}

#[test]
fn scan_of_the_row_agrees_with_the_table() {
    let mut db = HashTableDb::new();
    let values = nfs(1, 300);
    db.insert_block(3, [3; 32], &values[..150]).unwrap();
    let bytes = db.to_pir_bytes();
    for nf in &values {
        let bucket = hash_to_bucket(nf) as usize;
        let row = &bytes[bucket * BUCKET_BYTES..(bucket + 1) * BUCKET_BYTES];
        assert_eq!(bucket_contains(row, nf), db.contains(nf));
    }
}

#[test]
fn zero_nullifier_stands_for_a_free_cell() {
    let mut db = HashTableDb::new();
    assert!(db.contains(&[0; 32]));
    db.insert_block(1, [1; 32], &[[0; 32]]).unwrap();
    assert_eq!(db.len(), 1);
    assert!(db.contains(&[0; 32]));
}

#[test]
fn table_errors_have_texts() {
    assert_eq!(
        HashTableError::BucketOverflow { bucket_idx: 16_383 }.message(),
        "bucket 16383 overflow"
    );
    assert_eq!(
        HashTableError::BlockNotFound.message(),
        "block hash not found for rollback"
    );
    assert_eq!(
        HashTableError::Snapshot("x".to_owned()).message(),
        "snapshot error: x"
    );
}

#[test]
fn many_blocks_sync_like_a_chain() {
    let mut db = HashTableDb::default();
    let hash_for = |n: u16| {
        let mut h = [0u8; 32];
        h[0..2].copy_from_slice(&n.to_le_bytes());
        h
    };
    for i in 1..=500u16 {
        db.insert_block(i as u64, hash_for(i), &nfs(i as u32 * 1000, 5))
            .unwrap();
    }
    assert_eq!(db.num_blocks(), 500);
    assert_eq!(db.len(), 2500);
    assert_eq!(db.earliest_height(), Some(1));
    assert_eq!(db.latest_height(), Some(500));
    db.rollback_block(&hash_for(500)).unwrap();
    db.rollback_block(&hash_for(499)).unwrap();
    assert_eq!(db.len(), 2490);
    assert_eq!(db.latest_height(), Some(498));
    for nf in nfs(499_000, 5) {
        assert!(!db.contains(&nf));
    }
    for _ in 0..50 {
        db.evict_oldest_block();
    }
    assert_eq!(db.earliest_height(), Some(51));
    assert_eq!(db.num_blocks(), 448);
}

/// The entries that are not zero, with the row that each lies in, in order.
fn occupied_entries(db: &HashTableDb) -> Vec<(Nullifier, usize)> {
    let mut found: Vec<(Nullifier, usize)> = db
        .to_pir_bytes()
        .chunks_exact(ENTRY_BYTES)
        .enumerate()
        .filter(|(_, entry)| entry.iter().any(|byte| *byte != 0))
        .map(|(k, entry)| (entry.try_into().unwrap(), k * ENTRY_BYTES / BUCKET_BYTES))
        .collect();
    found.sort();
    found
}

#[test]
fn database_entries_are_the_live_nullifiers() {
    let mut db = HashTableDb::new();
    assert!(occupied_entries(&db).is_empty());
    let blocks = [nfs(1, 5), nfs(3, 4), nfs(16_384 + 2, 3)];
    for (i, block) in blocks.iter().enumerate() {
        db.insert_block(10 + i as u64, [10 + i as u8; 32], block).unwrap();
    }
    let expect = |live: &[usize]| {
        let mut entries: Vec<(Nullifier, usize)> = live
            .iter()
            .flat_map(|i| blocks[*i].iter().map(|nf| (*nf, hash_to_bucket(nf) as usize)))
            .collect();
        entries.sort();
        entries
    };
    assert_eq!(occupied_entries(&db), expect(&[0, 1, 2]));
    assert_eq!(db.len(), 12);
    db.rollback_block(&[12; 32]).unwrap();
    assert_eq!(occupied_entries(&db), expect(&[0, 1]));
    assert_eq!(db.evict_oldest_block(), Some(10));
    assert_eq!(occupied_entries(&db), expect(&[1]));
    assert_eq!(db.len(), 4);
}
