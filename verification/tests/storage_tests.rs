use dcp_node::storage::{StorageBlock, StorageEngine};

#[test]
fn test_storage_block_hash() {
    let data = b"Hello, DCP!".to_vec();
    let block = StorageBlock::new(data.clone());
    let hash2 = StorageBlock::compute_hash(&data);
    assert_eq!(block.hash, hash2);
}

#[test]
fn block_hash_is_the_blake3_digest() {
    let block = StorageBlock::new(b"abc".to_vec());
    assert_eq!(&block.hash, blake3::hash(b"abc").as_bytes());
    assert_ne!(StorageBlock::compute_hash(b"abc"), StorageBlock::compute_hash(b"abd"));
    assert_eq!(block.access_count, 0);
    assert_eq!(block.last_accessed, 0);
    assert!(block.stored_by.is_empty());
    assert_eq!(block.data, b"abc".to_vec());
}

#[test]
fn coldness_after_a_week() {
    let mut block = StorageBlock::new(vec![1]);
    block.last_accessed = 1_000;
    assert!(!block.is_cold_at(1_000 + 604_800));
    assert!(block.is_cold_at(1_000 + 604_801));
    assert!(!block.is_cold_at(10));
    block.access();
    assert!(!block.is_cold());
    assert_eq!(block.access_count, 1);
    block.access_at(42);
    assert_eq!(block.last_accessed, 42);
    assert_eq!(block.access_count, 2);
}

#[test]
fn store_get_remove() {
    let mut engine = StorageEngine::new(1);
    let block = StorageBlock::new(vec![5u8; 100]);
    let hash = block.hash;
    assert_eq!(engine.store_block(block, 10), Ok(()));
    let stats = engine.stats();
    assert_eq!(stats.total_blocks, 1);
    assert_eq!(stats.used_bytes, 100);
    assert_eq!(stats.max_bytes, 1 << 30);
    assert_eq!(stats.deposits, 0);
    let got = engine.get_block_at(&hash, 77).unwrap();
    assert_eq!(got.data, vec![5u8; 100]);
    assert_eq!(got.access_count, 1);
    assert_eq!(got.last_accessed, 77);
    assert_eq!(engine.get_block(&hash).unwrap().access_count, 2);
    assert!(engine.remove_block(&hash));
    assert!(!engine.remove_block(&hash));
    assert_eq!(engine.stats().used_bytes, 0);
    assert!(engine.get_block(&hash).is_none());
}

#[test]
fn storing_the_same_block_twice_counts_it_once() {
    let mut engine = StorageEngine::new(1);
    assert_eq!(engine.store_block(StorageBlock::new(vec![7]), 0), Ok(()));
    assert_eq!(engine.store_block(StorageBlock::new(vec![7]), 0), Ok(()));
    assert_eq!(engine.stats().total_blocks, 1);
    assert_eq!(engine.stats().used_bytes, 1);
    let h = StorageBlock::compute_hash(&[7]);
    assert!(engine.remove_block(&h));
    assert_eq!(engine.stats().used_bytes, 0);
}

#[test]
fn block_creation_time_is_recorded() {
    let b = StorageBlock::new_at(vec![1, 2], 1_700_000_000);
    assert_eq!(b.created_at, 1_700_000_000);
    assert_eq!(b.hash, StorageBlock::compute_hash(&[1, 2]));
}

#[test]
fn full_store_refuses_blocks() {
    let mut engine = StorageEngine::new(0);
    let r = engine.store_block(StorageBlock::new(vec![1]), 0);
    assert_eq!(r, Err("存储空间不足".to_string()));
    assert_eq!(engine.stats().total_blocks, 0);
    assert_eq!(engine.store_block(StorageBlock::new(vec![]), 0), Ok(()));
}

#[test]
fn proofs_only_for_stored_blocks() {
    let mut engine = StorageEngine::new(1);
    let block = StorageBlock::new(vec![9]);
    let hash = block.hash;
    assert!(engine.generate_proof(&hash, &[3u8; 32]).is_none());
    engine.store_block(block, 1).unwrap();
    let p = engine.generate_proof_at(&hash, &[3u8; 32], 1234).unwrap();
    assert_eq!(p.block_hash, hash);
    assert_eq!(p.node_id, [3u8; 32]);
    assert_eq!(p.timestamp, 1234);
    assert!(p.signature.is_empty());
    assert!(engine.generate_proof(&hash, &[3u8; 32]).is_some());
}

#[test]
fn repair_lists_under_replicated_blocks() {
    let mut engine = StorageEngine::new(1);
    let a = StorageBlock::new(vec![1]);
    let mut b = StorageBlock::new(vec![2]);
    b.stored_by = vec![[1u8; 32], [2u8; 32], [3u8; 32]];
    let (ha, hb) = (a.hash, b.hash);
    engine.store_block(a, 0).unwrap();
    engine.store_block(b, 0).unwrap();
    assert_eq!(engine.auto_repair(3), vec![ha]);
    let mut both = engine.auto_repair(4);
    both.sort();
    let mut expected = vec![ha, hb];
    expected.sort();
    assert_eq!(both, expected);
    assert!(engine.auto_repair(0).is_empty());
}
