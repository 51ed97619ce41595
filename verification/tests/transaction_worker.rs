use bee::protocol::messages::transaction_broadcast::TransactionBroadcast;
use bee::protocol::worker::transaction::tiny_hash_cache::xx_hash;
use bee::protocol::worker::transaction::{
    pad_transaction, TinyHashCache, TransactionWorker, TRANSACTION_BYTE_LEN,
};

#[test]
fn transaction_test_cache_insert_same_elements() {
    let mut cache = TinyHashCache::new(10);

    let first_buf = &[1, 2, 3];
    let second_buf = &[1, 2, 3];

    assert_eq!(cache.insert(xx_hash(first_buf)), true);
    assert_eq!(cache.insert(xx_hash(second_buf)), false);
    assert_eq!(cache.len(), 1);
}

#[test]
fn transaction_test_cache_insert_different_elements() {
    let mut cache = TinyHashCache::new(10);

    let first_buf = &[1, 2, 3];
    let second_buf = &[3, 4, 5];

    assert_eq!(cache.insert(xx_hash(first_buf)), true);
    assert_eq!(cache.insert(xx_hash(second_buf)), true);
    assert_eq!(cache.len(), 2);
}

#[test]
fn transaction_test_cache_max_capacity() {
    let mut cache = TinyHashCache::new(1);

    let first_buf = &[1, 2, 3];
    let second_buf = &[3, 4, 5];
    let second_buf_clone = second_buf.clone();

    assert_eq!(cache.insert(xx_hash(first_buf)), true);
    assert_eq!(cache.insert(xx_hash(second_buf)), true);
    assert_eq!(cache.len(), 1);
    assert_eq!(cache.insert(xx_hash(&second_buf_clone)), false);
}

#[test]
fn hash_cache_capacity_is_never_exceeded() {
    let mut cache = TinyHashCache::new(3);
    for h in 0u64..10 {
        assert!(cache.insert(h));
        assert!(cache.len() <= 3);
    }
    assert_eq!(cache.len(), 3);
    // The three most recent stay, the others were evicted.
    assert!(!cache.insert(9));
    assert!(!cache.insert(8));
    assert!(!cache.insert(7));
    assert!(cache.insert(6));
}

#[test]
fn pad_transaction_fills_with_zeros() {
    let padded = pad_transaction(vec![1, 2, 3]);
    assert_eq!(padded.len(), TRANSACTION_BYTE_LEN);
    assert_eq!(&padded[..3], &[1, 2, 3]);
    assert!(padded[3..].iter().all(|b| *b == 0));
}

#[test]
fn pad_transaction_keeps_long_input() {
    let long = vec![7u8; TRANSACTION_BYTE_LEN + 5];
    assert_eq!(pad_transaction(long.clone()), long);
    let exact = vec![9u8; TRANSACTION_BYTE_LEN];
    assert_eq!(pad_transaction(exact.clone()), exact);
}

#[test]
fn transaction_worker_drops_duplicates() {
    let mut worker = TransactionWorker::new();
    let first = worker.receive(TransactionBroadcast::new(vec![0u8; 1024]));
    let padded = first.expect("first broadcast is new");
    assert_eq!(padded.len(), TRANSACTION_BYTE_LEN);
    assert!(padded.iter().all(|b| *b == 0));
    assert_eq!(worker.receive(TransactionBroadcast::new(vec![0u8; 1024])), None);
    assert!(worker.receive(TransactionBroadcast::new(vec![1u8; 10])).is_some());
}

#[test]
fn transaction_worker_drops_oversize_broadcasts() {
    let mut worker = TransactionWorker::new();
    let long = vec![3u8; TRANSACTION_BYTE_LEN + 1];
    assert_eq!(worker.receive(TransactionBroadcast::new(long.clone())), None);
    // Its hash was remembered all the same.
    assert_eq!(worker.receive(TransactionBroadcast::new(long)), None);
    let exact = vec![3u8; TRANSACTION_BYTE_LEN];
    assert_eq!(worker.receive(TransactionBroadcast::new(exact.clone())), Some(exact));
}

#[test]
fn hash_cache_len_counts_new_inserts_up_to_capacity() {
    let mut cache = TinyHashCache::new(10);
    let mut new_inserts = 0;
    for h in [1u64, 2, 2, 3, 1, 4] {
        if cache.insert(h) {
            new_inserts += 1;
        }
    }
    assert_eq!(new_inserts, 4);
    assert_eq!(cache.len(), 4);
    let mut small = TinyHashCache::new(2);
    let mut count = 0;
    for h in [1u64, 2, 3, 3, 4] {
        if small.insert(h) {
            count += 1;
        }
    }
    assert_eq!(count, 4);
    assert_eq!(small.len(), 2);
}
