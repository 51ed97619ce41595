use bee::protocol::worker::transaction::tiny_hash_cache::{xx_hash, TinyHashCache};

#[test]
fn tiny_hash_cache_test_cache_insert_same_elements() {
    let mut cache = TinyHashCache::new(10);

    let first_buf = &[1, 2, 3];
    let second_buf = &[1, 2, 3];

    assert_eq!(cache.insert(first_buf), true);
    assert_eq!(cache.insert(second_buf), false);
    assert_eq!(cache.len(), 1);
}

#[test]
fn tiny_hash_cache_test_cache_insert_different_elements() {
    let mut cache = TinyHashCache::new(10);

    let first_buf = &[1, 2, 3];
    let second_buf = &[3, 4, 5];

    assert_eq!(cache.insert(first_buf), true);
    assert_eq!(cache.insert(second_buf), true);
    assert_eq!(cache.len(), 2);
}

#[test]
fn tiny_hash_cache_test_cache_max_capacity() {
    let mut cache = TinyHashCache::new(1);

    let first_buf = &[1, 2, 3];
    let second_buf = &[3, 4, 5];
    let second_buf_clone = second_buf.clone();

    assert_eq!(cache.insert(first_buf), true);
    assert_eq!(cache.insert(second_buf), true);
    assert_eq!(cache.len(), 1);
    assert_eq!(cache.insert(&second_buf_clone), false);
}

#[test]
fn xx_hash_matches_reference_values() {
    assert_eq!(xx_hash(&[]), 0xef46_db37_51d8_e999);
    assert_eq!(xx_hash(&[42]), 0x0a9e_dece_beb0_3ae4);
    assert_eq!(xx_hash(b"Hello, world!\0"), 0x7b06_c531_ea43_e89f);
}

#[test]
fn tiny_hash_cache_evicts_oldest_first() {
    let mut cache = TinyHashCache::new(2);
    assert!(cache.insert(&[1]));
    assert!(cache.insert(&[2]));
    assert_eq!(cache.len(), 2);
    // Full: [3] evicts [1], the oldest.
    assert!(cache.insert(&[3]));
    assert_eq!(cache.len(), 2);
    assert!(!cache.insert(&[2]));
    assert!(!cache.insert(&[3]));
    // [1] was forgotten, so it is new again; it evicts [2].
    assert!(cache.insert(&[1]));
    assert!(cache.insert(&[2]));
    assert_eq!(cache.len(), 2);
}

#[test]
fn tiny_hash_cache_repeated_insert_is_rejected() {
    let mut cache = TinyHashCache::new(3);
    assert!(cache.insert(b"transaction"));
    assert!(!cache.insert(b"transaction"));
    assert!(!cache.insert(b"transaction"));
    assert_eq!(cache.len(), 1);
}

#[test]
fn tiny_hash_cache_capacity_one_takes_many_inserts() {
    let mut cache = TinyHashCache::new(1);
    for i in 0u32..500 {
        let bytes = (i % 7).to_le_bytes();
        cache.insert(&bytes);
        assert!(cache.len() <= 1);
    }
    assert_eq!(cache.len(), 1);
}
