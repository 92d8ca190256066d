use thumbs::cache::{initialize_cache, ResultCache};

fn key(n: usize) -> String {
    format!("key-{}", n)
}

#[test]
fn put_then_get_returns_value() {
    let mut cache = ResultCache::new(4);
    cache.put(key(1), vec![1, 2, 3]);
    assert_eq!(cache.get(&key(1)), Some(vec![1, 2, 3]));
    assert_eq!(cache.len(), 1);
}

#[test]
fn get_of_absent_key_misses() {
    let mut cache = ResultCache::new(4);
    cache.put(key(1), vec![1]);
    assert_eq!(cache.get(&key(2)), None);
}

#[test]
fn put_overwrites_existing_key() {
    let mut cache = ResultCache::new(2);
    cache.put(key(1), vec![1]);
    cache.put(key(1), vec![9, 9]);
    assert_eq!(cache.len(), 1);
    assert_eq!(cache.get(&key(1)), Some(vec![9, 9]));
}

#[test]
fn capacity_bound_evicts_only_first_inserted() {
    let n: usize = 5;
    let mut cache = ResultCache::new(n);
    for i in 0..(n + 1) {
        cache.put(key(i), vec![i as u8]);
    }
    assert_eq!(cache.len(), n);
    assert_eq!(cache.get(&key(0)), None, "first-inserted key must be evicted");
    for i in 1..(n + 1) {
        assert_eq!(cache.get(&key(i)), Some(vec![i as u8]), "key {} must survive", i);
    }
}

#[test]
fn recency_refresh_protects_entry() {
    // In a capacity-2 cache, a get refreshes an entry's recency, so the
    // next overflow insertion evicts the other entry.
    let mut cache = ResultCache::new(2);
    cache.put("A".to_string(), vec![1]);
    cache.put("B".to_string(), vec![2]);
    assert_eq!(cache.get(&"A".to_string()), Some(vec![1]));
    cache.put("C".to_string(), vec![3]);
    assert_eq!(cache.get(&"B".to_string()), None, "B was least recently used");
    assert_eq!(cache.get(&"A".to_string()), Some(vec![1]), "A was refreshed by the get");
    assert_eq!(cache.get(&"C".to_string()), Some(vec![3]));
}

#[test]
fn recency_without_refresh_evicts_oldest() {
    // The same sequence without the refreshing get evicts A instead.
    let mut cache = ResultCache::new(2);
    cache.put("A".to_string(), vec![1]);
    cache.put("B".to_string(), vec![2]);
    cache.put("C".to_string(), vec![3]);
    assert_eq!(cache.get(&"A".to_string()), None);
    assert_eq!(cache.get(&"B".to_string()), Some(vec![2]));
    assert_eq!(cache.get(&"C".to_string()), Some(vec![3]));
}

#[test]
fn returned_bytes_are_an_independent_copy() {
    let mut cache = ResultCache::new(2);
    cache.put(key(1), vec![7, 7]);
    let mut copy = cache.get(&key(1)).unwrap();
    copy[0] = 0;
    assert_eq!(cache.get(&key(1)), Some(vec![7, 7]), "cached state must not be corrupted");
}

#[test]
fn reinitialize_discards_contents() {
    let mut cache = initialize_cache(3);
    cache.put(key(1), vec![1]);
    cache.put(key(2), vec![2]);
    cache.reinitialize(10);
    assert_eq!(cache.len(), 0);
    assert_eq!(cache.get(&key(1)), None);
}
