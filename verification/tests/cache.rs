use aihasto_bot::models::guild_settings::cache::{CacheKey, GuildSettingsCache, IdCache};

#[test]
fn test_insert_and_get() {
    let mut cache = GuildSettingsCache::new(2);
    let key1 = CacheKey { id: 1, name: "setting1".to_string() };
    let key2 = CacheKey { id: 1, name: "setting2".to_string() };

    cache.insert(key1.clone(), "value1".to_string());
    cache.insert(key2.clone(), "value2".to_string());

    assert_eq!(cache.get(&key1), Some("value1".to_string()));
    assert_eq!(cache.get(&key2), Some("value2".to_string()));
}

#[test]
fn test_lfu_eviction_same_id() {
    let mut cache = GuildSettingsCache::new(2);
    let key1 = CacheKey { id: 1, name: "setting1".to_string() };
    let key2 = CacheKey { id: 1, name: "setting2".to_string() };
    let key3 = CacheKey { id: 1, name: "setting3".to_string() };

    cache.insert(key1.clone(), "value1".to_string()); // freq 0
    cache.insert(key2.clone(), "value2".to_string()); // freq 0
    cache.get(&key1); // freq 1
    cache.insert(key3.clone(), "value3".to_string()); // capacity reached, setting2 should be evicted (LFU)

    assert_eq!(cache.get(&key1), Some("value1".to_string()));
    assert_eq!(cache.get(&key2), None); // evicted
    assert_eq!(cache.get(&key3), Some("value3".to_string()));
}

#[test]
fn test_explicit_lfu_eviction_order() {
    let mut cache = GuildSettingsCache::new(3); // Capacity 3 for easier control
    let key1 = CacheKey { id: 1, name: "setting1".to_string() };
    let key2 = CacheKey { id: 1, name: "setting2".to_string() };
    let key3 = CacheKey { id: 1, name: "setting3".to_string() };
    let key4 = CacheKey { id: 1, name: "setting4".to_string() };

    cache.insert(key1.clone(), "value1".to_string()); // freq 0
    cache.insert(key2.clone(), "value2".to_string()); // freq 0
    cache.insert(key3.clone(), "value3".to_string()); // freq 0

    cache.get(&key1); // freq 1
    cache.get(&key1); // freq 2
    cache.get(&key2); // freq 1

    // Now frequencies are: key1: 2, key2: 1, key3: 0

    cache.insert(key4.clone(), "value4".to_string()); // Capacity reached, key3 (freq 0) should be evicted

    assert_eq!(cache.get(&key3), None); // key3 should be evicted
    assert_eq!(cache.get(&key1), Some("value1".to_string()));
    assert_eq!(cache.get(&key2), Some("value2".to_string()));
    assert_eq!(cache.get(&key4), Some("value4".to_string()));
}

#[test]
fn test_invalidate() {
    let mut cache = GuildSettingsCache::new(2);
    let key1 = CacheKey { id: 1, name: "setting1".to_string() };
    let key2 = CacheKey { id: 1, name: "setting2".to_string() };

    cache.insert(key1.clone(), "value1".to_string());
    cache.insert(key2.clone(), "value2".to_string());

    cache.invalidate(&key1);

    assert_eq!(cache.get(&key1), None);
    assert_eq!(cache.get(&key2), Some("value2".to_string()));
}

#[test]
fn test_invalidate_and_reinsert() {
    let mut cache = GuildSettingsCache::new(2);
    let key1 = CacheKey { id: 1, name: "setting1".to_string() };

    cache.insert(key1.clone(), "value1".to_string());
    cache.invalidate(&key1);
    assert_eq!(cache.get(&key1), None);

    cache.insert(key1.clone(), "value_new".to_string());
    assert_eq!(cache.get(&key1), Some("value_new".to_string()));
}

#[test]
fn test_capacity_never_exceeded() {
    let mut cache = GuildSettingsCache::new(3);
    for round in 0..4u64 {
        for j in 0..8u64 {
            let key = CacheKey { id: 1, name: format!("s{}", j) };
            cache.insert(key.clone(), format!("v{}_{}", round, j));
            assert!(cache.partition_len(1) <= 3);
            if j % 2 == 0 {
                cache.get(&key);
            }
            assert!(cache.partition_len(1) <= 3);
        }
    }
}

#[test]
fn test_reset_on_update() {
    let mut cache = IdCache::new(2);
    cache.insert("x".to_string(), "1".to_string());
    assert_eq!(cache.get("x"), Some("1".to_string())); // freq 1
    assert_eq!(cache.get("x"), Some("1".to_string())); // freq 2
    cache.insert("x".to_string(), "2".to_string()); // value updated, freq reset to 0
    assert_eq!(cache.len(), 1);
    cache.insert("y".to_string(), "yv".to_string()); // freq 0
    cache.get("y"); // y freq 1; x freq 0 is now the unique minimum
    cache.insert("z".to_string(), "zv".to_string()); // at capacity: x must be evicted
    assert_eq!(cache.get("x"), None);
    assert_eq!(cache.get("y"), Some("yv".to_string()));
    assert_eq!(cache.get("z"), Some("zv".to_string()));
}

#[test]
fn test_partition_isolation() {
    let mut cache = GuildSettingsCache::new(2);
    // fill both partitions to capacity
    for j in 0..2u64 {
        cache.insert(CacheKey { id: 1, name: format!("p1k{}", j) }, format!("p1v{}", j));
        cache.insert(CacheKey { id: 2, name: format!("p2k{}", j) }, format!("p2v{}", j));
    }
    // inserting into partition 1 evicts only within partition 1
    cache.insert(CacheKey { id: 1, name: "extra".to_string() }, "x".to_string());
    assert_eq!(cache.partition_len(2), 2);
    for j in 0..2u64 {
        let key = CacheKey { id: 2, name: format!("p2k{}", j) };
        assert_eq!(cache.get(&key), Some(format!("p2v{}", j)));
    }
}

#[test]
fn test_partition_garbage_collection() {
    let mut cache = GuildSettingsCache::new(2);
    let key = CacheKey { id: 9, name: "only".to_string() };
    cache.insert(key.clone(), "v".to_string());
    assert!(cache.has_partition(9));
    cache.get(&key); // frequency 1
    cache.invalidate(&key);
    assert!(!cache.has_partition(9)); // empty partition is dropped entirely
    assert_eq!(cache.partition_len(9), 0);

    // a later insert builds a fresh partition with no stale frequencies
    cache.insert(key.clone(), "v2".to_string());
    assert!(cache.has_partition(9));
    assert_eq!(cache.get(&key), Some("v2".to_string()));
    assert_eq!(cache.partition_len(9), 1);
}

#[test]
fn test_read_miss_creates_no_partition() {
    let mut cache = GuildSettingsCache::new(2);
    let key = CacheKey { id: 5, name: "nothing".to_string() };
    assert_eq!(cache.get(&key), None);
    assert!(!cache.has_partition(5));
}

#[test]
fn test_randomized_operations_keep_capacity() {
    // deterministic linear congruential generator
    let mut state: u64 = 0x2545F4914F6CDD1D;
    let mut next = move || {
        state = state.wrapping_mul(6364136223846793005).wrapping_add(1442695040888963407);
        state >> 33
    };
    let mut cache = GuildSettingsCache::new(4);
    for _ in 0..500 {
        let id = next() % 3 + 1;
        let j = next() % 10;
        let key = CacheKey { id, name: format!("k{}", j) };
        match next() % 3 {
            0 => cache.insert(key, format!("v{}", j)),
            1 => {
                cache.get(&key);
            }
            _ => cache.invalidate(&key),
        }
        for id in 1..4u64 {
            assert!(cache.partition_len(id) <= 4);
        }
    }
}
