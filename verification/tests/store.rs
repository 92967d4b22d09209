use aihasto_bot::models::guild_settings::{
    GuildSettings, MemoryBackend, SettingsBackend, SettingsStore, StoreError,
};

#[test]
fn test_write_then_read_coherence() {
    let mut store = SettingsStore::new(50, MemoryBackend::new());
    assert_eq!(store.set(1, "k", Some("v")), Ok(()));
    assert_eq!(store.get(1, "k"), Some("v".to_string()));

    // unrelated traffic on other keys and guilds does not disturb it
    assert_eq!(store.set(1, "other", Some("x")), Ok(()));
    assert_eq!(store.set(2, "k", Some("y")), Ok(()));
    assert_eq!(store.get(2, "k"), Some("y".to_string()));
    assert_eq!(store.get(1, "k"), Some("v".to_string()));
}

#[test]
fn test_overwrite_value() {
    let mut store = SettingsStore::new(50, MemoryBackend::new());
    assert_eq!(store.set(1, "k", Some("first")), Ok(()));
    assert_eq!(store.set(1, "k", Some("second")), Ok(()));
    assert_eq!(store.get(1, "k"), Some("second".to_string()));
}

#[test]
fn test_read_through_idempotence() {
    let mut backend = MemoryBackend::new();
    assert_eq!(backend.upsert(1, "k", Some("v")), Ok(()));
    let mut store = SettingsStore::new(50, backend);

    // first read misses the cache and consults the table
    assert_eq!(store.get(1, "k"), Some("v".to_string()));
    let selects_after_first = store.backend().select_calls();
    assert_eq!(selects_after_first, 1);

    // second read returns the identical value without touching the table
    assert_eq!(store.get(1, "k"), Some("v".to_string()));
    assert_eq!(store.backend().select_calls(), selects_after_first);
}

#[test]
fn test_absent_key_reads_none_and_is_not_cached() {
    let mut store = SettingsStore::new(50, MemoryBackend::new());
    assert_eq!(store.get(3, "never"), None);
    // negative results are not cached: the table is consulted again
    assert_eq!(store.get(3, "never"), None);
    assert_eq!(store.backend().select_calls(), 2);
}

#[test]
fn test_disable_round_trip() {
    let mut store = SettingsStore::new(50, MemoryBackend::new());
    assert_eq!(store.set(1, "k", Some("v")), Ok(()));
    assert_eq!(store.set(1, "k", None), Ok(()));
    assert_eq!(store.get(1, "k"), None);
}

#[test]
fn test_disable_stores_null_row() {
    let mut backend = MemoryBackend::new();
    assert_eq!(backend.upsert(1, "k", None), Ok(()));
    // the table holds a row whose value is explicitly absent
    match backend.select(1, "k") {
        Ok(Some(GuildSettings { guild, key, value })) => {
            assert_eq!(guild, 1);
            assert_eq!(key, "k".to_string());
            assert_eq!(value, None);
        }
        other => panic!("expected a null-valued row, got {:?}", other.map(|_| ())),
    }
}

#[test]
fn test_set_error_is_surfaced() {
    let mut backend = MemoryBackend::new();
    backend.set_available(false);
    let mut store = SettingsStore::new(50, backend);
    assert_eq!(store.set(1, "k", Some("v")), Err(StoreError::Backend));
    // reads fail open: an unreachable table reads as no value
    assert_eq!(store.get(1, "k"), None);
}

#[test]
fn test_upsert_counts_calls() {
    let mut store = SettingsStore::new(50, MemoryBackend::new());
    assert_eq!(store.set(1, "a", Some("1")), Ok(()));
    assert_eq!(store.set(1, "b", None), Ok(()));
    assert_eq!(store.backend().upsert_calls(), 2);
    // cached reads add no upserts and no selects
    assert_eq!(store.get(1, "a"), Some("1".to_string()));
    assert_eq!(store.backend().upsert_calls(), 2);
    assert_eq!(store.backend().select_calls(), 0);
}
