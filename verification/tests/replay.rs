use dogel::replay::ReplayCache;

#[test]
fn replay_cache_rejects_duplicates_and_evicts_oldest() {
    let mut cache = ReplayCache::with_capacity(2);

    assert!(cache.insert("a".to_string()));
    assert!(!cache.insert("a".to_string()));
    assert!(cache.insert("b".to_string()));
    assert!(cache.insert("c".to_string()));

    assert_eq!(cache.len(), 2);
    assert!(cache.insert("a".to_string()));
}

#[test]
fn the_default_cache_remembers_many_messages() {
    let mut cache = ReplayCache::default();
    for i in 0..4096 {
        assert!(cache.insert(format!("{i}")));
    }
    assert!(!cache.insert("0".to_string()));
    assert!(cache.insert("next".to_string()));
    assert_eq!(cache.len(), 4096);
    assert!(cache.insert("0".to_string()));
}

#[test]
fn a_key_is_refused_while_fewer_keys_than_fit_come_after_it() {
    let mut cache = ReplayCache::with_capacity(4);
    assert!(cache.insert("a".to_string()));
    for key in ["b", "c", "d"] {
        assert!(cache.insert(key.to_string()));
        assert!(!cache.insert("a".to_string()));
    }
    assert!(cache.insert("e".to_string()));
    assert!(cache.insert("a".to_string()));
}
