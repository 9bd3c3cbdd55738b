use real_time_system::cache::memory::{FactorizationCache, HitRate, ReloadError};
use real_time_system::models::CacheEntry;

fn entry(number: u64, factors: Vec<u64>, ms: u64, algorithm: &str) -> CacheEntry {
    CacheEntry { number, factors, computation_time_ms: ms, algorithm: algorithm.to_string() }
}

#[test]
fn new_cache_is_empty() {
    let cache = FactorizationCache::new();
    assert_eq!(cache.len(), 0);
    assert!(cache.is_empty());
    assert_eq!(cache.get_cache_stats(), (0, 0, HitRate { hits: 0, lookups: 0 }));
}

#[test]
fn hit_rate_is_zero_before_any_lookup() {
    let cache = FactorizationCache::new();
    let rate = cache.get_hit_rate();
    assert_eq!(rate, HitRate { hits: 0, lookups: 0 });
    assert!(rate.is_zero());
}

#[test]
fn get_on_a_missing_key_counts_a_lookup_only() {
    let mut cache = FactorizationCache::new();
    assert!(cache.get(42).is_none());
    assert_eq!(cache.get_cache_stats(), (1, 0, HitRate { hits: 0, lookups: 1 }));
    assert!(cache.get_hit_rate().is_zero());
}

#[test]
fn get_returns_the_stored_record() {
    let mut cache = FactorizationCache::new();
    cache.insert_with_factors(84, vec![2, 2, 3, 7], 150, "simple_trial".to_string());
    let found = cache.get(84).expect("the record was stored");
    assert_eq!(found.number, 84);
    assert_eq!(found.factors, vec![2, 2, 3, 7]);
    assert_eq!(found.computation_time_ms, 150);
    assert_eq!(found.algorithm, "simple_trial");
    assert_eq!(cache.len(), 1);
    assert!(!cache.is_empty());
    assert!(!cache.get_hit_rate().is_zero());
}

#[test]
fn hit_rate_counts_hits_over_lookups() {
    let mut cache = FactorizationCache::new();
    cache.insert_with_factors(6, vec![2, 3], 1, "simple_trial".to_string());
    cache.insert_with_factors(10, vec![2, 5], 1, "simple_trial".to_string());
    assert!(cache.get(6).is_some());
    assert!(cache.get(7).is_none());
    assert!(cache.get(10).is_some());
    assert!(cache.get(6).is_some());
    assert!(cache.get(11).is_none());
    assert_eq!(cache.get_hit_rate(), HitRate { hits: 3, lookups: 5 });
    assert_eq!(cache.get_cache_stats(), (5, 3, HitRate { hits: 3, lookups: 5 }));
}

#[test]
fn hit_rate_for_all_hits_and_all_misses() {
    let mut cache = FactorizationCache::new();
    cache.insert_with_factors(6, vec![2, 3], 1, "simple_trial".to_string());
    for _ in 0..4 {
        assert!(cache.get(6).is_some());
    }
    assert_eq!(cache.get_hit_rate(), HitRate { hits: 4, lookups: 4 });
    let mut other = FactorizationCache::new();
    for n in 0..4 {
        assert!(other.get(n).is_none());
    }
    assert_eq!(other.get_hit_rate(), HitRate { hits: 0, lookups: 4 });
}

#[test]
fn insert_overwrites_the_record_of_a_key() {
    let mut cache = FactorizationCache::new();
    cache.insert_with_factors(12, vec![12], 5, "first".to_string());
    cache.insert_with_factors(12, vec![2, 2, 3], 9, "second".to_string());
    assert_eq!(cache.len(), 1);
    let found = cache.get(12).expect("the record was stored");
    assert_eq!(found.factors, vec![2, 2, 3]);
    assert_eq!(found.computation_time_ms, 9);
    assert_eq!(found.algorithm, "second");
}

#[test]
fn inserts_of_distinct_keys_are_all_kept() {
    let mut cache = FactorizationCache::new();
    for n in 2u64..502 {
        cache.insert_with_factors(n, vec![n], n, "simple_trial".to_string());
    }
    assert_eq!(cache.len(), 500);
    for n in 2u64..502 {
        let found = cache.get(n).expect("every insert is kept");
        assert_eq!(found.number, n);
        assert_eq!(found.factors, vec![n]);
    }
}

#[test]
fn reload_is_additive() {
    let mut cache = FactorizationCache::new();
    cache.insert_with_factors(7, vec![7], 3, "simple_trial".to_string());
    let outcome = cache.reload(Ok(vec![entry(9, vec![3, 3], 4, "snapshot")]));
    assert_eq!(outcome, Ok(1));
    assert_eq!(cache.len(), 2);
    assert_eq!(cache.get(7).expect("still there").factors, vec![7]);
    assert_eq!(cache.get(9).expect("merged in").factors, vec![3, 3]);
}

#[test]
fn reload_overwrites_and_the_last_record_of_a_key_wins() {
    let mut cache = FactorizationCache::new();
    cache.insert_with_factors(8, vec![8], 1, "old".to_string());
    let snapshot = vec![
        entry(8, vec![2, 4], 2, "first"),
        entry(15, vec![3, 5], 3, "only"),
        entry(8, vec![2, 2, 2], 4, "last"),
    ];
    assert_eq!(cache.reload(Ok(snapshot)), Ok(3));
    assert_eq!(cache.len(), 2);
    let eight = cache.get(8).expect("merged in");
    assert_eq!(eight.factors, vec![2, 2, 2]);
    assert_eq!(eight.computation_time_ms, 4);
    assert_eq!(eight.algorithm, "last");
    assert_eq!(cache.get(15).expect("merged in").algorithm, "only");
}

#[test]
fn reload_of_an_empty_snapshot_changes_nothing() {
    let mut cache = FactorizationCache::new();
    cache.insert_with_factors(7, vec![7], 3, "simple_trial".to_string());
    assert_eq!(cache.reload(Ok(Vec::new())), Ok(0));
    assert_eq!(cache.len(), 1);
}

#[test]
fn reload_failure_leaves_the_cache_as_it_was() {
    let mut cache = FactorizationCache::new();
    cache.insert_with_factors(7, vec![7], 3, "simple_trial".to_string());
    assert!(cache.get(7).is_some());
    assert_eq!(cache.reload(Err(ReloadError::Io)), Err(ReloadError::Io));
    assert_eq!(cache.reload(Err(ReloadError::Parse)), Err(ReloadError::Parse));
    assert_eq!(cache.len(), 1);
    assert_eq!(cache.get_cache_stats(), (1, 1, HitRate { hits: 1, lookups: 1 }));
    assert_eq!(cache.get(7).expect("still there").factors, vec![7]);
}

#[test]
fn reload_does_not_touch_the_counters() {
    let mut cache = FactorizationCache::new();
    assert!(cache.get(1).is_none());
    assert_eq!(cache.merge_snapshot(vec![entry(1, vec![], 0, "snapshot")]), 1);
    assert_eq!(cache.get_cache_stats(), (1, 0, HitRate { hits: 0, lookups: 1 }));
    assert!(cache.get(1).is_some());
    assert_eq!(cache.get_cache_stats(), (2, 1, HitRate { hits: 1, lookups: 2 }));
}
