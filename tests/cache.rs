use party_engine::app_cache::AppCache;
use party_engine::cache::{CacheConfig, CoalescingCache, Lookup};

fn config(ttl: u64, tti: Option<u64>, cap: u64) -> CacheConfig {
    CacheConfig { time_to_live_ms: ttl, time_to_idle_ms: tti, max_capacity: cap }
}

fn key(s: &str) -> String {
    s.to_string()
}

#[test]
fn concurrent_readers_share_one_computation() {
    let mut c: CoalescingCache<u32> = CoalescingCache::new(config(1000, None, 10));
    let k = key("party");
    assert!(c.begin(&k, 0) == Lookup::Start);
    for t in 1..5u64 {
        assert!(c.begin(&k, t) == Lookup::Join);
    }
    c.finish(&k, Some(42), 5);
    assert_eq!(c.value(&k), Some(&42));
    assert!(c.begin(&k, 6) == Lookup::Hit);
    assert_eq!(c.size(), 1);
}

#[test]
fn failed_computation_is_not_cached() {
    let mut c: CoalescingCache<u32> = CoalescingCache::new(config(1000, None, 10));
    let k = key("k");
    assert!(c.begin(&k, 0) == Lookup::Start);
    assert!(c.begin(&k, 1) == Lookup::Join);
    c.finish(&k, None, 2);
    assert_eq!(c.value(&k), None);
    assert!(c.begin(&k, 3) == Lookup::Start);
}

#[test]
fn entry_expires_at_time_to_live() {
    let mut c: CoalescingCache<u32> = CoalescingCache::new(config(100, None, 10));
    let k = key("k");
    assert!(c.begin(&k, 10) == Lookup::Start);
    c.finish(&k, Some(7), 10);
    assert!(c.begin(&k, 50) == Lookup::Hit);
    assert!(c.begin(&k, 109) == Lookup::Hit);
    assert!(c.begin(&k, 110) == Lookup::Start);
    assert_eq!(c.value(&k), None);
}

#[test]
fn entry_expires_when_idle() {
    let mut c: CoalescingCache<u32> = CoalescingCache::new(config(1000, Some(30), 10));
    let k = key("k");
    assert!(c.begin(&k, 0) == Lookup::Start);
    c.finish(&k, Some(1), 0);
    assert!(c.begin(&k, 20) == Lookup::Hit);
    assert!(c.begin(&k, 45) == Lookup::Hit);
    assert!(c.begin(&k, 75) == Lookup::Start);
}

#[test]
fn invalidate_removes_entry_but_not_flight() {
    let mut c: CoalescingCache<u32> = CoalescingCache::new(config(1000, None, 10));
    let a = key("a");
    let b = key("b");
    assert!(c.begin(&a, 0) == Lookup::Start);
    c.finish(&a, Some(1), 0);
    c.invalidate(&a);
    assert_eq!(c.value(&a), None);
    assert!(c.begin(&b, 0) == Lookup::Start);
    c.invalidate(&b);
    assert!(c.begin(&b, 1) == Lookup::Join);
    c.finish(&b, Some(2), 2);
    assert_eq!(c.value(&b), Some(&2));
}

#[test]
fn sweep_drops_expired_then_least_recently_used() {
    let mut c: CoalescingCache<u32> = CoalescingCache::new(config(100, None, 2));
    for (i, name) in ["a", "b", "c", "d"].iter().enumerate() {
        let k = key(name);
        assert!(c.begin(&k, i as u64 * 10) == Lookup::Start);
        c.finish(&k, Some(i as u32), i as u64 * 10);
    }
    // "a" is read again late, so "b" and "c" are the least recently used.
    assert!(c.begin(&key("a"), 40) == Lookup::Hit);
    c.sweep(45);
    assert_eq!(c.size(), 2);
    assert_eq!(c.value(&key("a")), Some(&0));
    assert_eq!(c.value(&key("d")), Some(&3));
    assert_eq!(c.value(&key("b")), None);
    c.sweep(130);
    assert_eq!(c.size(), 0);
}

#[test]
fn sweep_keeps_everything_under_capacity() {
    let mut c: CoalescingCache<u32> = CoalescingCache::new(config(100, None, 5));
    for name in ["a", "b", "c"] {
        let k = key(name);
        assert!(c.begin(&k, 0) == Lookup::Start);
        c.finish(&k, Some(1), 0);
    }
    c.sweep(50);
    assert_eq!(c.size(), 3);
}

#[test]
fn app_cache_starts_empty_and_collects() {
    let mut caches = AppCache::new();
    assert_eq!(caches.get_sizes(), (0, 0, 0, 0, 0, 0));
    let k = key("q");
    assert!(caches.rm_search.begin(&k, 0) == Lookup::Start);
    caches.rm_search.finish(
        &k,
        Some(party_engine::models::SearchResponse {
            meta: party_engine::models::SearchMeta { status: "ok".to_string(), status_code: 200 },
            data: vec![],
        }),
        0,
    );
    assert_eq!(caches.get_sizes(), (0, 0, 1, 0, 0, 0));
    caches.collect_all(30_000);
    assert_eq!(caches.get_sizes(), (0, 0, 1, 0, 0, 0));
    caches.collect_all(60_000);
    assert_eq!(caches.get_sizes(), (0, 0, 0, 0, 0, 0));
    assert_eq!(caches.party_state.config().time_to_live_ms, 300_000);
    assert_eq!(caches.party_state.config().max_capacity, 1000);
}
