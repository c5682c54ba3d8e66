use std::time::{Duration, Instant};

use ipinfo_round_robin_api::cache::Cache;

const SECOND: u128 = 1_000_000_000;

fn make_entry(body: &str) -> (Vec<u8>, String, u16) {
    (body.as_bytes().to_vec(), "application/json".into(), 200)
}

fn pause() {
    let start = Instant::now();
    while start.elapsed() < Duration::from_millis(1) {}
}

#[test]
fn basic_hit_miss() {
    let mut c = Cache::new(300, 100);
    assert!(c.get("k1").is_none());
    let (b, ct, s) = make_entry("{}");
    c.insert("k1".into(), b, ct, s);
    assert!(c.get("k1").is_some());
    let stats = c.stats();
    assert_eq!(stats.hits, 1);
    assert_eq!(stats.misses, 1);
}

#[test]
fn ttl_expiry() {
    let mut c = Cache::new(0, 100);
    let (b, ct, s) = make_entry("{}");
    c.insert("k1".into(), b, ct, s);
    pause();
    assert!(c.get("k1").is_none());
}

#[test]
fn lru_eviction_at_capacity() {
    let mut c = Cache::new(300, 2);
    let (b1, ct1, s1) = make_entry("1");
    let (b2, ct2, s2) = make_entry("2");
    let (b3, ct3, s3) = make_entry("3");

    c.insert("k1".into(), b1, ct1, s1);
    pause();
    c.insert("k2".into(), b2, ct2, s2);

    // Touch k1 so k2 becomes LRU
    c.get("k1");

    // Inserting k3 should evict k2 (least recently used)
    c.insert("k3".into(), b3, ct3, s3);

    assert!(c.get("k1").is_some(), "k1 should still be present");
    assert!(c.get("k2").is_none(), "k2 should have been evicted");
    assert!(c.get("k3").is_some(), "k3 should be present");
    assert_eq!(c.stats().evictions, 1);
}

#[test]
fn clear_flushes_all() {
    let mut c = Cache::new(300, 100);
    let (b, ct, s) = make_entry("{}");
    c.insert("k1".into(), b.clone(), ct.clone(), s);
    c.insert("k2".into(), b, ct, s);
    c.clear();
    assert_eq!(c.stats().size, 0);
}

fn put(c: &mut Cache, key: &str, body: &str, now: u128) {
    c.insert_at(key.into(), body.as_bytes().to_vec(), "text/plain".into(), 203, now);
}

#[test]
fn stored_response_is_read_back_until_it_expires() {
    let mut c = Cache::new(2, 10);
    put(&mut c, "k", "body", 5 * SECOND);
    let entry = c.get_at("k", 7 * SECOND - 1).unwrap();
    assert_eq!(entry.body, b"body".to_vec());
    assert_eq!(entry.content_type, "text/plain");
    assert_eq!(entry.status, 203);
    assert_eq!(c.stats().size, 1);
    assert!(c.get_at("k", 7 * SECOND).is_none());
    assert_eq!(c.stats().size, 0);
    assert!(c.get_at("k", 6 * SECOND).is_none());
    let stats = c.stats();
    assert_eq!((stats.hits, stats.misses), (1, 2));
}

#[test]
fn a_hit_does_not_renew_an_entry() {
    let mut c = Cache::new(2, 10);
    put(&mut c, "k", "body", 0);
    assert!(c.get_at("k", SECOND).is_some());
    assert!(c.get_at("k", 2 * SECOND).is_none());
}

#[test]
fn an_entry_from_the_future_has_no_age() {
    let mut c = Cache::new(1, 10);
    put(&mut c, "k", "body", 5 * SECOND);
    assert!(c.get_at("k", 0).is_some());
}

#[test]
fn storing_again_replaces_without_eviction() {
    let mut c = Cache::new(300, 1);
    put(&mut c, "k", "old", 1);
    put(&mut c, "k", "new", 2);
    assert_eq!(c.get_at("k", 3).unwrap().body, b"new".to_vec());
    let stats = c.stats();
    assert_eq!((stats.size, stats.evictions), (1, 0));
}

#[test]
fn least_recently_used_entry_goes_first() {
    let mut c = Cache::new(300, 3);
    put(&mut c, "a", "1", 1);
    put(&mut c, "b", "2", 2);
    put(&mut c, "c", "3", 3);
    assert!(c.get_at("a", 4).is_some());
    put(&mut c, "d", "4", 5);
    assert!(c.get_at("b", 6).is_none());
    assert!(c.get_at("a", 6).is_some());
    assert!(c.get_at("c", 6).is_some());
    assert!(c.get_at("d", 6).is_some());
    let stats = c.stats();
    assert_eq!((stats.size, stats.evictions), (3, 1));
}

#[test]
fn capacity_is_kept() {
    let mut c = Cache::new(300, 4);
    for i in 0..50u128 {
        put(&mut c, &format!("k{i}"), "x", i);
        assert!(c.stats().size <= 4);
    }
    assert_eq!(c.stats().evictions, 46);
    for i in 46..50u128 {
        assert!(c.get_at(&format!("k{i}"), 60).is_some());
    }
}

#[test]
fn a_cache_without_capacity_holds_one_entry() {
    let mut c = Cache::new(300, 0);
    put(&mut c, "a", "1", 1);
    assert_eq!((c.stats().size, c.stats().evictions), (1, 0));
    put(&mut c, "b", "2", 2);
    assert_eq!((c.stats().size, c.stats().evictions), (1, 1));
    assert!(c.get_at("a", 3).is_none());
    assert!(c.get_at("b", 3).is_some());
}

#[test]
fn flush_keeps_the_counters() {
    let mut c = Cache::new(300, 1);
    put(&mut c, "a", "1", 1);
    put(&mut c, "b", "2", 2);
    c.get_at("b", 3);
    c.get_at("a", 3);
    c.clear();
    let stats = c.stats();
    assert_eq!((stats.hits, stats.misses, stats.size, stats.evictions), (1, 1, 0, 1));
    assert!(c.get_at("b", 3).is_none());
}
