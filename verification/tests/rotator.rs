use std::time::{Duration, Instant};

use ipinfo_round_robin_api::rotator::{Rotator, RotatorStats};

const SECOND: u128 = 1_000_000_000;

fn pause() {
    let start = Instant::now();
    while start.elapsed() < Duration::from_millis(1) {}
}

fn three(cooldown: u64) -> Rotator {
    Rotator::new(vec!["a".into(), "b".into(), "c".into()], cooldown)
}

#[test]
fn round_robin_order() {
    let mut r = Rotator::new(vec!["a".into(), "b".into(), "c".into()], 60);
    let k1 = r.next_key().unwrap();
    let k2 = r.next_key().unwrap();
    let k3 = r.next_key().unwrap();
    let k4 = r.next_key().unwrap();
    // Should cycle: a, b, c, a
    assert_eq!(k1, "a");
    assert_eq!(k2, "b");
    assert_eq!(k3, "c");
    assert_eq!(k4, "a");
}

#[test]
fn skip_cooling_key() {
    let mut r = Rotator::new(vec!["a".into(), "b".into()], 60);
    r.next_key(); // consume slot 0 (a)
    r.mark_cooldown("b");
    // next should skip b and return a
    let k = r.next_key().unwrap();
    assert_eq!(k, "a");
}

#[test]
fn all_cooling_returns_none() {
    let mut r = Rotator::new(vec!["a".into(), "b".into()], 60);
    r.mark_cooldown("a");
    r.mark_cooldown("b");
    assert!(r.next_key().is_none());
}

#[test]
fn cooldown_recovery() {
    let mut r = Rotator::new(vec!["a".into()], 0); // 0s cooldown
    r.mark_cooldown("a");
    // With 0s cooldown it should immediately recover
    pause();
    assert!(r.next_key().is_some());
}

#[test]
fn cooldown_lasts_exactly_as_configured() {
    let mut r = three(2);
    r.mark_cooldown_at("b", 10 * SECOND);
    assert!(!r.is_available_at(1, 12 * SECOND - 1));
    assert!(r.is_available_at(1, 12 * SECOND));
    assert_eq!(r.stats_at(12 * SECOND - 1), RotatorStats { total: 3, active: 2, cooling: 1 });
    assert_eq!(r.stats_at(12 * SECOND), RotatorStats { total: 3, active: 3, cooling: 0 });
}

#[test]
fn a_resting_slot_is_passed_over_and_the_ring_goes_on() {
    let mut r = three(60);
    r.mark_cooldown_at("a", 0);
    assert_eq!(r.next_key_at(1).unwrap(), "b");
    assert_eq!(r.next_key_at(1).unwrap(), "b");
    assert_eq!(r.next_key_at(1).unwrap(), "c");
    assert_eq!(r.next_slot_at(1), Some(1));
    assert_eq!(r.next_key_at(60 * SECOND).unwrap(), "b");
    assert_eq!(r.next_key_at(60 * SECOND).unwrap(), "c");
    assert_eq!(r.next_key_at(60 * SECOND).unwrap(), "a");
}

#[test]
fn failed_choices_turn_the_ring_too() {
    let mut r = three(1);
    r.mark_cooldown_at("a", 0);
    r.mark_cooldown_at("b", 0);
    r.mark_cooldown_at("c", 0);
    assert!(r.next_key_at(5).is_none());
    assert_eq!(r.next_key_at(SECOND).unwrap(), "b");
}

#[test]
fn unknown_key_is_not_marked() {
    let mut r = three(60);
    r.mark_cooldown_at("d", 0);
    assert_eq!(r.stats_at(1), RotatorStats { total: 3, active: 3, cooling: 0 });
}

#[test]
fn only_the_first_of_equal_keys_is_marked() {
    let mut r = Rotator::new(vec!["a".into(), "a".into()], 60);
    r.mark_cooldown_at("a", 0);
    assert_eq!(r.stats_at(1), RotatorStats { total: 2, active: 1, cooling: 1 });
    assert_eq!(r.next_slot_at(1), Some(1));
}

#[test]
fn marking_again_starts_the_rest_anew() {
    let mut r = three(2);
    r.mark_cooldown_at("a", 0);
    r.mark_cooldown_at("a", SECOND);
    assert!(!r.is_available_at(0, 3 * SECOND - 1));
    assert!(r.is_available_at(0, 3 * SECOND));
}

#[test]
fn longest_cooldown_is_counted() {
    let mut r = three(u64::MAX);
    r.mark_cooldown_at("a", 1);
    assert!(!r.is_available_at(0, u64::MAX as u128 * SECOND));
    assert!(r.is_available_at(0, u64::MAX as u128 * SECOND + 1));
}

#[test]
fn every_key_once_in_a_round() {
    let keys: Vec<String> = (0..7).map(|i| format!("key{i}")).collect();
    let mut r = Rotator::new(keys.clone(), 60);
    for _ in 0..3 {
        let mut round: Vec<String> = (0..7).map(|_| r.next_key_at(0).unwrap()).collect();
        round.sort();
        assert_eq!(round, keys);
    }
}

#[test]
fn key_of_slot() {
    let r = three(60);
    assert_eq!(r.key_of(0), "a");
    assert_eq!(r.key_of(2), "c");
}
