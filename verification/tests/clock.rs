use std::time::{Duration, Instant};

use ipinfo_round_robin_api::clock::{Clock, LAST_TICK, SECOND};

#[test]
fn clock_counts_nanoseconds() {
    let clock = Clock::start();
    let before = clock.now();
    let start = Instant::now();
    while start.elapsed() < Duration::from_millis(2) {}
    let after = clock.now();
    assert!(after >= before + 2_000_000);
    assert!(after < before + 15 * SECOND);
}

#[test]
fn last_tick_is_the_longest_duration() {
    assert_eq!(LAST_TICK, Duration::MAX.as_nanos());
}
