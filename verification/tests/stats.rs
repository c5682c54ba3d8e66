use ipinfo_round_robin_api::stats::Stats;

#[test]
fn counters_start_at_zero() {
    let stats = Stats::new();
    assert_eq!(stats.requests_total, 0);
    assert_eq!(stats.requests_proxied, 0);
    assert_eq!(stats.requests_cached, 0);
    assert_eq!(stats.upstream_errors, 0);
    assert_eq!(stats.keys_exhausted, 0);
}

#[test]
fn each_counter_counts_for_itself() {
    let mut stats = Stats::new();
    stats.inc_total();
    stats.inc_total();
    stats.inc_proxied();
    stats.inc_cached();
    stats.inc_cached();
    stats.inc_cached();
    stats.inc_upstream_errors();
    stats.inc_keys_exhausted();
    assert_eq!(
        stats,
        Stats {
            requests_total: 2,
            requests_proxied: 1,
            requests_cached: 3,
            upstream_errors: 1,
            keys_exhausted: 1,
        }
    );
}

#[test]
fn counters_start_anew_after_their_end() {
    let mut stats = Stats::new();
    stats.requests_total = u64::MAX;
    stats.inc_total();
    assert_eq!(stats.requests_total, 0);
}
