//! Request counters, and the answers of the internal endpoints that report them.

use vstd::prelude::*;

use crate::cache::CacheStats;
use crate::rotator::RotatorStats;

verus! {

/// One more on a counter that starts anew after its largest value.
pub open spec fn bump(count: u64) -> u64 {
    if count == u64::MAX {
        0
    } else {
        (count + 1) as u64
    }
}

/// Request counters of the whole server.
#[derive(Clone, Copy, Debug, PartialEq, Eq, Structural)]
pub struct Stats {
    pub requests_total: u64,
    pub requests_proxied: u64,
    pub requests_cached: u64,
    pub upstream_errors: u64,
    pub keys_exhausted: u64,
}

impl Stats {
    /// All counters at zero.
    pub fn new() -> (stats: Stats)
        ensures
            stats == zero_stats(),
    {
        Stats {
            requests_total: 0,
            requests_proxied: 0,
            requests_cached: 0,
            upstream_errors: 0,
            keys_exhausted: 0,
        }
    }

    /// Counts a request.
    pub fn inc_total(&mut self)
        ensures
            *final(self) == (Stats {
                requests_total: bump(old(self).requests_total),
                ..*old(self)
            }),
    {
        self.requests_total = self.requests_total.wrapping_add(1);
    }

    /// Counts a request that was answered by the upstream.
    pub fn inc_proxied(&mut self)
        ensures
            *final(self) == (Stats {
                requests_proxied: bump(old(self).requests_proxied),
                ..*old(self)
            }),
    {
        self.requests_proxied = self.requests_proxied.wrapping_add(1);
    }

    /// Counts a request that was answered from the cache.
    pub fn inc_cached(&mut self)
        ensures
            *final(self) == (Stats {
                requests_cached: bump(old(self).requests_cached),
                ..*old(self)
            }),
    {
        self.requests_cached = self.requests_cached.wrapping_add(1);
    }

    /// Counts a failure of the upstream.
    pub fn inc_upstream_errors(&mut self)
        ensures
            *final(self) == (Stats {
                upstream_errors: bump(old(self).upstream_errors),
                ..*old(self)
            }),
    {
        self.upstream_errors = self.upstream_errors.wrapping_add(1);
    }

    /// Counts a request that found all keys cooling down.
    pub fn inc_keys_exhausted(&mut self)
        ensures
            *final(self) == (Stats {
                keys_exhausted: bump(old(self).keys_exhausted),
                ..*old(self)
            }),
    {
        self.keys_exhausted = self.keys_exhausted.wrapping_add(1);
    }
}

/// All counters at zero.
pub open spec fn zero_stats() -> Stats {
    Stats {
        requests_total: 0,
        requests_proxied: 0,
        requests_cached: 0,
        upstream_errors: 0,
        keys_exhausted: 0,
    }
}

/// Response body for `GET /stats`.
#[derive(Clone, Copy, Debug, PartialEq, Eq, Structural)]
pub struct StatsResponse {
    pub requests_total: u64,
    pub requests_proxied: u64,
    pub requests_cached: u64,
    pub upstream_errors: u64,
    pub keys_exhausted: u64,
    pub cache: CacheStats,
    pub keys: RotatorStats,
}

/// The answer to `GET /stats` for given counters.
pub open spec fn stats_report(
    stats: Stats,
    cache: CacheStats,
    keys: RotatorStats,
) -> StatsResponse {
    StatsResponse {
        requests_total: stats.requests_total,
        requests_proxied: stats.requests_proxied,
        requests_cached: stats.requests_cached,
        upstream_errors: stats.upstream_errors,
        keys_exhausted: stats.keys_exhausted,
        cache,
        keys,
    }
}

/// Response body for `GET /health`.
#[derive(Clone, Copy, Debug)]
pub struct HealthResponse {
    pub status: &'static str,
    pub keys: RotatorStats,
}

/// How the server is doing: all right as long as a key is active.
pub open spec fn health_status(keys: RotatorStats) -> Seq<char> {
    if keys.active > 0 {
        "ok"@
    } else {
        "degraded"@
    }
}

/// Says how the server is doing.
pub fn health(keys: RotatorStats) -> (status: &'static str)
    ensures
        status@ == health_status(keys),
{
    if keys.active > 0 {
        "ok"
    } else {
        "degraded"
    }
}

/// A counter goes up by one, and starts anew at zero after its largest value.
pub proof fn law_counters_go_up_by_one(count: u64)
    ensures
        count < u64::MAX ==> bump(count) == count + 1,
        count == u64::MAX ==> bump(count) == 0,
{
}

/// A report tells every counter under its own name.
pub proof fn law_report_tells_each_counter(stats: Stats, cache: CacheStats, keys: RotatorStats)
    ensures
        stats_report(stats, cache, keys).requests_total == stats.requests_total,
        stats_report(stats, cache, keys).requests_proxied == stats.requests_proxied,
        stats_report(stats, cache, keys).requests_cached == stats.requests_cached,
        stats_report(stats, cache, keys).upstream_errors == stats.upstream_errors,
        stats_report(stats, cache, keys).keys_exhausted == stats.keys_exhausted,
        stats_report(stats, cache, keys).cache == cache,
        stats_report(stats, cache, keys).keys == keys,
{
}

/// The counters start at zero, and the server is all right as long as a key is active.
pub proof fn law_health_is_an_active_key(keys: RotatorStats)
    ensures
        zero_stats().requests_total == 0,
        zero_stats().requests_proxied == 0,
        zero_stats().requests_cached == 0,
        zero_stats().upstream_errors == 0,
        zero_stats().keys_exhausted == 0,
        keys.active > 0 ==> health_status(keys) == "ok"@,
        keys.active == 0 ==> health_status(keys) == "degraded"@,
{
}

} // verus!
