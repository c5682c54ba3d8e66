//! The monotonic clock that cooldowns, time-to-live and recency are measured on.

use vstd::prelude::*;

verus! {

/// `web_time::Instant`, a reading of the monotonic clock. Where the platform has one, it is the
/// `Instant` of the standard library.
#[verifier::external_type_specification]
#[verifier::external_body]
pub struct ExInstant(web_time::Instant);

/// `Instant::now` reads the clock. Nothing is said of what it reads.
pub assume_specification[ web_time::Instant::now ]() -> web_time::Instant;

/// `Instant::elapsed` measures the time since an earlier reading. Nothing is said of how long
/// that is.
pub assume_specification[ web_time::Instant::elapsed ](
    earlier: &web_time::Instant,
) -> web_time::Duration;

/// The length of a duration in nanoseconds.
pub uninterp spec fn nanoseconds(duration: web_time::Duration) -> u128;

/// `Duration::as_nanos` gives the length of a duration in nanoseconds. The longest duration
/// there is has `u64::MAX` seconds and 999,999,999 nanoseconds.
pub assume_specification[ web_time::Duration::as_nanos ](duration: &web_time::Duration) -> (nanos:
    u128)
    ensures
        nanos == nanoseconds(*duration),
        nanos <= LAST_TICK,
;

/// The largest reading of a [`Clock`]: the longest duration in nanoseconds.
pub const LAST_TICK: u128 = 18_446_744_073_709_551_615_999_999_999;

/// Nanoseconds in a second.
pub const SECOND: u128 = 1_000_000_000;

/// A clock that counts nanoseconds from the moment it was started.
#[derive(Clone, Copy)]
pub struct Clock {
    started: web_time::Instant,
}

impl Clock {
    /// Whether `tick` is a reading of this clock: the length of a time that
    /// `web_time::Instant::elapsed` can measure since the moment the clock was started.
    pub closed spec fn reads(&self, tick: u128) -> bool {
        exists|since: web_time::Duration| #[trigger]
            call_ensures(web_time::Instant::elapsed, (&self.started,), since) && tick
                == nanoseconds(since)
    }

    /// Starts a clock.
    pub fn start() -> Clock {
        Clock { started: web_time::Instant::now() }
    }

    /// Nanoseconds since the clock was started.
    pub fn now(&self) -> (tick: u128)
        ensures
            tick <= LAST_TICK,
            self.reads(tick),
    {
        let since: web_time::Duration = self.started.elapsed();
        since.as_nanos()
    }
}

} // verus!
