use std::sync::atomic::{AtomicU64, Ordering};
use vstd::prelude::*;

use crate::relay::saturating_millis;

verus! {

#[verifier::external_type_specification]
#[verifier::external_body]
pub struct ExStdInstant(std::time::Instant);

/// `std::time::Instant::now()`. Nothing is claimed of it.
#[verifier::external_body]
fn clock_now() -> std::time::Instant {
    std::time::Instant::now()
}

/// Milliseconds since `origin` (`origin.elapsed().as_millis()`). Nothing is claimed of the
/// value: it is the time.
#[verifier::external_body]
fn elapsed_millis(origin: &std::time::Instant) -> u128 {
    origin.elapsed().as_millis()
}

/// The throttle's decision at `now` (milliseconds): when `now` has reached `next_allowed`,
/// the line is let through and the next one is allowed a period later (saturating).
pub open spec fn throttle_step(now: u64, next_allowed: u64, period: u64) -> Option<u64> {
    if now >= next_allowed {
        Some(
            if now + period <= u64::MAX {
                (now + period) as u64
            } else {
                u64::MAX
            },
        )
    } else {
        None
    }
}

pub fn throttle_decision(now: u64, next_allowed: u64, period: u64) -> (r: Option<u64>)
    ensures
        r == throttle_step(now, next_allowed, period),
{
    if now >= next_allowed {
        Some(now.saturating_add(period))
    } else {
        None
    }
}

/// Lets a repetitive log line through at most once per period (e.g. "connection limit
/// reached" during a flood). Times are milliseconds since the throttle was made.
#[derive(Debug)]
pub struct LogThrottle {
    origin: std::time::Instant,
    period_ms: u64,
    next_allowed_ms: AtomicU64,
}

impl LogThrottle {
    /// The period, in milliseconds, between two lines let through.
    pub closed spec fn period(&self) -> u64 {
        self.period_ms
    }

    /// A throttle that lets the first line through and then one per `period_ms`.
    pub fn new(period_ms: u64) -> (r: Self)
        ensures
            r.period() == period_ms,
    {
        LogThrottle { origin: clock_now(), period_ms, next_allowed_ms: AtomicU64::new(0) }
    }

    /// True when the caller should log now: the clock has reached the next allowed moment
    /// (see [`throttle_step`]) and no other caller took this moment first.
    pub fn allow(&self) -> (r: bool) {
        let now = saturating_millis(elapsed_millis(&self.origin));
        let next_allowed = self.next_allowed_ms.load(Ordering::Relaxed);
        match throttle_decision(now, next_allowed, self.period_ms) {
            Some(next) => self.next_allowed_ms.compare_exchange(
                next_allowed,
                next,
                Ordering::Relaxed,
                Ordering::Relaxed,
            ).is_ok(),
            None => false,
        }
    }
}

/// After a line is let through at `now`, no other is until the period has passed, and the
/// first one asked for then is let through.
pub proof fn law_once_per_period(now: u64, next_allowed: u64, period: u64, later: u64)
    requires
        throttle_step(now, next_allowed, period) is Some,
        now <= later,
        now + period <= u64::MAX,
    ensures
        later < now + period ==> throttle_step(
            later,
            throttle_step(now, next_allowed, period)->0,
            period,
        ) is None,
        later >= now + period ==> throttle_step(
            later,
            throttle_step(now, next_allowed, period)->0,
            period,
        ) is Some,
{
}

} // verus!
