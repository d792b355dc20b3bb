use std::sync::atomic::{AtomicU64, Ordering};
use vstd::prelude::*;

use crate::policy::nondecreasing;

verus! {

#[verifier::external_type_specification]
#[verifier::external_body]
pub struct ExTokioInstant(tokio::time::Instant);

/// `tokio::time::Instant::now()`: the current moment of Tokio's clock (which tests may pause
/// and advance). Nothing is claimed of it.
#[verifier::external_body]
fn tokio_now() -> tokio::time::Instant {
    tokio::time::Instant::now()
}

/// Milliseconds of Tokio's clock since `origin` (`origin.elapsed().as_millis()`). Nothing is
/// claimed of the value: it is the time.
#[verifier::external_body]
fn millis_since(origin: &tokio::time::Instant) -> u128 {
    origin.elapsed().as_millis()
}

/// A count of milliseconds as a `u64`, `u64::MAX` when it does not fit.
pub fn saturating_millis(ms: u128) -> (r: u64)
    ensures
        r == if ms <= u64::MAX {
            ms as u64
        } else {
            u64::MAX
        },
{
    if ms <= u64::MAX as u128 {
        ms as u64
    } else {
        u64::MAX
    }
}

/// Idle time at `now` when the last activity was at `last` (both milliseconds from the
/// clock's start): zero if `last` is later.
pub open spec fn idle_time(now: u64, last: u64) -> u64 {
    if now >= last {
        (now - last) as u64
    } else {
        0
    }
}

/// Time left of `idle_timeout` after `idle`: zero once it has passed.
pub open spec fn time_left(idle_timeout: u64, idle: u64) -> u64 {
    if idle_timeout >= idle {
        (idle_timeout - idle) as u64
    } else {
        0
    }
}

pub fn idle_time_at(now: u64, last: u64) -> (r: u64)
    ensures
        r == idle_time(now, last),
{
    now.saturating_sub(last)
}

pub fn time_left_after(idle_timeout: u64, idle: u64) -> (r: u64)
    ensures
        r == time_left(idle_timeout, idle),
{
    idle_timeout.saturating_sub(idle)
}

/// Last moment any byte moved through a relayed connection, in either direction.
///
/// Both copy directions share one clock: a connection is idle only when *neither* direction
/// made progress, so a long download with a silent upload direction is not idle. Times are
/// milliseconds.
#[derive(Debug)]
pub struct ActivityClock {
    origin: tokio::time::Instant,
    last_activity_ms: AtomicU64,
}

impl ActivityClock {
    /// Starts counting idle time from now.
    pub fn new() -> (r: Self) {
        ActivityClock { origin: tokio_now(), last_activity_ms: AtomicU64::new(0) }
    }

    fn now_ms(&self) -> (r: u64) {
        saturating_millis(millis_since(&self.origin))
    }

    /// Records progress.
    pub fn touch(&self) {
        let now = self.now_ms();
        self.last_activity_ms.store(now, Ordering::Relaxed);
    }

    /// How long nothing moved (see [`idle_time`]), by the clock and the shared last moment as
    /// they are read.
    pub fn idle_for(&self) -> (r: u64) {
        let last = self.last_activity_ms.load(Ordering::Relaxed);
        let now = self.now_ms();
        idle_time_at(now, last)
    }

    /// Time left until the connection has been idle for `idle_timeout`; zero once it has.
    pub fn remaining(&self, idle_timeout: u64) -> (r: u64)
        ensures
            r <= idle_timeout,
    {
        let idle = self.idle_for();
        time_left_after(idle_timeout, idle)
    }
}

/// A connection has time left exactly until nothing has moved for the whole idle timeout;
/// activity at `now` gives it the whole timeout again.
pub proof fn law_idle_deadline(now: u64, last: u64, idle_timeout: u64)
    requires
        last <= now,
    ensures
        (time_left(idle_timeout, idle_time(now, last)) == 0) == (now - last >= idle_timeout),
        time_left(idle_timeout, idle_time(now, now)) == idle_timeout,
{
}

/// The last activity at or before `t` in a schedule of activity times; the clock's start,
/// 0, when there is none.
pub open spec fn last_activity(touches: Seq<u64>, t: u64) -> u64
    decreases touches.len(),
{
    if touches.len() == 0 {
        0
    } else if touches.last() <= t {
        touches.last()
    } else {
        last_activity(touches.drop_last(), t)
    }
}

proof fn lemma_last_activity(touches: Seq<u64>, t: u64)
    requires
        nondecreasing(touches),
    ensures
        last_activity(touches, t) <= t,
        forall|i: int| 0 <= i < touches.len() && touches[i] <= t ==> touches[i] <= last_activity(
            touches,
            t,
        ),
        last_activity(touches, t) == 0 || exists|i: int|
            0 <= i < touches.len() && touches[i] <= t && touches[i] == last_activity(touches, t),
    decreases touches.len(),
{
    if touches.len() > 0 {
        let rest = touches.drop_last();
        lemma_last_activity(rest, t);
        assert forall|i: int| 0 <= i < touches.len() && touches[i] <= t implies touches[i]
            <= last_activity(touches, t) by {
            if i < rest.len() {
                assert(rest[i] == touches[i]);
            }
        }
        if touches.last() > t && last_activity(rest, t) != 0 {
            let i = choose|i: int|
                0 <= i < rest.len() && rest[i] <= t && rest[i] == last_activity(rest, t);
            assert(touches[i] == rest[i]);
        }
    }
}

/// Over a schedule of activity (bytes moving in either direction) from the clock's start, a
/// relayed connection has no time left at `t` exactly when the idle timeout has passed since
/// the start and since every activity up to `t`: it idles out only after nothing moved for the
/// whole timeout, and traffic in either direction at least once per timeout keeps it alive.
pub proof fn law_idle_only_after_quiet_timeout(touches: Seq<u64>, idle_timeout: u64, t: u64)
    requires
        nondecreasing(touches),
    ensures
        (time_left(idle_timeout, idle_time(t, last_activity(touches, t))) == 0) <==> (t
            >= idle_timeout && forall|i: int|
            0 <= i < touches.len() && touches[i] <= t ==> t - touches[i] >= idle_timeout),
{
    lemma_last_activity(touches, t);
    let l = last_activity(touches, t);
    if l != 0 {
        let i = choose|i: int| 0 <= i < touches.len() && touches[i] <= t && touches[i] == l;
        assert(touches[i] <= t);
    }
}

} // verus!
