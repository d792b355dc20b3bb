use vstd::prelude::*;

verus! {

/// `RLIMIT_NOFILE` of the process.
#[derive(Debug, Clone, Copy, PartialEq, Eq, Structural)]
pub struct NofileLimit {
    pub soft: u64,
    pub hard: u64,
}

/// Descriptors needed besides the two per connection (listener, runtime, logs, ...).
pub const FD_RESERVE: u64 = 64;

/// `rlimit::Resource::NOFILE.get()`: the soft and hard limits (`getrlimit`). Nothing is
/// claimed of them: they are the process's.
#[verifier::external_body]
fn nofile_get() -> Result<(u64, u64), std::io::Error> {
    rlimit::Resource::NOFILE.get()
}

/// `rlimit::increase_nofile_limit(lim)`: raises the soft limit towards `lim`, at most to the
/// hard limit (and on macOS to `kern.maxfilesperproc`); gives the soft limit it reached.
/// Nothing is claimed of the value: it depends on the process's limits.
#[verifier::external_body]
fn nofile_increase(lim: u64) -> Result<u64, std::io::Error> {
    rlimit::increase_nofile_limit(lim)
}

/// `rlimit::Resource::NOFILE.set(soft, hard)` (`setrlimit`).
#[verifier::external_body]
fn nofile_set(soft: u64, hard: u64) -> Result<(), std::io::Error> {
    rlimit::Resource::NOFILE.set(soft, hard)
}

/// # Errors
/// `getrlimit` failure.
pub fn current_nofile_limit() -> (r: Result<NofileLimit, std::io::Error>) {
    match nofile_get() {
        Ok((soft, hard)) => Ok(NofileLimit { soft, hard }),
        Err(error) => Err(error),
    }
}

/// Whether the soft limit must be put back after raising it: on macOS the raise is capped by
/// `kern.maxfilesperproc`, which can be below the soft limit the process already had.
pub fn must_restore(raised: u64, before: NofileLimit) -> (r: bool)
    ensures
        r == (raised < before.soft),
{
    raised < before.soft
}

/// Raises the soft `RLIMIT_NOFILE` to the hard limit (on macOS also capped by
/// `kern.maxfilesperproc`) and returns the resulting limits. Never lowers the soft limit: a
/// raise that ended below it is undone.
///
/// # Errors
/// `getrlimit`/`setrlimit` failure.
pub fn raise_nofile_limit() -> (r: Result<NofileLimit, std::io::Error>) {
    let before = match current_nofile_limit() {
        Ok(limit) => limit,
        Err(error) => return Err(error),
    };
    if before.soft < before.hard {
        let raised = match nofile_increase(u64::MAX) {
            Ok(raised) => raised,
            Err(error) => return Err(error),
        };
        if must_restore(raised, before) {
            match nofile_set(before.soft, before.hard) {
                Ok(()) => {},
                Err(error) => return Err(error),
            }
        }
    }
    current_nofile_limit()
}

/// Descriptors the server needs for `max_connections`: two per proxied connection (client
/// and target) and [`FD_RESERVE`].
pub fn descriptors_needed(max_connections: u32) -> (r: u64)
    ensures
        r == 2 * max_connections + FD_RESERVE,
{
    max_connections as u64 * 2 + FD_RESERVE
}

} // verus!
