use vstd::prelude::*;

use crate::net::SocketAddress;
use crate::policy::{DenyReason, DestinationPolicy, canonical, canonical_ip};
use crate::socks::ReplyCode;

verus! {

/// Upper bound of resolved addresses tried for one request.
pub const MAX_CONNECT_ATTEMPTS: usize = 8;

#[derive(Debug)]
pub enum ConnectError {
    Denied(DenyReason),
    Resolve(std::io::Error),
    NoAddresses,
    /// A `connect()` failed with `error`, of the kind `failure`.
    Connect { error: std::io::Error, failure: ConnectFailure },
}

/// What a failed `connect()` reports, as far as the reply to the client depends on it.
#[derive(Debug, Clone, Copy, PartialEq, Eq, Structural)]
pub enum ConnectFailure {
    ConnectionRefused,
    NetworkUnreachable,
    HostUnreachable,
    TimedOut,
    Other,
}

/// The SOCKS reply for a failed `connect()`.
pub open spec fn failure_reply(failure: ConnectFailure) -> ReplyCode {
    match failure {
        ConnectFailure::ConnectionRefused => ReplyCode::ConnectionRefused,
        ConnectFailure::NetworkUnreachable => ReplyCode::NetworkUnreachable,
        ConnectFailure::HostUnreachable | ConnectFailure::TimedOut => ReplyCode::HostUnreachable,
        ConnectFailure::Other => ReplyCode::GeneralFailure,
    }
}

pub fn reply_for_failure(failure: ConnectFailure) -> (r: ReplyCode)
    ensures
        r == failure_reply(failure),
{
    match failure {
        ConnectFailure::ConnectionRefused => ReplyCode::ConnectionRefused,
        ConnectFailure::NetworkUnreachable => ReplyCode::NetworkUnreachable,
        ConnectFailure::HostUnreachable | ConnectFailure::TimedOut => ReplyCode::HostUnreachable,
        ConnectFailure::Other => ReplyCode::GeneralFailure,
    }
}

/// The SOCKS reply for a failed connection to the target: a refusal by the policy is "not
/// allowed", a name that does not resolve (to anything) "host unreachable", a failed connect
/// what its kind says.
pub open spec fn connect_error_reply(e: &ConnectError) -> ReplyCode {
    match e {
        ConnectError::Denied(_) => ReplyCode::NotAllowed,
        ConnectError::Resolve(_) => ReplyCode::HostUnreachable,
        ConnectError::NoAddresses => ReplyCode::HostUnreachable,
        ConnectError::Connect { failure, .. } => failure_reply(*failure),
    }
}

impl ConnectError {
    /// SOCKS reply for the client: a refusal by the policy is "not allowed", a name that does
    /// not resolve (to anything) "host unreachable", a failed connect what its kind says.
    pub fn reply_code(&self) -> (r: ReplyCode)
        ensures
            r == connect_error_reply(self),
    {
        match self {
            ConnectError::Denied(_) => ReplyCode::NotAllowed,
            ConnectError::Resolve(_) | ConnectError::NoAddresses => ReplyCode::HostUnreachable,
            ConnectError::Connect { failure, .. } => reply_for_failure(*failure),
        }
    }
}

/// An address as the socket connects to it: IPv4-mapped IPv6 unwrapped.
pub open spec fn canonical_socket(addr: SocketAddress) -> SocketAddress {
    SocketAddress { ip: canonical(addr.ip), port: addr.port }
}

/// The addresses to connect to, in resolution order: every resolved address (canonical) the
/// policy allows, each once.
pub open spec fn allowed_addresses(policy: DestinationPolicy, resolved: Seq<SocketAddress>) -> Seq<
    SocketAddress,
>
    decreases resolved.len(),
{
    if resolved.len() == 0 {
        Seq::empty()
    } else {
        let before = allowed_addresses(policy, resolved.drop_last());
        let addr = canonical_socket(resolved.last());
        if policy.verdict(addr) is Ok && !before.contains(addr) {
            before.push(addr)
        } else {
            before
        }
    }
}

/// The refusal of the first resolved address the policy refuses, if any.
pub open spec fn first_denial(policy: DestinationPolicy, resolved: Seq<SocketAddress>) -> Option<
    DenyReason,
>
    decreases resolved.len(),
{
    if resolved.len() == 0 {
        None
    } else {
        match first_denial(policy, resolved.drop_last()) {
            Some(reason) => Some(reason),
            None => match policy.verdict(canonical_socket(resolved.last())) {
                Err(reason) => Some(reason),
                Ok(_) => None,
            },
        }
    }
}

/// Runs every resolved address through the destination policy. The policy judges the exact
/// address the socket will connect to (IPv4-mapped IPv6 unwrapped first), so a name resolving
/// to an internal address cannot slip past it.
///
/// # Errors
/// No address allowed: the first refusal, or `NoAddresses` when nothing was resolved.
pub fn select_allowed(policy: &DestinationPolicy, resolved: &[SocketAddress]) -> (r: Result<
    Vec<SocketAddress>,
    ConnectError,
>)
    ensures
        match r {
            Ok(allowed) => allowed@ == allowed_addresses(*policy, resolved@) && allowed@.len() > 0,
            Err(e) => allowed_addresses(*policy, resolved@).len() == 0 && match first_denial(
                *policy,
                resolved@,
            ) {
                Some(reason) => e matches ConnectError::Denied(d) && d == reason,
                None => e is NoAddresses,
            },
        },
{
    let mut allowed: Vec<SocketAddress> = Vec::new();
    let mut denial: Option<DenyReason> = None;
    let mut i: usize = 0;
    while i < resolved.len()
        invariant
            i <= resolved@.len(),
            allowed@ == allowed_addresses(*policy, resolved@.take(i as int)),
            denial == first_denial(*policy, resolved@.take(i as int)),
        decreases resolved@.len() - i,
    {
        let resolved_addr = resolved[i];
        let addr = SocketAddress { ip: canonical_ip(resolved_addr.ip), port: resolved_addr.port };
        proof {
            assert(resolved@.take(i + 1).drop_last() =~= resolved@.take(i as int));
            assert(resolved@.take(i + 1).last() == resolved_addr);
        }
        match policy.check(addr) {
            Ok(()) => {
                let mut seen = false;
                let mut j: usize = 0;
                while j < allowed.len()
                    invariant
                        j <= allowed@.len(),
                        seen == allowed@.take(j as int).contains(addr),
                    decreases allowed@.len() - j,
                {
                    proof {
                        let done = allowed@.take(j as int);
                        let next = allowed@[j as int];
                        assert(allowed@.take(j + 1) =~= done.push(next));
                        if done.push(next).contains(addr) && next != addr {
                            let k = choose|k: int| 0 <= k < done.push(next).len() && done.push(next)[k] == addr;
                            assert(done[k] == addr);
                        }
                        if done.contains(addr) {
                            let k = choose|k: int| 0 <= k < done.len() && done[k] == addr;
                            assert(done.push(next)[k] == addr);
                        }
                        assert(done.push(next)[done.len() as int] == next);
                    }
                    if allowed[j] == addr {
                        seen = true;
                    }
                    j = j + 1;
                }
                assert(allowed@.take(allowed@.len() as int) =~= allowed@);
                if !seen {
                    allowed.push(addr);
                }
            },
            Err(reason) => {
                if denial.is_none() {
                    denial = Some(reason);
                }
            },
        }
        i = i + 1;
    }
    assert(resolved@.take(resolved@.len() as int) =~= resolved@);
    if allowed.len() == 0 {
        return match denial {
            Some(reason) => Err(ConnectError::Denied(reason)),
            None => Err(ConnectError::NoAddresses),
        };
    }
    Ok(allowed)
}

/// The addresses a connection is attempted to, in order: the first
/// [`MAX_CONNECT_ATTEMPTS`] allowed ones.
pub fn connect_attempts(allowed: &[SocketAddress]) -> (r: Vec<SocketAddress>)
    ensures
        r@ == allowed@.take(
            if allowed@.len() < MAX_CONNECT_ATTEMPTS {
                allowed@.len() as int
            } else {
                MAX_CONNECT_ATTEMPTS as int
            },
        ),
{
    let n = if allowed.len() < MAX_CONNECT_ATTEMPTS {
        allowed.len()
    } else {
        MAX_CONNECT_ATTEMPTS
    };
    let mut r: Vec<SocketAddress> = Vec::new();
    let mut i: usize = 0;
    while i < n
        invariant
            i <= n <= allowed@.len(),
            r@ == allowed@.take(i as int),
        decreases n - i,
    {
        r.push(allowed[i]);
        proof {
            assert(allowed@.take(i + 1) =~= allowed@.take(i as int).push(allowed@[i as int]));
        }
        i = i + 1;
    }
    r
}

/// The error when no attempted address accepted the connection: the last failure with its
/// kind, or `NoAddresses` when nothing was attempted.
pub fn attempts_failed(last_error: Option<(std::io::Error, ConnectFailure)>) -> (r: ConnectError)
    ensures
        match last_error {
            Some((error, failure)) => r == (ConnectError::Connect { error, failure }),
            None => r is NoAddresses,
        },
{
    match last_error {
        Some((error, failure)) => ConnectError::Connect { error, failure },
        None => ConnectError::NoAddresses,
    }
}

/// Only addresses the policy allows are ever connected to, each once and as the exact
/// (canonical) form of a resolved address.
pub proof fn law_connects_only_allowed(policy: DestinationPolicy, resolved: Seq<SocketAddress>)
    ensures
        forall|i: int|
            0 <= i < allowed_addresses(policy, resolved).len() ==> policy.verdict(
                #[trigger] allowed_addresses(policy, resolved)[i],
            ) is Ok,
        forall|i: int|
            0 <= i < allowed_addresses(policy, resolved).len() ==> exists|j: int|
                0 <= j < resolved.len() && #[trigger] allowed_addresses(policy, resolved)[i]
                    == canonical_socket(resolved[j]),
        allowed_addresses(policy, resolved).no_duplicates(),
    decreases resolved.len(),
{
    if resolved.len() > 0 {
        let rest = resolved.drop_last();
        law_connects_only_allowed(policy, rest);
        let before = allowed_addresses(policy, rest);
        let addr = canonical_socket(resolved.last());
        let after = allowed_addresses(policy, resolved);
        assert forall|i: int| 0 <= i < after.len() implies exists|j: int|
            0 <= j < resolved.len() && #[trigger] after[i] == canonical_socket(resolved[j]) by {
            if i < before.len() {
                let j = choose|j: int| 0 <= j < rest.len() && before[i] == canonical_socket(rest[j]);
                assert(resolved[j] == rest[j]);
            } else {
                assert(after[i] == canonical_socket(resolved[resolved.len() - 1]));
            }
        }
        if policy.verdict(addr) is Ok && !before.contains(addr) {
            assert forall|a: int, b: int| 0 <= a < b < after.len() implies after[a] != after[b] by {
                if b == before.len() {
                    assert(before[a] == after[a]);
                    if after[a] == after[b] {
                        assert(before.contains(addr));
                    }
                }
            }
        }
    }
}

} // verus!
