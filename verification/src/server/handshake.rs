//! The server's decisions during the handshake (greeting → username/password → request);
//! the caller reads and writes the messages.
use vstd::prelude::*;

use super::close_reason::{CloseReason, closes_for_protocol};
use crate::auth::UserStore;
use crate::net::SocketAddress;
use crate::policy::FailureVerdict;
use crate::socks::{
    Command, Greeting, METHOD_NO_ACCEPTABLE, METHOD_USER_PASS, MethodSelection, ProtocolError,
    ReplyCode, Request, TargetAddr, TargetView, UserPassResponse, AUTH_STATUS_FAILURE,
    AUTH_STATUS_SUCCESS,
};

verus! {

/// Identity of a connection in log lines.
#[derive(Debug, Clone, Copy, PartialEq, Eq, Structural)]
pub struct ConnectionContext {
    pub id: u64,
    /// Client address, IPv4-mapped IPv6 already unwrapped.
    pub peer: SocketAddress,
}

/// The method the server answers a greeting with: username/password when offered, else "no
/// acceptable methods". "No authentication" is never accepted, whatever else is offered.
pub fn select_method(greeting: &Greeting) -> (r: MethodSelection)
    ensures
        greeting.methods@.contains(METHOD_USER_PASS) ==> r.method == METHOD_USER_PASS,
        !greeting.methods@.contains(METHOD_USER_PASS) ==> r.method == METHOD_NO_ACCEPTABLE,
{
    if greeting.offers(METHOD_USER_PASS) {
        MethodSelection { method: METHOD_USER_PASS }
    } else {
        MethodSelection::no_acceptable()
    }
}

/// Checks the credentials a client sent; gives the configured username when they match and
/// the answer to send (success or failure).
pub fn check_credentials(users: &UserStore, username: &[u8], password: &[u8]) -> (r: (
    Option<String>,
    UserPassResponse,
))
    ensures
        r.0 is Some <==> exists|i: int|
            0 <= i < users.spec_users().len() && #[trigger] users.spec_users()[i].username
                == username@ && users.spec_users()[i].password == password@,
        r.0 matches Some(name) ==> exists|i: int|
            0 <= i < users.spec_users().len() && #[trigger] users.spec_users()[i].username
                == username@ && users.spec_users()[i].password == password@
                && users.spec_users()[i].name == name@,
        r.1.status == if r.0 is Some {
            AUTH_STATUS_SUCCESS
        } else {
            AUTH_STATUS_FAILURE
        },
{
    match users.verify(username, password) {
        Some(name) => (Some(name.to_owned()), UserPassResponse::success()),
        None => (None, UserPassResponse::failure()),
    }
}

/// The number of failures to log with a failed authentication: the count when it was counted.
pub fn logged_failures(verdict: FailureVerdict) -> (r: Option<usize>)
    ensures
        match verdict {
            FailureVerdict::Counted { failures } => r == Some(failures),
            _ => r is None,
        },
{
    match verdict {
        FailureVerdict::Counted { failures } => Some(failures),
        _ => None,
    }
}

/// A request that is not served: the reply to send first, if any, and why the connection
/// closes.
#[derive(Debug)]
pub struct Refusal {
    pub reply: Option<ReplyCode>,
    pub reason: CloseReason,
}

/// `refusal` is what a request that could not be read (`error`) gets: an unsupported address
/// type and an invalid domain are answered first, other errors close the connection at once.
pub open spec fn refuses_unreadable(error: ProtocolError, refusal: Refusal) -> bool {
    &&& closes_for_protocol(error, refusal.reason)
    &&& refusal.reply == match error {
        ProtocolError::UnsupportedAddressType(_) => Some(ReplyCode::AddressTypeNotSupported),
        ProtocolError::InvalidDomain => Some(ReplyCode::GeneralFailure),
        _ => None,
    }
}

/// What the server does with the result of reading a request: `CONNECT` is served with its
/// target; other commands are answered "command not supported"; a request that could not be
/// read is refused (see [`refuses_unreadable`]).
pub fn request_outcome(read: Result<Request, ProtocolError>) -> (r: Result<TargetAddr, Refusal>)
    ensures
        match (read, r) {
            (Ok(request), Ok(target)) => request.command == Command::Connect && target@
                == request.target@,
            (Ok(request), Err(refusal)) => request.command != Command::Connect && refusal.reply
                == Some(ReplyCode::CommandNotSupported) && (refusal.reason matches CloseReason::CommandNotSupported(c)
                && c == request.command),
            (Err(error), Err(refusal)) => refuses_unreadable(error, refusal),
            (Err(_), Ok(_)) => false,
        },
{
    match read {
        Ok(request) => match request.command {
            Command::Connect => Ok(request.target),
            other => Err(
                Refusal {
                    reply: Some(ReplyCode::CommandNotSupported),
                    reason: CloseReason::CommandNotSupported(other),
                },
            ),
        },
        Err(error) => {
            let reply = match &error {
                ProtocolError::UnsupportedAddressType(_) => Some(ReplyCode::AddressTypeNotSupported),
                ProtocolError::InvalidDomain => Some(ReplyCode::GeneralFailure),
                _ => None,
            };
            Err(Refusal { reply, reason: CloseReason::from_protocol(error) })
        },
    }
}

} // verus!
