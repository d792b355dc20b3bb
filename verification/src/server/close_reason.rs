use vstd::prelude::*;

use super::connector::{ConnectError, connect_error_reply};
use crate::ip_text::{byte_hex_text, push_byte_hex};
use crate::policy::{DenyReason, deny_text};
use crate::relay::RelayEnd;
use crate::socks::{
    Command, ProtocolError, ReplyCode, command_byte, io_error_text, protocol_error_text,
};
use crate::text::{chars_to_string, push_str};

verus! {

/// Why a client connection ended; logged as `reason` (see [`CloseReason::code`]).
#[derive(Debug)]
pub enum CloseReason {
    /// Greeting, authentication and request did not complete within `handshake_timeout_sec`.
    HandshakeTimeout,
    /// The client closed or broke the connection during the handshake.
    HandshakeIo(std::io::Error),
    /// Not SOCKS5, or malformed SOCKS5.
    Protocol(ProtocolError),
    /// The client did not offer username/password authentication.
    NoAcceptableAuthMethod,
    AuthFailed,
    CommandNotSupported(Command),
    AddressTypeNotSupported(u8),
    InvalidDomain,
    DeniedByPolicy(DenyReason),
    ResolveFailed(std::io::Error),
    /// The name resolved to no address at all.
    ResolvedToNothing,
    ConnectFailed(std::io::Error),
    ConnectTimeout,
    /// Both sides closed their direction; the normal end of a proxied connection.
    Completed,
    /// Nothing moved in either direction for `idle_timeout_sec`.
    IdleTimeout,
    ClientError(std::io::Error),
    TargetError(std::io::Error),
    /// Still open when the shutdown grace period ended.
    Shutdown,
}

/// The stable machine-readable name of a reason.
pub open spec fn close_code(reason: &CloseReason) -> Seq<char> {
    match reason {
        CloseReason::HandshakeTimeout => "handshake_timeout"@,
        CloseReason::HandshakeIo(_) => "handshake_io_error"@,
        CloseReason::Protocol(_) => "protocol_error"@,
        CloseReason::NoAcceptableAuthMethod => "no_acceptable_auth_method"@,
        CloseReason::AuthFailed => "auth_failed"@,
        CloseReason::CommandNotSupported(_) => "command_not_supported"@,
        CloseReason::AddressTypeNotSupported(_) => "address_type_not_supported"@,
        CloseReason::InvalidDomain => "invalid_domain"@,
        CloseReason::DeniedByPolicy(_) => "denied_by_policy"@,
        CloseReason::ResolveFailed(_) => "resolve_failed"@,
        CloseReason::ResolvedToNothing => "resolved_to_nothing"@,
        CloseReason::ConnectFailed(_) => "connect_failed"@,
        CloseReason::ConnectTimeout => "connect_timeout"@,
        CloseReason::Completed => "completed"@,
        CloseReason::IdleTimeout => "idle_timeout"@,
        CloseReason::ClientError(_) => "client_error"@,
        CloseReason::TargetError(_) => "target_error"@,
        CloseReason::Shutdown => "shutdown"@,
    }
}

/// The reasons that come with no detail.
pub open spec fn without_detail(reason: &CloseReason) -> bool {
    ||| reason is HandshakeTimeout
    ||| reason is NoAcceptableAuthMethod
    ||| reason is AuthFailed
    ||| reason is InvalidDomain
    ||| reason is ResolvedToNothing
    ||| reason is ConnectTimeout
    ||| reason is Completed
    ||| reason is IdleTimeout
    ||| reason is Shutdown
}

/// The detail of the reasons whose detail is fixed by the reason itself: a refused command or
/// address type in hexadecimal, a protocol error's message, a policy refusal's text.
pub open spec fn fixed_detail(reason: &CloseReason) -> Option<Seq<char>> {
    match reason {
        CloseReason::CommandNotSupported(c) => Some("command "@ + byte_hex_text(command_byte(*c))),
        CloseReason::AddressTypeNotSupported(t) => Some("address type "@ + byte_hex_text(*t)),
        CloseReason::DeniedByPolicy(d) => Some(deny_text(*d)),
        CloseReason::Protocol(p) => if *p is Io {
            None
        } else {
            Some(protocol_error_text(p))
        },
        _ => None,
    }
}

/// `reason` is how a connection closes after the protocol error `error`.
pub open spec fn closes_for_protocol(error: ProtocolError, reason: CloseReason) -> bool {
    match (error, reason) {
        (ProtocolError::Io(a), CloseReason::HandshakeIo(b)) => a == b,
        (ProtocolError::UnsupportedAddressType(a), CloseReason::AddressTypeNotSupported(b)) => a
            == b,
        (ProtocolError::InvalidDomain, CloseReason::InvalidDomain) => true,
        (ProtocolError::UnsupportedVersion(_), CloseReason::Protocol(p)) => p == error,
        (ProtocolError::NoMethods, CloseReason::Protocol(p)) => p == error,
        (ProtocolError::UnsupportedAuthVersion(_), CloseReason::Protocol(p)) => p == error,
        (ProtocolError::FieldTooLong, CloseReason::Protocol(p)) => p == error,
        _ => false,
    }
}

/// `reason` is how a connection closes after connecting to the target failed with `error`.
pub open spec fn closes_for_connect(error: ConnectError, reason: CloseReason) -> bool {
    match (error, reason) {
        (ConnectError::Denied(a), CloseReason::DeniedByPolicy(b)) => a == b,
        (ConnectError::Resolve(a), CloseReason::ResolveFailed(b)) => a == b,
        (ConnectError::NoAddresses, CloseReason::ResolvedToNothing) => true,
        (ConnectError::Connect { error: a, .. }, CloseReason::ConnectFailed(b)) => a == b,
        _ => false,
    }
}

/// `reason` is how a connection closes after its relay ended with `end`.
pub open spec fn closes_for_relay(end: RelayEnd, reason: CloseReason) -> bool {
    match (end, reason) {
        (RelayEnd::Completed, CloseReason::Completed) => true,
        (RelayEnd::IdleTimeout, CloseReason::IdleTimeout) => true,
        (RelayEnd::ClientError(a), CloseReason::ClientError(b)) => a == b,
        (RelayEnd::TargetError(a), CloseReason::TargetError(b)) => a == b,
        _ => false,
    }
}

impl CloseReason {
    /// Stable machine-readable name for logs.
    pub fn code(&self) -> (r: &'static str)
        ensures
            r@ == close_code(self),
    {
        match self {
            CloseReason::HandshakeTimeout => "handshake_timeout",
            CloseReason::HandshakeIo(_) => "handshake_io_error",
            CloseReason::Protocol(_) => "protocol_error",
            CloseReason::NoAcceptableAuthMethod => "no_acceptable_auth_method",
            CloseReason::AuthFailed => "auth_failed",
            CloseReason::CommandNotSupported(_) => "command_not_supported",
            CloseReason::AddressTypeNotSupported(_) => "address_type_not_supported",
            CloseReason::InvalidDomain => "invalid_domain",
            CloseReason::DeniedByPolicy(_) => "denied_by_policy",
            CloseReason::ResolveFailed(_) => "resolve_failed",
            CloseReason::ResolvedToNothing => "resolved_to_nothing",
            CloseReason::ConnectFailed(_) => "connect_failed",
            CloseReason::ConnectTimeout => "connect_timeout",
            CloseReason::Completed => "completed",
            CloseReason::IdleTimeout => "idle_timeout",
            CloseReason::ClientError(_) => "client_error",
            CloseReason::TargetError(_) => "target_error",
            CloseReason::Shutdown => "shutdown",
        }
    }

    /// Error text or refusal detail, if any: the I/O error's text for the reasons that carry
    /// one (not stated: it comes from the operating system), the fixed detail otherwise.
    pub fn detail(&self) -> (r: Option<String>)
        ensures
            without_detail(self) <==> r is None,
            fixed_detail(self) matches Some(text) ==> (r matches Some(s) && s@ == text),
            (*self matches CloseReason::Protocol(ProtocolError::Io(_))) ==> (r matches Some(s)
                && s@.take(11) == "i/o error: "@),
    {
        match self {
            CloseReason::HandshakeIo(error) | CloseReason::ResolveFailed(error)
            | CloseReason::ConnectFailed(error) | CloseReason::ClientError(error)
            | CloseReason::TargetError(error) => Some(io_error_text(error)),
            CloseReason::Protocol(error) => {
                let text = error.message();
                proof {
                    if *error is Io {
                        let t = choose|t: Seq<char>| text@ == protocol_error_text(error) + t;
                        reveal_strlit("i/o error: ");
                        assert(text@.take(11) =~= "i/o error: "@);
                    }
                }
                Some(text)
            },
            CloseReason::DeniedByPolicy(reason) => Some(reason.describe()),
            CloseReason::CommandNotSupported(command) => {
                let mut out: Vec<char> = Vec::new();
                push_str(&mut out, "command ");
                push_byte_hex(&mut out, command.as_byte());
                Some(chars_to_string(out.as_slice()))
            },
            CloseReason::AddressTypeNotSupported(address_type) => {
                let mut out: Vec<char> = Vec::new();
                push_str(&mut out, "address type ");
                push_byte_hex(&mut out, *address_type);
                Some(chars_to_string(out.as_slice()))
            },
            CloseReason::HandshakeTimeout | CloseReason::NoAcceptableAuthMethod
            | CloseReason::AuthFailed | CloseReason::InvalidDomain
            | CloseReason::ResolvedToNothing | CloseReason::ConnectTimeout
            | CloseReason::Completed | CloseReason::IdleTimeout | CloseReason::Shutdown => None,
        }
    }

    /// The reason a protocol error closes the connection with: I/O failures, an unsupported
    /// address type and an invalid domain have reasons of their own.
    pub fn from_protocol(error: ProtocolError) -> (r: Self)
        ensures
            closes_for_protocol(error, r),
    {
        match error {
            ProtocolError::Io(e) => CloseReason::HandshakeIo(e),
            ProtocolError::UnsupportedAddressType(address_type) => CloseReason::AddressTypeNotSupported(address_type),
            ProtocolError::InvalidDomain => CloseReason::InvalidDomain,
            other => CloseReason::Protocol(other),
        }
    }

    /// The reason a failed connection to the target closes the client connection with.
    pub fn from_connect(error: ConnectError) -> (r: Self)
        ensures
            closes_for_connect(error, r),
    {
        match error {
            ConnectError::Denied(reason) => CloseReason::DeniedByPolicy(reason),
            ConnectError::Resolve(e) => CloseReason::ResolveFailed(e),
            ConnectError::NoAddresses => CloseReason::ResolvedToNothing,
            ConnectError::Connect { error, .. } => CloseReason::ConnectFailed(error),
        }
    }

    /// The reason a finished relay closes the connection with.
    pub fn from_relay(end: RelayEnd) -> (r: Self)
        ensures
            closes_for_relay(end, r),
    {
        match end {
            RelayEnd::Completed => CloseReason::Completed,
            RelayEnd::IdleTimeout => CloseReason::IdleTimeout,
            RelayEnd::ClientError(e) => CloseReason::ClientError(e),
            RelayEnd::TargetError(e) => CloseReason::TargetError(e),
        }
    }
}

/// A stage of a client connection that has a time limit.
#[derive(Debug, Clone, Copy, PartialEq, Eq, Structural)]
pub enum TimedStage {
    /// Greeting, authentication and request (`handshake_timeout_sec`).
    Handshake,
    /// Resolving and connecting to the target (`connect_timeout_sec`).
    Connect,
    /// Writing the success reply (`handshake_timeout_sec` again).
    SuccessReply,
}

/// How a connection ends when `stage` runs out of time: the reply still owed to the client,
/// if any, and the close reason. A connect that timed out is answered `HostUnreachable`; the
/// handshake and the success reply both end with the handshake timeout, owing nothing.
pub fn on_timeout(stage: TimedStage) -> (r: (Option<ReplyCode>, CloseReason))
    ensures
        stage is Connect ==> r.0 == Some(ReplyCode::HostUnreachable) && r.1 is ConnectTimeout,
        !(stage is Connect) ==> r.0 is None && r.1 is HandshakeTimeout,
{
    match stage {
        TimedStage::Connect => (Some(ReplyCode::HostUnreachable), CloseReason::ConnectTimeout),
        TimedStage::Handshake | TimedStage::SuccessReply => (None, CloseReason::HandshakeTimeout),
    }
}

/// How a failed connect ends the connection: the reply for the error, and the close reason.
pub fn on_connect_error(error: ConnectError) -> (r: (ReplyCode, CloseReason))
    ensures
        r.0 == connect_error_reply(&error),
        closes_for_connect(error, r.1),
{
    let code = error.reply_code();
    (code, CloseReason::from_connect(error))
}

/// Which kind of reason `reason` is, as a number.
pub open spec fn close_kind(reason: &CloseReason) -> int {
    match reason {
        CloseReason::HandshakeTimeout => 0,
        CloseReason::HandshakeIo(_) => 1,
        CloseReason::Protocol(_) => 2,
        CloseReason::NoAcceptableAuthMethod => 3,
        CloseReason::AuthFailed => 4,
        CloseReason::CommandNotSupported(_) => 5,
        CloseReason::AddressTypeNotSupported(_) => 6,
        CloseReason::InvalidDomain => 7,
        CloseReason::DeniedByPolicy(_) => 8,
        CloseReason::ResolveFailed(_) => 9,
        CloseReason::ResolvedToNothing => 10,
        CloseReason::ConnectFailed(_) => 11,
        CloseReason::ConnectTimeout => 12,
        CloseReason::Completed => 13,
        CloseReason::IdleTimeout => 14,
        CloseReason::ClientError(_) => 15,
        CloseReason::TargetError(_) => 16,
        CloseReason::Shutdown => 17,
    }
}

/// The kind a code names, told by its length and first character.
spec fn code_kind(s: Seq<char>) -> int {
    if s.len() == 17 && s[0] == 'h' {
        0
    } else if s.len() == 18 && s[0] == 'h' {
        1
    } else if s.len() == 14 && s[0] == 'p' {
        2
    } else if s.len() == 25 && s[0] == 'n' {
        3
    } else if s.len() == 11 && s[0] == 'a' {
        4
    } else if s.len() == 21 && s[0] == 'c' {
        5
    } else if s.len() == 26 && s[0] == 'a' {
        6
    } else if s.len() == 14 && s[0] == 'i' {
        7
    } else if s.len() == 16 && s[0] == 'd' {
        8
    } else if s.len() == 14 && s[0] == 'r' {
        9
    } else if s.len() == 19 && s[0] == 'r' {
        10
    } else if s.len() == 14 && s[0] == 'c' {
        11
    } else if s.len() == 15 && s[0] == 'c' {
        12
    } else if s.len() == 9 && s[0] == 'c' {
        13
    } else if s.len() == 12 && s[0] == 'i' {
        14
    } else if s.len() == 12 && s[0] == 'c' {
        15
    } else if s.len() == 12 && s[0] == 't' {
        16
    } else if s.len() == 8 && s[0] == 's' {
        17
    } else {
        -1
    }
}

/// Two reasons are logged under the same code exactly when they are of the same kind.
pub proof fn law_close_codes_are_distinct(a: &CloseReason, b: &CloseReason)
    ensures
        (close_code(a) == close_code(b)) <==> (close_kind(a) == close_kind(b)),
{
    reveal_strlit("handshake_timeout");
    reveal_strlit("handshake_io_error");
    reveal_strlit("protocol_error");
    reveal_strlit("no_acceptable_auth_method");
    reveal_strlit("auth_failed");
    reveal_strlit("command_not_supported");
    reveal_strlit("address_type_not_supported");
    reveal_strlit("invalid_domain");
    reveal_strlit("denied_by_policy");
    reveal_strlit("resolve_failed");
    reveal_strlit("resolved_to_nothing");
    reveal_strlit("connect_failed");
    reveal_strlit("connect_timeout");
    reveal_strlit("completed");
    reveal_strlit("idle_timeout");
    reveal_strlit("client_error");
    reveal_strlit("target_error");
    reveal_strlit("shutdown");
    assert(code_kind(close_code(a)) == close_kind(a));
    assert(code_kind(close_code(b)) == close_kind(b));
}

} // verus!
