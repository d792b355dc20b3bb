use vstd::prelude::*;

use super::consts::SOCKS_VERSION;
use super::protocol_error::{ProtocolError, WireError, reports};
use super::target_addr::{TargetAddr, TargetView, target_wire};
use super::wire::{push_socket_addr, socket_addr_bytes};
use crate::ip_text::{hex_char, hex_digit_char};
use crate::net::{IpAddress, SocketAddress};
use crate::text::{chars_to_string, push_str};

verus! {

/// `REP` field of a reply (RFC 1928, section 6).
#[derive(Debug, Clone, Copy, PartialEq, Eq, Structural)]
pub enum ReplyCode {
    Succeeded,
    GeneralFailure,
    NotAllowed,
    NetworkUnreachable,
    HostUnreachable,
    ConnectionRefused,
    TtlExpired,
    CommandNotSupported,
    AddressTypeNotSupported,
    Unassigned(u8),
}

/// The reply code a `REP` byte names.
pub open spec fn reply_code_of(value: u8) -> ReplyCode {
    if value == 0x00 {
        ReplyCode::Succeeded
    } else if value == 0x01 {
        ReplyCode::GeneralFailure
    } else if value == 0x02 {
        ReplyCode::NotAllowed
    } else if value == 0x03 {
        ReplyCode::NetworkUnreachable
    } else if value == 0x04 {
        ReplyCode::HostUnreachable
    } else if value == 0x05 {
        ReplyCode::ConnectionRefused
    } else if value == 0x06 {
        ReplyCode::TtlExpired
    } else if value == 0x07 {
        ReplyCode::CommandNotSupported
    } else if value == 0x08 {
        ReplyCode::AddressTypeNotSupported
    } else {
        ReplyCode::Unassigned(value)
    }
}

/// The `REP` byte of a reply code.
pub open spec fn reply_code_byte(c: ReplyCode) -> u8 {
    match c {
        ReplyCode::Succeeded => 0x00,
        ReplyCode::GeneralFailure => 0x01,
        ReplyCode::NotAllowed => 0x02,
        ReplyCode::NetworkUnreachable => 0x03,
        ReplyCode::HostUnreachable => 0x04,
        ReplyCode::ConnectionRefused => 0x05,
        ReplyCode::TtlExpired => 0x06,
        ReplyCode::CommandNotSupported => 0x07,
        ReplyCode::AddressTypeNotSupported => 0x08,
        ReplyCode::Unassigned(value) => value,
    }
}

/// The text of a reply code: RFC 1928's wording, or `unassigned reply code 0x..` with two
/// lower-case hexadecimal digits.
pub open spec fn reply_code_text(c: ReplyCode) -> Seq<char> {
    match c {
        ReplyCode::Succeeded => "succeeded"@,
        ReplyCode::GeneralFailure => "general SOCKS server failure"@,
        ReplyCode::NotAllowed => "connection not allowed by ruleset"@,
        ReplyCode::NetworkUnreachable => "network unreachable"@,
        ReplyCode::HostUnreachable => "host unreachable"@,
        ReplyCode::ConnectionRefused => "connection refused"@,
        ReplyCode::TtlExpired => "TTL expired"@,
        ReplyCode::CommandNotSupported => "command not supported"@,
        ReplyCode::AddressTypeNotSupported => "address type not supported"@,
        ReplyCode::Unassigned(value) => "unassigned reply code 0x"@ + seq![
            hex_char((value / 16) as nat),
            hex_char((value % 16) as nat),
        ],
    }
}

impl ReplyCode {
    pub fn from_byte(value: u8) -> (r: Self)
        ensures
            r == reply_code_of(value),
    {
        if value == 0x00 {
            ReplyCode::Succeeded
        } else if value == 0x01 {
            ReplyCode::GeneralFailure
        } else if value == 0x02 {
            ReplyCode::NotAllowed
        } else if value == 0x03 {
            ReplyCode::NetworkUnreachable
        } else if value == 0x04 {
            ReplyCode::HostUnreachable
        } else if value == 0x05 {
            ReplyCode::ConnectionRefused
        } else if value == 0x06 {
            ReplyCode::TtlExpired
        } else if value == 0x07 {
            ReplyCode::CommandNotSupported
        } else if value == 0x08 {
            ReplyCode::AddressTypeNotSupported
        } else {
            ReplyCode::Unassigned(value)
        }
    }

    pub fn as_byte(self) -> (r: u8)
        ensures
            r == reply_code_byte(self),
    {
        match self {
            ReplyCode::Succeeded => 0x00,
            ReplyCode::GeneralFailure => 0x01,
            ReplyCode::NotAllowed => 0x02,
            ReplyCode::NetworkUnreachable => 0x03,
            ReplyCode::HostUnreachable => 0x04,
            ReplyCode::ConnectionRefused => 0x05,
            ReplyCode::TtlExpired => 0x06,
            ReplyCode::CommandNotSupported => 0x07,
            ReplyCode::AddressTypeNotSupported => 0x08,
            ReplyCode::Unassigned(value) => value,
        }
    }

    /// The text form (the `Display` form).
    pub fn to_text(self) -> (r: String)
        ensures
            r@ == reply_code_text(self),
    {
        let mut out: Vec<char> = Vec::new();
        match self {
            ReplyCode::Succeeded => push_str(&mut out, "succeeded"),
            ReplyCode::GeneralFailure => push_str(&mut out, "general SOCKS server failure"),
            ReplyCode::NotAllowed => push_str(&mut out, "connection not allowed by ruleset"),
            ReplyCode::NetworkUnreachable => push_str(&mut out, "network unreachable"),
            ReplyCode::HostUnreachable => push_str(&mut out, "host unreachable"),
            ReplyCode::ConnectionRefused => push_str(&mut out, "connection refused"),
            ReplyCode::TtlExpired => push_str(&mut out, "TTL expired"),
            ReplyCode::CommandNotSupported => push_str(&mut out, "command not supported"),
            ReplyCode::AddressTypeNotSupported => push_str(&mut out, "address type not supported"),
            ReplyCode::Unassigned(value) => {
                push_str(&mut out, "unassigned reply code 0x");
                out.push(hex_digit_char((value / 16) as u64));
                out.push(hex_digit_char((value % 16) as u64));
            },
        }
        assert(out@ =~= reply_code_text(self));
        chars_to_string(out.as_slice())
    }
}

/// Every byte names a reply code that gives the byte back.
pub proof fn law_reply_code_byte_round_trip(value: u8)
    ensures
        reply_code_byte(reply_code_of(value)) == value,
{
}

/// Server reply: `VER | REP | RSV | ATYP | BND.ADDR | BND.PORT`.
#[derive(Debug, Clone, Copy, PartialEq, Eq, Structural)]
pub struct Reply {
    pub code: ReplyCode,
    pub bind_addr: SocketAddress,
}

/// A reply goes out as RFC 1928 numbers its codes: the version 5, the `REP` byte (0 succeeded,
/// 1 general failure, 2 not allowed by the ruleset, 3 network unreachable, 4 host unreachable,
/// 5 connection refused, 6 TTL expired, 7 command not supported, 8 address type not
/// supported, an unassigned code as its own value), then the reserved zero byte; and a `REP`
/// byte is read back as the code with that number.
pub proof fn law_reply_codes_are_rfc1928_numbers(r: Reply, value: u8)
    ensures
        reply_bytes(r)[0] == 5,
        reply_bytes(r)[2] == 0,
        reply_bytes(r)[1] == match r.code {
            ReplyCode::Succeeded => 0u8,
            ReplyCode::GeneralFailure => 1u8,
            ReplyCode::NotAllowed => 2u8,
            ReplyCode::NetworkUnreachable => 3u8,
            ReplyCode::HostUnreachable => 4u8,
            ReplyCode::ConnectionRefused => 5u8,
            ReplyCode::TtlExpired => 6u8,
            ReplyCode::CommandNotSupported => 7u8,
            ReplyCode::AddressTypeNotSupported => 8u8,
            ReplyCode::Unassigned(v) => v,
        },
        reply_code_of(value) == if value == 0 {
            ReplyCode::Succeeded
        } else if value == 1 {
            ReplyCode::GeneralFailure
        } else if value == 2 {
            ReplyCode::NotAllowed
        } else if value == 3 {
            ReplyCode::NetworkUnreachable
        } else if value == 4 {
            ReplyCode::HostUnreachable
        } else if value == 5 {
            ReplyCode::ConnectionRefused
        } else if value == 6 {
            ReplyCode::TtlExpired
        } else if value == 7 {
            ReplyCode::CommandNotSupported
        } else if value == 8 {
            ReplyCode::AddressTypeNotSupported
        } else {
            ReplyCode::Unassigned(value)
        },
{
    assert(SOCKS_VERSION == 5);
}

/// `0.0.0.0:port`.
pub open spec fn unspecified_v4(port: u16) -> SocketAddress {
    SocketAddress { ip: IpAddress::V4(0), port }
}

/// The bytes of a reply; the reserved byte is zero.
pub open spec fn reply_bytes(r: Reply) -> Seq<u8> {
    seq![SOCKS_VERSION, reply_code_byte(r.code), 0x00] + socket_addr_bytes(r.bind_addr)
}

/// Reading a reply from the front of `s`. The four header bytes are read before the version is
/// checked; a bound host name stands for `0.0.0.0` with its port.
pub open spec fn reply_wire(s: Seq<u8>) -> Result<(Reply, int), WireError> {
    if s.len() < 4 {
        Err(WireError::Truncated)
    } else if s[0] != SOCKS_VERSION {
        Err(WireError::UnsupportedVersion(s[0]))
    } else {
        match target_wire(s[3], s.skip(4)) {
            Ok((TargetView::Ip(a), n)) => Ok((Reply { code: reply_code_of(s[1]), bind_addr: a }, 4 + n)),
            Ok((TargetView::Domain(_, port), n)) => Ok(
                (Reply { code: reply_code_of(s[1]), bind_addr: unspecified_v4(port) }, 4 + n),
            ),
            Err(e) => Err(e),
        }
    }
}

impl Reply {
    /// A reply with the bind address `0.0.0.0:0`. Like `ssh -D`, the server does not disclose
    /// the local address of its outbound socket; clients do not use it for `CONNECT`.
    pub fn new(code: ReplyCode) -> (r: Self)
        ensures
            r.code == code,
            r.bind_addr == unspecified_v4(0),
    {
        Reply { code, bind_addr: SocketAddress { ip: IpAddress::V4(0), port: 0 } }
    }

    pub fn encode(&self) -> (r: Vec<u8>)
        ensures
            r@ == reply_bytes(*self),
    {
        let mut out: Vec<u8> = Vec::new();
        out.push(SOCKS_VERSION);
        out.push(self.code.as_byte());
        out.push(0x00);
        push_socket_addr(&mut out, self.bind_addr);
        assert(out@ =~= reply_bytes(*self));
        out
    }

    /// Reads a reply sent by a server (client side) from the front of `input`; gives the reply
    /// and the number of bytes it took.
    ///
    /// # Errors
    /// Input that ends early (an I/O error), a version other than 5 or a malformed bind
    /// address.
    pub fn decode(input: &[u8]) -> (r: Result<(Self, usize), ProtocolError>)
        ensures
            match r {
                Ok((reply, n)) => reply_wire(input@) == Ok::<(Reply, int), WireError>(
                    (reply, n as int),
                ),
                Err(e) => reply_wire(input@) matches Err(w) && reports(&e, w),
            },
    {
        let len = input.len();
        if len < 4 {
            return Err(ProtocolError::from_wire(WireError::Truncated));
        }
        let version = input[0];
        if version != SOCKS_VERSION {
            return Err(ProtocolError::from_wire(WireError::UnsupportedVersion(version)));
        }
        let code = ReplyCode::from_byte(input[1]);
        let rest = vstd::slice::slice_subrange(input, 4, len);
        assert(rest@ =~= input@.skip(4));
        let (target, n) = TargetAddr::decode(rest, input[3])?;
        proof {
            assert(target_wire(input@[3], input@.skip(4)) matches Ok((_, m)) && m <= rest@.len());
        }
        let bind_addr = match target {
            TargetAddr::Ip(addr) => addr,
            TargetAddr::Domain { port, .. } => SocketAddress { ip: IpAddress::V4(0), port },
        };
        Ok((Reply { code, bind_addr }, 4 + n))
    }
}

/// The reply codes whose byte reads back as the same code: all but an `Unassigned` that holds
/// the byte of an assigned code.
pub open spec fn canonical_reply_code(c: ReplyCode) -> bool {
    c matches ReplyCode::Unassigned(v) ==> v > 0x08
}

/// A reply reads back as itself, whatever follows it, for every canonical code and every bind
/// address.
pub proof fn law_reply_round_trip(r: Reply, rest: Seq<u8>)
    requires
        canonical_reply_code(r.code),
    ensures
        reply_wire(reply_bytes(r) + rest) == Ok::<(Reply, int), WireError>(
            (r, reply_bytes(r).len() as int),
        ),
{
    let t = socket_addr_bytes(r.bind_addr);
    super::target_addr::law_target_round_trip(TargetView::Ip(r.bind_addr), rest);
    let s = reply_bytes(r) + rest;
    assert(t.len() > 0);
    assert(s[3] == t[0]);
    assert(s.skip(4) =~= t.drop_first() + rest);
}

} // verus!
