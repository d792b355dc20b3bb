use vstd::prelude::*;

use crate::ip_text::{byte_hex_text, push_byte_hex};
use crate::text::{chars_to_string, push_str};

verus! {

#[verifier::external_type_specification]
#[verifier::external_body]
pub struct ExIoError(std::io::Error);

/// Malformed or unsupported SOCKS5 input, or an I/O failure while reading it.
#[derive(Debug)]
pub enum ProtocolError {
    Io(std::io::Error),
    UnsupportedVersion(u8),
    NoMethods,
    UnsupportedAuthVersion(u8),
    UnsupportedAddressType(u8),
    InvalidDomain,
    FieldTooLong,
}

/// What a decoder finds wrong with its input. `Truncated`: the input ends before the message
/// does (reported as an I/O error, as a reader hitting end of file reports it).
#[derive(Debug, Clone, Copy, PartialEq, Eq, Structural)]
pub enum WireError {
    Truncated,
    UnsupportedVersion(u8),
    NoMethods,
    UnsupportedAuthVersion(u8),
    UnsupportedAddressType(u8),
    InvalidDomain,
    FieldTooLong,
}

/// `error` is how `wire` is reported.
pub open spec fn reports(error: &ProtocolError, wire: WireError) -> bool {
    match (error, wire) {
        (ProtocolError::Io(_), WireError::Truncated) => true,
        (ProtocolError::UnsupportedVersion(a), WireError::UnsupportedVersion(b)) => *a == b,
        (ProtocolError::NoMethods, WireError::NoMethods) => true,
        (ProtocolError::UnsupportedAuthVersion(a), WireError::UnsupportedAuthVersion(b)) => *a
            == b,
        (ProtocolError::UnsupportedAddressType(a), WireError::UnsupportedAddressType(b)) => *a
            == b,
        (ProtocolError::InvalidDomain, WireError::InvalidDomain) => true,
        (ProtocolError::FieldTooLong, WireError::FieldTooLong) => true,
        _ => false,
    }
}

/// An I/O error of kind `UnexpectedEof`: the input ended before the message did.
#[verifier::external_body]
fn unexpected_eof() -> std::io::Error {
    std::io::Error::from(std::io::ErrorKind::UnexpectedEof)
}

/// The text of an I/O error (its `Display` form). Nothing is claimed of it: it comes from
/// the operating system.
#[verifier::external_body]
pub(crate) fn io_error_text(error: &std::io::Error) -> String {
    error.to_string()
}

/// The message of every error but an I/O failure (whose message is `i/o error: ` and the
/// failure's own text).
pub open spec fn protocol_error_text(e: &ProtocolError) -> Seq<char> {
    match e {
        ProtocolError::Io(_) => "i/o error: "@,
        ProtocolError::UnsupportedVersion(v) => "unsupported SOCKS version "@ + byte_hex_text(*v),
        ProtocolError::NoMethods => "client offered no authentication methods"@,
        ProtocolError::UnsupportedAuthVersion(v) => "unsupported username/password sub-negotiation version "@
            + byte_hex_text(*v),
        ProtocolError::UnsupportedAddressType(v) => "unsupported address type "@ + byte_hex_text(*v),
        ProtocolError::InvalidDomain => "invalid domain name"@,
        ProtocolError::FieldTooLong => "field is longer than 255 bytes"@,
    }
}

impl ProtocolError {
    /// The error message (its `Display` form).
    pub fn message(&self) -> (r: String)
        ensures
            *self is Io ==> exists|t: Seq<char>| r@ == protocol_error_text(self) + t,
            !(*self is Io) ==> r@ == protocol_error_text(self),
    {
        let mut out: Vec<char> = Vec::new();
        match self {
            ProtocolError::Io(error) => {
                push_str(&mut out, "i/o error: ");
                let text = io_error_text(error);
                push_str(&mut out, text.as_str());
                assert(out@ =~= protocol_error_text(self) + text@);
            },
            ProtocolError::UnsupportedVersion(v) => {
                push_str(&mut out, "unsupported SOCKS version ");
                push_byte_hex(&mut out, *v);
            },
            ProtocolError::NoMethods => push_str(&mut out, "client offered no authentication methods"),
            ProtocolError::UnsupportedAuthVersion(v) => {
                push_str(&mut out, "unsupported username/password sub-negotiation version ");
                push_byte_hex(&mut out, *v);
            },
            ProtocolError::UnsupportedAddressType(v) => {
                push_str(&mut out, "unsupported address type ");
                push_byte_hex(&mut out, *v);
            },
            ProtocolError::InvalidDomain => push_str(&mut out, "invalid domain name"),
            ProtocolError::FieldTooLong => push_str(&mut out, "field is longer than 255 bytes"),
        }
        proof {
            if !(*self is Io) {
                assert(out@ =~= protocol_error_text(self));
            }
        }
        chars_to_string(out.as_slice())
    }

    /// The error that reports `wire`.
    pub fn from_wire(wire: WireError) -> (r: ProtocolError)
        ensures
            reports(&r, wire),
    {
        match wire {
            WireError::Truncated => ProtocolError::Io(unexpected_eof()),
            WireError::UnsupportedVersion(v) => ProtocolError::UnsupportedVersion(v),
            WireError::NoMethods => ProtocolError::NoMethods,
            WireError::UnsupportedAuthVersion(v) => ProtocolError::UnsupportedAuthVersion(v),
            WireError::UnsupportedAddressType(v) => ProtocolError::UnsupportedAddressType(v),
            WireError::InvalidDomain => ProtocolError::InvalidDomain,
            WireError::FieldTooLong => ProtocolError::FieldTooLong,
        }
    }

    /// Whether this is an I/O failure (including input that ended too early).
    pub fn is_io(&self) -> (r: bool)
        ensures
            r == (*self is Io),
    {
        match self {
            ProtocolError::Io(_) => true,
            _ => false,
        }
    }
}

} // verus!
