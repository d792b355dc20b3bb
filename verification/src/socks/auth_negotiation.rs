use vstd::prelude::*;

use super::consts::{AUTH_STATUS_FAILURE, AUTH_STATUS_SUCCESS, AUTH_VERSION};
use super::protocol_error::{ProtocolError, WireError, reports};
use super::wire::{copy_bytes, push_u8_prefixed, u8_prefixed};
use crate::text::{chars_to_string, push_str};

verus! {

/// RFC 1929 request: `VER | ULEN | UNAME | PLEN | PASSWD`.
#[derive(Clone, PartialEq, Eq)]
pub struct UserPassRequest {
    pub username: Vec<u8>,
    pub password: Vec<u8>,
}

pub open spec fn user_pass_request_bytes(username: Seq<u8>, password: Seq<u8>) -> Seq<u8> {
    seq![AUTH_VERSION] + u8_prefixed(username) + u8_prefixed(password)
}

/// Reading a sub-negotiation request from the front of `s`: (username, password).
pub open spec fn user_pass_request_wire(s: Seq<u8>) -> Result<((Seq<u8>, Seq<u8>), int), WireError> {
    if s.len() < 1 {
        Err(WireError::Truncated)
    } else if s[0] != AUTH_VERSION {
        Err(WireError::UnsupportedAuthVersion(s[0]))
    } else if s.len() < 2 {
        Err(WireError::Truncated)
    } else {
        let ulen = s[1] as int;
        if s.len() < 3 + ulen {
            Err(WireError::Truncated)
        } else {
            let plen = s[2 + ulen] as int;
            if s.len() < 3 + ulen + plen {
                Err(WireError::Truncated)
            } else {
                Ok(
                    (
                        (s.subrange(2, 2 + ulen), s.subrange(3 + ulen, 3 + ulen + plen)),
                        3 + ulen + plen,
                    ),
                )
            }
        }
    }
}

/// The debug rendering of a request: the username, never the password.
pub open spec fn request_debug_text(username: Seq<char>) -> Seq<char> {
    "UserPassRequest { username: \""@ + username + "\", password: \"<redacted>\" }"@
}

impl UserPassRequest {
    /// Reads the sub-negotiation request sent by a client from the front of `input`.
    ///
    /// # Errors
    /// Input that ends early (an I/O error) or a sub-negotiation version other than 1.
    pub fn decode(input: &[u8]) -> (r: Result<(Self, usize), ProtocolError>)
        ensures
            match r {
                Ok((req, n)) => user_pass_request_wire(input@) == Ok::<
                    ((Seq<u8>, Seq<u8>), int),
                    WireError,
                >(((req.username@, req.password@), n as int)),
                Err(e) => user_pass_request_wire(input@) matches Err(w) && reports(&e, w),
            },
    {
        let len = input.len();
        if len < 1 {
            return Err(ProtocolError::from_wire(WireError::Truncated));
        }
        let version = input[0];
        if version != AUTH_VERSION {
            return Err(ProtocolError::from_wire(WireError::UnsupportedAuthVersion(version)));
        }
        if len < 2 {
            return Err(ProtocolError::from_wire(WireError::Truncated));
        }
        let ulen = input[1] as usize;
        if len < 3 + ulen {
            return Err(ProtocolError::from_wire(WireError::Truncated));
        }
        let plen = input[2 + ulen] as usize;
        if len < 3 + ulen + plen {
            return Err(ProtocolError::from_wire(WireError::Truncated));
        }
        let username = copy_bytes(input, 2, 2 + ulen);
        let password = copy_bytes(input, 3 + ulen, 3 + ulen + plen);
        Ok((UserPassRequest { username, password }, 3 + ulen + plen))
    }

    /// Encodes the request (client side).
    ///
    /// # Errors
    /// Username or password longer than 255 bytes.
    pub fn encode(&self) -> (r: Result<Vec<u8>, ProtocolError>)
        ensures
            self.username@.len() <= 255 && self.password@.len() <= 255 ==> (r matches Ok(bytes)
                && bytes@ == user_pass_request_bytes(self.username@, self.password@)),
            self.username@.len() > 255 || self.password@.len() > 255 ==> (r matches Err(
                ProtocolError::FieldTooLong,
            )),
    {
        let mut out: Vec<u8> = Vec::new();
        out.push(AUTH_VERSION);
        push_u8_prefixed(&mut out, self.username.as_slice())?;
        push_u8_prefixed(&mut out, self.password.as_slice())?;
        assert(out@ =~= user_pass_request_bytes(self.username@, self.password@));
        Ok(out)
    }

    /// Debug rendering that leaves the password out. The username bytes are shown as
    /// characters when they are ASCII, as `?` otherwise.
    pub fn debug_text(&self) -> (r: String)
        ensures
            r@ == request_debug_text(ascii_or_mark(self.username@)),
    {
        let mut out: Vec<char> = Vec::new();
        push_str(&mut out, "UserPassRequest { username: \"");
        let ghost start = out@;
        let mut i: usize = 0;
        while i < self.username.len()
            invariant
                i <= self.username@.len(),
                out@ == start + ascii_or_mark(self.username@.take(i as int)),
            decreases self.username.len() - i,
        {
            let b = self.username[i];
            let c = if b < 128 {
                b as char
            } else {
                '?'
            };
            out.push(c);
            proof {
                assert(self.username@.take(i + 1).drop_last() =~= self.username@.take(i as int));
                assert(out@ =~= start + ascii_or_mark(self.username@.take(i + 1)));
            }
            i = i + 1;
        }
        assert(self.username@.take(self.username@.len() as int) =~= self.username@);
        push_str(&mut out, "\", password: \"<redacted>\" }");
        assert(out@ =~= request_debug_text(ascii_or_mark(self.username@)));
        chars_to_string(out.as_slice())
    }
}

/// Bytes as characters: ASCII bytes as themselves, others as `?`.
pub open spec fn ascii_or_mark(bytes: Seq<u8>) -> Seq<char>
    decreases bytes.len(),
{
    if bytes.len() == 0 {
        seq![]
    } else {
        let b = bytes.last();
        ascii_or_mark(bytes.drop_last()).push(
            if b < 128 {
                b as char
            } else {
                '?'
            },
        )
    }
}

/// RFC 1929 response: `VER | STATUS`.
#[derive(Debug, Clone, Copy, PartialEq, Eq, Structural)]
pub struct UserPassResponse {
    pub status: u8,
}

pub open spec fn user_pass_response_bytes(status: u8) -> Seq<u8> {
    seq![AUTH_VERSION, status]
}

/// Reading the server's answer from the front of `s`: the status.
pub open spec fn user_pass_response_wire(s: Seq<u8>) -> Result<(u8, int), WireError> {
    if s.len() < 1 {
        Err(WireError::Truncated)
    } else if s[0] != AUTH_VERSION {
        Err(WireError::UnsupportedAuthVersion(s[0]))
    } else if s.len() < 2 {
        Err(WireError::Truncated)
    } else {
        Ok((s[1], 2))
    }
}

impl UserPassResponse {
    /// Status 0: the credentials were accepted.
    pub fn success() -> (r: Self)
        ensures
            r.status == AUTH_STATUS_SUCCESS,
    {
        UserPassResponse { status: AUTH_STATUS_SUCCESS }
    }

    /// Status 1: the credentials were refused.
    pub fn failure() -> (r: Self)
        ensures
            r.status == AUTH_STATUS_FAILURE,
    {
        UserPassResponse { status: AUTH_STATUS_FAILURE }
    }

    pub fn is_success(self) -> (r: bool)
        ensures
            r == (self.status == AUTH_STATUS_SUCCESS),
    {
        self.status == AUTH_STATUS_SUCCESS
    }

    pub fn encode(self) -> (r: [u8; 2])
        ensures
            r@ == user_pass_response_bytes(self.status),
    {
        let r = [AUTH_VERSION, self.status];
        assert(r@ =~= user_pass_response_bytes(self.status));
        r
    }

    /// Reads the server's answer (client side) from the front of `input`.
    ///
    /// # Errors
    /// Input that ends early (an I/O error) or a sub-negotiation version other than 1.
    pub fn decode(input: &[u8]) -> (r: Result<(Self, usize), ProtocolError>)
        ensures
            match r {
                Ok((resp, n)) => user_pass_response_wire(input@) == Ok::<(u8, int), WireError>(
                    (resp.status, n as int),
                ),
                Err(e) => user_pass_response_wire(input@) matches Err(w) && reports(&e, w),
            },
    {
        if input.len() < 1 {
            return Err(ProtocolError::from_wire(WireError::Truncated));
        }
        let version = input[0];
        if version != AUTH_VERSION {
            return Err(ProtocolError::from_wire(WireError::UnsupportedAuthVersion(version)));
        }
        if input.len() < 2 {
            return Err(ProtocolError::from_wire(WireError::Truncated));
        }
        Ok((UserPassResponse { status: input[1] }, 2))
    }
}

/// A request reads back as itself, whatever follows it, when both fields fit in 255 bytes.
pub proof fn law_user_pass_request_round_trip(username: Seq<u8>, password: Seq<u8>, rest: Seq<u8>)
    requires
        username.len() <= 255,
        password.len() <= 255,
    ensures
        user_pass_request_wire(user_pass_request_bytes(username, password) + rest) == Ok::<
            ((Seq<u8>, Seq<u8>), int),
            WireError,
        >(((username, password), 3 + username.len() as int + password.len() as int)),
{
    let s = user_pass_request_bytes(username, password) + rest;
    let ul = username.len() as int;
    let pl = password.len() as int;
    assert(s[1] == ul);
    assert(s[2 + ul] == pl);
    assert(s.subrange(2, 2 + ul) =~= username);
    assert(s.subrange(3 + ul, 3 + ul + pl) =~= password);
}

/// A response reads back as itself, whatever follows it.
pub proof fn law_user_pass_response_round_trip(status: u8, rest: Seq<u8>)
    ensures
        user_pass_response_wire(user_pass_response_bytes(status) + rest) == Ok::<(u8, int), WireError>(
            (status, 2),
        ),
{
}

} // verus!
