use vstd::prelude::*;

use super::consts::{METHOD_NO_ACCEPTABLE, SOCKS_VERSION};
use super::protocol_error::{ProtocolError, WireError, reports};
use super::wire::copy_bytes;

verus! {

/// Client greeting: `VER | NMETHODS | METHODS...` (RFC 1928, section 3).
#[derive(Debug, Clone, PartialEq, Eq)]
pub struct Greeting {
    pub methods: Vec<u8>,
}

/// The bytes of a greeting offering `methods`.
pub open spec fn greeting_bytes(methods: Seq<u8>) -> Seq<u8> {
    seq![SOCKS_VERSION, methods.len() as u8] + methods
}

/// Reading a greeting from the front of `s`: the offered methods and the bytes used.
/// Each check happens as soon as its byte is there.
pub open spec fn greeting_wire(s: Seq<u8>) -> Result<(Seq<u8>, int), WireError> {
    if s.len() < 1 {
        Err(WireError::Truncated)
    } else if s[0] != SOCKS_VERSION {
        Err(WireError::UnsupportedVersion(s[0]))
    } else if s.len() < 2 {
        Err(WireError::Truncated)
    } else if s[1] == 0 {
        Err(WireError::NoMethods)
    } else if s.len() < 2 + s[1] {
        Err(WireError::Truncated)
    } else {
        Ok((s.subrange(2, 2 + s[1]), 2 + s[1]))
    }
}

impl Greeting {
    /// Reads a greeting sent by a client from the front of `input`; gives the greeting and
    /// the number of bytes it took.
    ///
    /// # Errors
    /// Input that ends early (an I/O error), a version other than 5, or an empty method list.
    pub fn decode(input: &[u8]) -> (r: Result<(Self, usize), ProtocolError>)
        ensures
            match r {
                Ok((g, n)) => greeting_wire(input@) == Ok::<(Seq<u8>, int), WireError>(
                    (g.methods@, n as int),
                ),
                Err(e) => greeting_wire(input@) matches Err(w) && reports(&e, w),
            },
    {
        if input.len() < 1 {
            return Err(ProtocolError::from_wire(WireError::Truncated));
        }
        let version = input[0];
        if version != SOCKS_VERSION {
            return Err(ProtocolError::from_wire(WireError::UnsupportedVersion(version)));
        }
        if input.len() < 2 {
            return Err(ProtocolError::from_wire(WireError::Truncated));
        }
        let count = input[1] as usize;
        if count == 0 {
            return Err(ProtocolError::from_wire(WireError::NoMethods));
        }
        if input.len() < 2 + count {
            return Err(ProtocolError::from_wire(WireError::Truncated));
        }
        let methods = copy_bytes(input, 2, 2 + count);
        Ok((Greeting { methods }, 2 + count))
    }

    pub fn offers(&self, method: u8) -> (r: bool)
        ensures
            r == self.methods@.contains(method),
    {
        let mut i: usize = 0;
        while i < self.methods.len()
            invariant
                i <= self.methods@.len(),
                forall|j: int| 0 <= j < i ==> self.methods@[j] != method,
            decreases self.methods.len() - i,
        {
            if self.methods[i] == method {
                assert(self.methods@[i as int] == method);
                return true;
            }
            i = i + 1;
        }
        false
    }

    /// Encodes the greeting (client side).
    ///
    /// # Errors
    /// More than 255 methods.
    pub fn encode(&self) -> (r: Result<Vec<u8>, ProtocolError>)
        ensures
            self.methods@.len() <= 255 ==> (r matches Ok(bytes) && bytes@ == greeting_bytes(
                self.methods@,
            )),
            self.methods@.len() > 255 ==> r matches Err(ProtocolError::FieldTooLong),
    {
        if self.methods.len() > 255 {
            return Err(ProtocolError::FieldTooLong);
        }
        let mut out: Vec<u8> = Vec::new();
        out.push(SOCKS_VERSION);
        out.push(self.methods.len() as u8);
        let mut i: usize = 0;
        while i < self.methods.len()
            invariant
                i <= self.methods@.len() <= 255,
                out@ =~= seq![SOCKS_VERSION, self.methods@.len() as u8] + self.methods@.take(
                    i as int,
                ),
            decreases self.methods.len() - i,
        {
            out.push(self.methods[i]);
            i = i + 1;
        }
        assert(self.methods@.take(self.methods@.len() as int) =~= self.methods@);
        Ok(out)
    }
}

/// The server's choice of authentication method: `VER | METHOD`.
#[derive(Debug, Clone, Copy, PartialEq, Eq, Structural)]
pub struct MethodSelection {
    pub method: u8,
}

pub open spec fn method_selection_bytes(method: u8) -> Seq<u8> {
    seq![SOCKS_VERSION, method]
}

/// Reading the server's answer from the front of `s`: the chosen method.
pub open spec fn method_selection_wire(s: Seq<u8>) -> Result<(u8, int), WireError> {
    if s.len() < 1 {
        Err(WireError::Truncated)
    } else if s[0] != SOCKS_VERSION {
        Err(WireError::UnsupportedVersion(s[0]))
    } else if s.len() < 2 {
        Err(WireError::Truncated)
    } else {
        Ok((s[1], 2))
    }
}

impl MethodSelection {
    /// "No acceptable methods" (`METHOD_NO_ACCEPTABLE`).
    pub fn no_acceptable() -> (r: Self)
        ensures
            r.method == METHOD_NO_ACCEPTABLE,
    {
        MethodSelection { method: METHOD_NO_ACCEPTABLE }
    }

    pub fn encode(self) -> (r: [u8; 2])
        ensures
            r@ == method_selection_bytes(self.method),
    {
        let r = [SOCKS_VERSION, self.method];
        assert(r@ =~= method_selection_bytes(self.method));
        r
    }

    /// Reads the server's answer (client side) from the front of `input`.
    ///
    /// # Errors
    /// Input that ends early (an I/O error) or a version other than 5.
    pub fn decode(input: &[u8]) -> (r: Result<(Self, usize), ProtocolError>)
        ensures
            match r {
                Ok((m, n)) => method_selection_wire(input@) == Ok::<(u8, int), WireError>(
                    (m.method, n as int),
                ),
                Err(e) => method_selection_wire(input@) matches Err(w) && reports(&e, w),
            },
    {
        if input.len() < 1 {
            return Err(ProtocolError::from_wire(WireError::Truncated));
        }
        let version = input[0];
        if version != SOCKS_VERSION {
            return Err(ProtocolError::from_wire(WireError::UnsupportedVersion(version)));
        }
        if input.len() < 2 {
            return Err(ProtocolError::from_wire(WireError::Truncated));
        }
        Ok((MethodSelection { method: input[1] }, 2))
    }
}

/// A greeting reads back as itself, whatever follows it, when it offers 1 to 255 methods.
pub proof fn law_greeting_round_trip(methods: Seq<u8>, rest: Seq<u8>)
    requires
        1 <= methods.len() <= 255,
    ensures
        greeting_wire(greeting_bytes(methods) + rest) == Ok::<(Seq<u8>, int), WireError>(
            (methods, 2 + methods.len() as int),
        ),
{
    let s = greeting_bytes(methods) + rest;
    assert(s.subrange(2, 2 + methods.len() as int) =~= methods);
}

/// A method selection reads back as itself, whatever follows it.
pub proof fn law_method_selection_round_trip(method: u8, rest: Seq<u8>)
    ensures
        method_selection_wire(method_selection_bytes(method) + rest) == Ok::<(u8, int), WireError>(
            (method, 2),
        ),
{
}

} // verus!
