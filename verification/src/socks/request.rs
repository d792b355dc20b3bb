use vstd::prelude::*;

use super::consts::{CMD_BIND, CMD_CONNECT, CMD_UDP_ASSOCIATE, SOCKS_VERSION};
use super::protocol_error::{ProtocolError, WireError, reports};
use super::target_addr::{TargetAddr, TargetView, fits_wire, target_bytes, target_wire};

verus! {

/// SOCKS5 command. Only `Connect` is served; the others are answered with
/// "command not supported".
#[derive(Debug, Clone, Copy, PartialEq, Eq, Structural)]
pub enum Command {
    Connect,
    Bind,
    UdpAssociate,
    Unknown(u8),
}

/// The command a `CMD` byte names.
pub open spec fn command_of(value: u8) -> Command {
    if value == CMD_CONNECT {
        Command::Connect
    } else if value == CMD_BIND {
        Command::Bind
    } else if value == CMD_UDP_ASSOCIATE {
        Command::UdpAssociate
    } else {
        Command::Unknown(value)
    }
}

/// The `CMD` byte of a command.
pub open spec fn command_byte(c: Command) -> u8 {
    match c {
        Command::Connect => CMD_CONNECT,
        Command::Bind => CMD_BIND,
        Command::UdpAssociate => CMD_UDP_ASSOCIATE,
        Command::Unknown(value) => value,
    }
}

impl Command {
    pub fn from_byte(value: u8) -> (r: Self)
        ensures
            r == command_of(value),
    {
        if value == CMD_CONNECT {
            Command::Connect
        } else if value == CMD_BIND {
            Command::Bind
        } else if value == CMD_UDP_ASSOCIATE {
            Command::UdpAssociate
        } else {
            Command::Unknown(value)
        }
    }

    pub fn as_byte(self) -> (r: u8)
        ensures
            r == command_byte(self),
    {
        match self {
            Command::Connect => CMD_CONNECT,
            Command::Bind => CMD_BIND,
            Command::UdpAssociate => CMD_UDP_ASSOCIATE,
            Command::Unknown(value) => value,
        }
    }
}

/// Every byte names a command that gives the byte back.
pub proof fn law_command_byte_round_trip(value: u8)
    ensures
        command_byte(command_of(value)) == value,
{
}

/// Client request: `VER | CMD | RSV | ATYP | DST.ADDR | DST.PORT`.
#[derive(Debug, Clone, PartialEq, Eq)]
pub struct Request {
    pub command: Command,
    pub target: TargetAddr,
}

/// A request as a value.
pub struct RequestView {
    pub command: Command,
    pub target: TargetView,
}

impl View for Request {
    type V = RequestView;

    open spec fn view(&self) -> RequestView {
        RequestView { command: self.command, target: self.target@ }
    }
}

/// The bytes of a request; the reserved byte is zero.
pub open spec fn request_bytes(r: RequestView) -> Seq<u8> {
    seq![SOCKS_VERSION, command_byte(r.command), 0x00] + target_bytes(r.target)
}

/// Reading a request from the front of `s`. The four header bytes are read before the version
/// is checked; the reserved byte is ignored.
pub open spec fn request_wire(s: Seq<u8>) -> Result<(RequestView, int), WireError> {
    if s.len() < 4 {
        Err(WireError::Truncated)
    } else if s[0] != SOCKS_VERSION {
        Err(WireError::UnsupportedVersion(s[0]))
    } else {
        match target_wire(s[3], s.skip(4)) {
            Ok((t, n)) => Ok((RequestView { command: command_of(s[1]), target: t }, 4 + n)),
            Err(e) => Err(e),
        }
    }
}

impl Request {
    /// Reads a request sent by a client from the front of `input`; gives the request and the
    /// number of bytes it took. The reserved byte is ignored.
    ///
    /// # Errors
    /// Input that ends early (an I/O error), a version other than 5, an unknown address type
    /// or a malformed domain.
    pub fn decode(input: &[u8]) -> (r: Result<(Self, usize), ProtocolError>)
        ensures
            match r {
                Ok((req, n)) => request_wire(input@) == Ok::<(RequestView, int), WireError>(
                    (req@, n as int),
                ),
                Err(e) => request_wire(input@) matches Err(w) && reports(&e, w),
            },
    {
        let len = input.len();
        if len < 4 {
            return Err(ProtocolError::from_wire(WireError::Truncated));
        }
        let version = input[0];
        if version != SOCKS_VERSION {
            return Err(ProtocolError::from_wire(WireError::UnsupportedVersion(version)));
        }
        let command = Command::from_byte(input[1]);
        let rest = vstd::slice::slice_subrange(input, 4, len);
        assert(rest@ =~= input@.skip(4));
        let (target, n) = TargetAddr::decode(rest, input[3])?;
        proof {
            assert(target_wire(input@[3], input@.skip(4)) matches Ok((_, m)) && m <= rest@.len());
        }
        Ok((Request { command, target }, 4 + n))
    }

    /// Encodes the request (client side).
    ///
    /// # Errors
    /// A domain name longer than 255 bytes.
    pub fn encode(&self) -> (r: Result<Vec<u8>, ProtocolError>)
        ensures
            fits_wire(self.target@) ==> (r matches Ok(bytes) && bytes@ == request_bytes(self@)),
            !fits_wire(self.target@) ==> r matches Err(ProtocolError::FieldTooLong),
    {
        let mut out: Vec<u8> = Vec::new();
        out.push(SOCKS_VERSION);
        out.push(self.command.as_byte());
        out.push(0x00);
        let ghost head = out@;
        self.target.encode_into(&mut out)?;
        assert(out@ =~= request_bytes(self@));
        Ok(out)
    }
}

/// The commands whose byte reads back as the same command: all but an `Unknown` that holds the
/// byte of a known command.
pub open spec fn canonical_command(c: Command) -> bool {
    c matches Command::Unknown(v) ==> v != CMD_CONNECT && v != CMD_BIND && v != CMD_UDP_ASSOCIATE
}

/// A request reads back as itself, whatever follows it: every canonical command, every IP
/// target, and every host name the server accepts.
pub proof fn law_request_round_trip(r: RequestView, rest: Seq<u8>)
    requires
        canonical_command(r.command),
        r.target matches TargetView::Domain(host, _) ==> super::target_addr::valid_host(host),
    ensures
        request_wire(request_bytes(r) + rest) == Ok::<(RequestView, int), WireError>(
            (r, request_bytes(r).len() as int),
        ),
{
    let t = target_bytes(r.target);
    super::target_addr::law_target_round_trip(r.target, rest);
    let s = request_bytes(r) + rest;
    assert(t.len() > 0);
    assert(s[3] == t[0]);
    assert(s.skip(4) =~= t.drop_first() + rest);
}

} // verus!
