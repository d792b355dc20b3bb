use vstd::prelude::*;

use super::consts::{ATYP_DOMAIN, ATYP_IPV4, ATYP_IPV6};
use super::protocol_error::{ProtocolError, WireError, reports};
use super::wire::{
    be_bytes, be_value, copy_bytes, lemma_be_bytes_len, lemma_be_round_trip, lemma_pow256n_values,
    port_bytes, push_be, push_socket_addr, push_u8_prefixed, read_be, socket_addr_bytes,
    u8_prefixed,
};
use crate::net::{IpAddress, SocketAddress, socket_text};
use crate::text::{chars_to_string, decimal_text, push_decimal, push_str};

verus! {

/// Destination requested by the client: `ATYP | DST.ADDR | DST.PORT`.
#[derive(Debug, PartialEq, Eq)]
pub enum TargetAddr {
    Ip(SocketAddress),
    /// Resolved on the server side.
    Domain { host: String, port: u16 },
}

/// A target as a value: an address, or a host name and a port.
pub enum TargetView {
    Ip(SocketAddress),
    Domain(Seq<char>, u16),
}

impl Clone for TargetAddr {
    fn clone(&self) -> (r: Self)
        ensures
            r@ == self@,
    {
        match self {
            TargetAddr::Ip(addr) => TargetAddr::Ip(*addr),
            TargetAddr::Domain { host, port } => TargetAddr::Domain { host: host.clone(), port: *port },
        }
    }
}

impl View for TargetAddr {
    type V = TargetView;

    open spec fn view(&self) -> TargetView {
        match self {
            TargetAddr::Ip(a) => TargetView::Ip(*a),
            TargetAddr::Domain { host, port } => TargetView::Domain(host@, *port),
        }
    }
}

/// A byte a host name may hold: letters, digits, `-`, `_`, `.`, and `:` for IPv6 literals.
pub open spec fn domain_byte(b: u8) -> bool {
    ||| 0x30 <= b <= 0x39
    ||| 0x41 <= b <= 0x5A
    ||| 0x61 <= b <= 0x7A
    ||| b == 0x2D
    ||| b == 0x5F
    ||| b == 0x2E
    ||| b == 0x3A
}

/// A host name the server accepts: not empty, only [`domain_byte`]s. Anything else is
/// refused before it can reach the resolver or the logs.
pub open spec fn valid_domain(raw: Seq<u8>) -> bool {
    raw.len() > 0 && forall|i: int| 0 <= i < raw.len() ==> domain_byte(#[trigger] raw[i])
}

/// ASCII bytes as characters.
pub open spec fn ascii_text(raw: Seq<u8>) -> Seq<char> {
    raw.map_values(|b: u8| b as char)
}

/// The bytes of a target: `ATYP | ADDR | PORT`.
pub open spec fn target_bytes(t: TargetView) -> Seq<u8> {
    match t {
        TargetView::Ip(a) => socket_addr_bytes(a),
        TargetView::Domain(host, port) => seq![ATYP_DOMAIN] + u8_prefixed(
            vstd::utf8::encode_utf8(host),
        ) + port_bytes(port),
    }
}

/// Reading the address that follows an `ATYP` byte from the front of `s`. A host name is
/// checked after its port has been read.
pub open spec fn target_wire(address_type: u8, s: Seq<u8>) -> Result<(TargetView, int), WireError> {
    if address_type == ATYP_IPV4 {
        if s.len() < 6 {
            Err(WireError::Truncated)
        } else {
            Ok(
                (
                    TargetView::Ip(
                        SocketAddress {
                            ip: IpAddress::V4(be_value(s.take(4)) as u32),
                            port: be_value(s.subrange(4, 6)) as u16,
                        },
                    ),
                    6,
                ),
            )
        }
    } else if address_type == ATYP_IPV6 {
        if s.len() < 18 {
            Err(WireError::Truncated)
        } else {
            Ok(
                (
                    TargetView::Ip(
                        SocketAddress {
                            ip: IpAddress::V6(be_value(s.take(16)) as u128),
                            port: be_value(s.subrange(16, 18)) as u16,
                        },
                    ),
                    18,
                ),
            )
        }
    } else if address_type == ATYP_DOMAIN {
        if s.len() < 1 {
            Err(WireError::Truncated)
        } else {
            let n = s[0] as int;
            if s.len() < 3 + n {
                Err(WireError::Truncated)
            } else if !valid_domain(s.subrange(1, 1 + n)) {
                Err(WireError::InvalidDomain)
            } else {
                Ok(
                    (
                        TargetView::Domain(
                            ascii_text(s.subrange(1, 1 + n)),
                            be_value(s.subrange(1 + n, 3 + n)) as u16,
                        ),
                        3 + n,
                    ),
                )
            }
        }
    } else {
        Err(WireError::UnsupportedAddressType(address_type))
    }
}

/// A host name may hold ASCII letters and digits and the characters `-`, `_`, `.` and `:`,
/// and no other byte.
pub proof fn law_host_name_bytes(b: u8)
    ensures
        domain_byte(b) <==> (('0' as u8) <= b <= ('9' as u8) || ('a' as u8) <= b <= ('z' as u8)
            || ('A' as u8) <= b <= ('Z' as u8) || b == ('-' as u8) || b == ('_' as u8) || b == (
        '.' as u8) || b == (':' as u8)),
{
}

/// A `DOMAIN` target whose name is made of ASCII letters, digits, `-`, `_`, `.` and `:` reads
/// as that name and the big-endian port after it, whatever follows.
pub proof fn law_domain_target_reads_its_host(host: Seq<u8>, high: u8, low: u8, rest: Seq<u8>)
    requires
        0 < host.len() <= 255,
        forall|i: int|
            0 <= i < host.len() ==> ('0' as u8) <= #[trigger] host[i] <= ('9' as u8) || ('a' as u8)
                <= host[i] <= ('z' as u8) || ('A' as u8) <= host[i] <= ('Z' as u8) || host[i] == (
            '-' as u8) || host[i] == ('_' as u8) || host[i] == ('.' as u8) || host[i] == (
            ':' as u8),
    ensures
        target_wire(ATYP_DOMAIN, seq![host.len() as u8] + host + seq![high, low] + rest) == Ok::<
            (TargetView, int),
            WireError,
        >((TargetView::Domain(ascii_text(host), (high * 256 + low) as u16), 3 + host.len() as int)),
{
    let n = host.len() as int;
    let s = seq![host.len() as u8] + host + seq![high, low] + rest;
    assert(s[0] == host.len() as u8);
    assert(s.subrange(1, 1 + n) =~= host);
    assert(s.subrange(1 + n, 3 + n) =~= seq![high, low]);
    assert forall|i: int| 0 <= i < host.len() implies domain_byte(#[trigger] host[i]) by {
        law_host_name_bytes(host[i]);
    }
    let port = seq![high, low];
    assert(port.drop_last() =~= seq![high]);
    assert(seq![high].drop_last() =~= Seq::<u8>::empty());
    assert(be_value(Seq::<u8>::empty()) == 0);
    assert(be_value(seq![high]) == high as nat);
    assert(be_value(port) == high * 256 + low);
}

/// `host:port`, with brackets around a host holding `:`; `SocketAddr` text for addresses.
pub open spec fn target_text(t: TargetView) -> Seq<char> {
    match t {
        TargetView::Ip(a) => socket_text(a),
        TargetView::Domain(host, port) => if host.contains(':') {
            seq!['['] + host + seq![']', ':'] + decimal_text(port as nat)
        } else {
            host + seq![':'] + decimal_text(port as nat)
        },
    }
}

pub fn is_domain_byte(b: u8) -> (r: bool)
    ensures
        r == domain_byte(b),
{
    (0x30 <= b && b <= 0x39) || (0x41 <= b && b <= 0x5A) || (0x61 <= b && b <= 0x7A) || b == 0x2D
        || b == 0x5F || b == 0x2E || b == 0x3A
}

/// Accepts host names (letters, digits, `-`, `_`, `.`) and IP literals (`:` for IPv6).
/// Anything else is refused before it can reach the resolver or the logs.
pub fn parse_domain(raw: Vec<u8>) -> (r: Result<String, ProtocolError>)
    ensures
        match r {
            Ok(host) => valid_domain(raw@) && host@ == ascii_text(raw@),
            Err(e) => !valid_domain(raw@) && e is InvalidDomain,
        },
{
    if raw.len() == 0 {
        return Err(ProtocolError::InvalidDomain);
    }
    let mut chars: Vec<char> = Vec::new();
    let mut i: usize = 0;
    while i < raw.len()
        invariant
            i <= raw@.len(),
            forall|j: int| 0 <= j < i ==> domain_byte(#[trigger] raw@[j]),
            chars@ =~= ascii_text(raw@.take(i as int)),
        decreases raw.len() - i,
    {
        let b = raw[i];
        if !is_domain_byte(b) {
            assert(!domain_byte(raw@[i as int]));
            return Err(ProtocolError::InvalidDomain);
        }
        chars.push(b as char);
        i = i + 1;
    }
    assert(raw@.take(raw@.len() as int) =~= raw@);
    Ok(chars_to_string(chars.as_slice()))
}

impl TargetAddr {
    /// Reads the address that follows an `ATYP` byte from the front of `input`.
    ///
    /// # Errors
    /// Input that ends early (an I/O error), an unknown address type or a malformed domain
    /// name.
    pub fn decode(input: &[u8], address_type: u8) -> (r: Result<(Self, usize), ProtocolError>)
        ensures
            match r {
                Ok((t, n)) => target_wire(address_type, input@) == Ok::<(TargetView, int), WireError>(
                    (t@, n as int),
                ),
                Err(e) => target_wire(address_type, input@) matches Err(w) && reports(&e, w),
            },
    {
        let len = input.len();
        if address_type == ATYP_IPV4 {
            if len < 6 {
                return Err(ProtocolError::from_wire(WireError::Truncated));
            }
            let a = read_be(input, 0, 4);
            let port = read_be(input, 4, 2);
            proof {
                assert(input@.subrange(0, 4) =~= input@.take(4));
                lemma_be_value_fits(input@.take(4));
                lemma_be_value_fits(input@.subrange(4, 6));
            }
            Ok((TargetAddr::Ip(SocketAddress { ip: IpAddress::V4(a as u32), port: port as u16 }), 6))
        } else if address_type == ATYP_IPV6 {
            if len < 18 {
                return Err(ProtocolError::from_wire(WireError::Truncated));
            }
            let a = read_be(input, 0, 16);
            let port = read_be(input, 16, 2);
            proof {
                assert(input@.subrange(0, 16) =~= input@.take(16));
                lemma_be_value_fits(input@.subrange(16, 18));
            }
            Ok((TargetAddr::Ip(SocketAddress { ip: IpAddress::V6(a), port: port as u16 }), 18))
        } else if address_type == ATYP_DOMAIN {
            if len < 1 {
                return Err(ProtocolError::from_wire(WireError::Truncated));
            }
            let n = input[0] as usize;
            if len < 3 + n {
                return Err(ProtocolError::from_wire(WireError::Truncated));
            }
            let raw = copy_bytes(input, 1, 1 + n);
            let port = read_be(input, 1 + n, 2);
            proof {
                lemma_be_value_fits(input@.subrange(1 + n, 3 + n));
            }
            let host = parse_domain(raw)?;
            Ok((TargetAddr::Domain { host, port: port as u16 }, 3 + n))
        } else {
            Err(ProtocolError::from_wire(WireError::UnsupportedAddressType(address_type)))
        }
    }

    pub fn port(&self) -> (r: u16)
        ensures
            r == match self@ {
                TargetView::Ip(a) => a.port,
                TargetView::Domain(_, p) => p,
            },
    {
        match self {
            TargetAddr::Ip(addr) => addr.port,
            TargetAddr::Domain { port, .. } => *port,
        }
    }

    /// Appends `ATYP | ADDR | PORT`.
    ///
    /// # Errors
    /// A domain name longer than 255 bytes (only the address type byte is appended then).
    pub fn encode_into(&self, out: &mut Vec<u8>) -> (r: Result<(), ProtocolError>)
        ensures
            fits_wire(self@) ==> r is Ok && final(out)@ == old(out)@ + target_bytes(self@),
            !fits_wire(self@) ==> (r matches Err(ProtocolError::FieldTooLong)) && final(out)@
                == old(out)@.push(ATYP_DOMAIN),
    {
        match self {
            TargetAddr::Ip(addr) => push_socket_addr(out, *addr),
            TargetAddr::Domain { host, port } => {
                let ghost start = out@;
                out.push(ATYP_DOMAIN);
                push_u8_prefixed(out, host.as_str().as_bytes())?;
                push_be(out, *port as u128, 2);
                assert(out@ =~= start + target_bytes(self@));
            },
        }
        Ok(())
    }

    /// Appends the text form: the socket address, or `host:port` (`[host]:port` when the host
    /// holds `:`).
    pub fn push_text(&self, out: &mut Vec<char>)
        ensures
            final(out)@ == old(out)@ + target_text(self@),
    {
        let ghost start = out@;
        match self {
            TargetAddr::Ip(addr) => addr.push_text(out),
            TargetAddr::Domain { host, port } => {
                let chars = crate::text::text_chars(host.as_str());
                if crate::text::contains_char(chars.as_slice(), ':') {
                    out.push('[');
                    push_str(out, host.as_str());
                    out.push(']');
                } else {
                    push_str(out, host.as_str());
                }
                out.push(':');
                push_decimal(out, *port as u64);
            },
        }
        assert(out@ =~= start + target_text(self@));
    }

    /// The text form (the `Display` form).
    pub fn to_text(&self) -> (r: String)
        ensures
            r@ == target_text(self@),
    {
        let mut out: Vec<char> = Vec::new();
        self.push_text(&mut out);
        assert(out@ =~= target_text(self@));
        chars_to_string(out.as_slice())
    }
}

/// A target whose encoding fits the wire: every address, a host name of at most 255 bytes.
pub open spec fn fits_wire(t: TargetView) -> bool {
    match t {
        TargetView::Ip(_) => true,
        TargetView::Domain(host, _) => vstd::utf8::encode_utf8(host).len() <= 255,
    }
}

/// A host name as the server accepts it (a [`valid_domain`], as characters).
pub open spec fn valid_host(host: Seq<char>) -> bool {
    exists|raw: Seq<u8>| valid_domain(raw) && raw.len() <= 255 && ascii_text(raw) == host
}

proof fn lemma_be_value_fits(s: Seq<u8>)
    ensures
        s.len() == 2 ==> be_value(s) < 0x1_0000,
        s.len() == 4 ==> be_value(s) < 0x1_0000_0000,
{
    crate::socks::wire::lemma_be_value_bound(s);
    lemma_pow256n_values();
}

/// A target reads back as itself after its address type byte, whatever follows it: every
/// IP address, and every host name the server accepts.
pub proof fn law_target_round_trip(t: TargetView, rest: Seq<u8>)
    requires
        t matches TargetView::Domain(host, _) ==> valid_host(host),
    ensures
        target_wire(target_bytes(t)[0], target_bytes(t).drop_first() + rest) == Ok::<
            (TargetView, int),
            WireError,
        >((t, target_bytes(t).len() - 1)),
{
    lemma_pow256n_values();
    match t {
        TargetView::Ip(a) => {
            let s = target_bytes(t).drop_first() + rest;
            lemma_be_bytes_len(a.port as nat, 2);
            lemma_be_round_trip(a.port as nat, 2);
            match a.ip {
                IpAddress::V4(v) => {
                    lemma_be_bytes_len(v as nat, 4);
                    lemma_be_round_trip(v as nat, 4);
                    assert(s.take(4) =~= be_bytes(v as nat, 4));
                    assert(s.subrange(4, 6) =~= be_bytes(a.port as nat, 2));
                },
                IpAddress::V6(v) => {
                    lemma_be_bytes_len(v as nat, 16);
                    lemma_be_round_trip(v as nat, 16);
                    assert(s.take(16) =~= be_bytes(v as nat, 16));
                    assert(s.subrange(16, 18) =~= be_bytes(a.port as nat, 2));
                },
            }
        },
        TargetView::Domain(host, port) => {
            let raw = choose|raw: Seq<u8>|
                valid_domain(raw) && raw.len() <= 255 && ascii_text(raw) == host;
            assert(vstd::utf8::is_ascii_chars(host)) by {
                assert forall|i: int| 0 <= i < host.len() implies '\0' <= #[trigger] host[i]
                    <= '\u{7f}' by {
                    assert(domain_byte(raw[i]));
                    assert(host[i] == raw[i] as char);
                }
            }
            vstd::utf8::is_ascii_chars_encode_utf8(host);
            let bytes = vstd::utf8::encode_utf8(host);
            assert(bytes =~= raw) by {
                assert forall|i: int| 0 <= i < raw.len() implies bytes[i] == raw[i] by {
                    assert(host[i] as u8 == bytes[i]);
                    assert(host[i] == raw[i] as char);
                    assert(domain_byte(raw[i]));
                }
            }
            let n = raw.len() as int;
            lemma_be_bytes_len(port as nat, 2);
            lemma_be_round_trip(port as nat, 2);
            let s = target_bytes(t).drop_first() + rest;
            assert(s[0] == n);
            assert(s.subrange(1, 1 + n) =~= raw);
            assert(s.subrange(1 + n, 3 + n) =~= be_bytes(port as nat, 2));
        },
    }
}

} // verus!
