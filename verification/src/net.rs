//! IP and socket addresses as plain integers, with the text forms std gives them.
use vstd::prelude::*;

use crate::ip_text::{
    address_char, ipv4_from_text, ipv4_text, ipv6_from_text, ipv6_text, law_ipv4_text_reads_back,
    law_ipv6_text_reads_back, lemma_ipv4_text_chars, lemma_ipv6_text_is_not_ipv4,
    lemma_ipv6_text_shape, parse_ipv4, parse_ipv6,
    push_ipv4_text, push_ipv6_text, read_number, read_ipv4, read_ipv6, read_ipv4_at,
    read_ipv6_at, groups_value, digit_run, run_value,
};
use crate::text::{chars_to_string, decimal_text, is_digit, push_decimal, text_chars};

verus! {

/// An IPv4 (`u32`, the four octets big-endian) or IPv6 (`u128`) address.
#[derive(Clone, Copy, Debug, PartialEq, Eq, Structural, Hash)]
pub enum IpAddress {
    V4(u32),
    V6(u128),
}

/// An IP address and a TCP port.
#[derive(Clone, Copy, Debug, PartialEq, Eq, Structural, Hash)]
pub struct SocketAddress {
    pub ip: IpAddress,
    pub port: u16,
}

/// `IpAddr::from_str`: an IPv4 address, else an IPv6 address.
pub open spec fn ip_from_text(text: Seq<char>) -> Option<IpAddress> {
    match ipv4_from_text(text) {
        Some(v4) => Some(IpAddress::V4(v4)),
        None => match ipv6_from_text(text) {
            Some(v6) => Some(IpAddress::V6(v6)),
            None => None,
        },
    }
}

/// `IpAddr`'s `Display`.
pub open spec fn ip_text(ip: IpAddress) -> Seq<char> {
    match ip {
        IpAddress::V4(v4) => ipv4_text(v4),
        IpAddress::V6(v6) => ipv6_text(v6),
    }
}

/// `SocketAddr`'s `Display`: `a.b.c.d:port` or `[v6]:port`.
pub open spec fn socket_text(addr: SocketAddress) -> Seq<char> {
    match addr.ip {
        IpAddress::V4(_) => ip_text(addr.ip) + seq![':'] + decimal_text(addr.port as nat),
        IpAddress::V6(_) => seq!['['] + ip_text(addr.ip) + seq![']', ':'] + decimal_text(
            addr.port as nat,
        ),
    }
}

/// A port after `:` at `pos`: any number of decimal digits (at least one), value at most
/// 65535. Gives the port and the position after it.
pub open spec fn read_port(s: Seq<char>, pos: int) -> Option<(nat, int)> {
    if 0 <= pos < s.len() && s[pos] == ':' {
        let n = digit_run(s, pos + 1, 10);
        if n > 0 && run_value(s, pos + 1, n, 10) <= 0xFFFF {
            Some((run_value(s, pos + 1, n, 10), pos + 1 + n))
        } else {
            None
        }
    } else {
        None
    }
}

/// `SocketAddr::from_str` for addresses without an IPv6 scope id: `a.b.c.d:port`, else
/// `[v6]:port`.
pub open spec fn socket_from_text(s: Seq<char>) -> Option<SocketAddress> {
    match read_ipv4(s, 0) {
        Some((v4, p)) => match read_port(s, p) {
            Some((port, q)) => if q == s.len() {
                Some(SocketAddress { ip: IpAddress::V4(v4 as u32), port: port as u16 })
            } else {
                None
            },
            None => None,
        },
        None => if s.len() > 0 && s[0] == '[' {
            match read_ipv6(s, 1) {
                Some((g, p)) => if 0 <= p < s.len() && s[p] == ']' {
                    match read_port(s, p + 1) {
                        Some((port, q)) => if q == s.len() {
                            Some(
                                SocketAddress {
                                    ip: IpAddress::V6(groups_value(g) as u128),
                                    port: port as u16,
                                },
                            )
                        } else {
                            None
                        },
                        None => None,
                    }
                } else {
                    None
                },
                None => None,
            }
        } else {
            None
        },
    }
}

/// An IP address reads back from its own text.
pub proof fn law_ip_text_reads_back(ip: IpAddress)
    ensures
        ip_from_text(ip_text(ip)) == Some(ip),
{
    match ip {
        IpAddress::V4(v4) => law_ipv4_text_reads_back(v4),
        IpAddress::V6(v6) => {
            lemma_ipv6_text_is_not_ipv4(v6);
            law_ipv6_text_reads_back(v6);
        },
    }
}

/// The text of an IP address is made of address characters; an IPv4 one holds no colon, an
/// IPv6 one at least two.
pub proof fn lemma_ip_text_shape(ip: IpAddress)
    ensures
        ip_text(ip).len() > 0,
        forall|i: int| 0 <= i < ip_text(ip).len() ==> address_char(#[trigger] ip_text(ip)[i]),
        ip is V4 ==> forall|i: int| 0 <= i < ip_text(ip).len() ==> #[trigger] ip_text(ip)[i] != ':',
        ip is V6 ==> exists|i: int, j: int|
            0 <= i < j < ip_text(ip).len() && ip_text(ip)[i] == ':' && ip_text(ip)[j] == ':',
{
    match ip {
        IpAddress::V4(v4) => {
            lemma_ipv4_text_chars(v4);
            assert forall|i: int| 0 <= i < ip_text(ip).len() implies address_char(
                #[trigger] ip_text(ip)[i],
            ) && ip_text(ip)[i] != ':' by {
                assert(is_digit(ipv4_text(v4)[i]) || ipv4_text(v4)[i] == '.');
            }
        },
        IpAddress::V6(v6) => {
            lemma_ipv6_text_shape(v6);
            let (i, j) = choose|i: int, j: int|
                0 <= i < j < ipv6_text(v6).len() && ipv6_text(v6)[i] == ':' && ipv6_text(v6)[j]
                    == ':';
            assert(ip_text(ip) == ipv6_text(v6));
            assert(ip_text(ip)[i] == ':' && ip_text(ip)[j] == ':');
        },
    }
}

/// IPv4 address embedded in an IPv4-mapped IPv6 address (`::ffff:a.b.c.d`).
pub open spec fn ipv4_mapped(v6: u128) -> Option<u32> {
    if v6 >> 32u128 == 0xFFFFu128 {
        Some((v6 & 0xFFFF_FFFFu128) as u32)
    } else {
        None
    }
}

/// `Ipv6Addr::to_ipv4_mapped`.
pub fn to_ipv4_mapped(v6: u128) -> (r: Option<u32>)
    ensures
        r == ipv4_mapped(v6),
{
    if v6 >> 32u32 == 0xFFFFu128 {
        Some((v6 & 0xFFFF_FFFFu128) as u32)
    } else {
        None
    }
}

/// `IpAddr::from_str` on characters.
pub fn parse_ip_chars(text: &[char]) -> (r: Option<IpAddress>)
    ensures
        r == ip_from_text(text@),
{
    match parse_ipv4(text) {
        Some(v4) => Some(IpAddress::V4(v4)),
        None => match parse_ipv6(text) {
            Some(v6) => Some(IpAddress::V6(v6)),
            None => None,
        },
    }
}

/// Reads `:port` at `pos`.
fn read_port_at(s: &[char], pos: usize) -> (r: Option<(u16, usize)>)
    requires
        pos <= s@.len(),
    ensures
        match r {
            Some((port, q)) => read_port(s@, pos as int) == Some((port as nat, q as int)),
            None => read_port(s@, pos as int) is None,
        },
{
    if !(pos < s.len() && s[pos] == ':') {
        return None;
    }
    let digits = crate::text::sub_chars(s, pos + 1, s.len());
    let ghost d = digits@;
    proof {
        lemma_digit_run_shift(s@, pos + 1, d);
    }
    // The whole run of digits, capped above 65535, as std reads it with checked arithmetic.
    let mut n: usize = 0;
    let mut value: u32 = 0;
    while n < digits.len() && crate::text::is_digit_char(digits[n])
        invariant
            n <= d.len(),
            d == digits@,
            forall|j: int| 0 <= j < n ==> crate::text::is_digit(#[trigger] d[j]),
            value as nat == if run_value(d, 0, n as nat, 10) <= 0x10000 {
                run_value(d, 0, n as nat, 10)
            } else {
                0x10000
            },
        decreases d.len() - n,
    {
        let dg = (digits[n] as u32) - ('0' as u32);
        proof {
            let prev = run_value(d, 0, n as nat, 10);
            assert(run_value(d, 0, (n + 1) as nat, 10) == prev * 10 + dg);
            if prev > 0x10000 {
                assert(prev * 10 + dg > 0x10000) by (nonlinear_arith)
                    requires
                        prev > 0x10000,
                ;
            }
        }
        if value > 0xFFFF {
            value = 0x10000;
        } else {
            let next = value * 10 + dg;
            value = if next > 0x10000 {
                0x10000
            } else {
                next
            };
        }
        n = n + 1;
    }
    proof {
        lemma_run_exact(d, n as nat);
        lemma_run_value_shift(s@, pos + 1, d, n as nat);
    }
    if n == 0 || value > 0xFFFF {
        return None;
    }
    Some((value as u16, pos + 1 + n))
}

proof fn lemma_run_exact(d: Seq<char>, n: nat)
    requires
        n <= d.len(),
        forall|j: int| 0 <= j < n ==> crate::text::is_digit(#[trigger] d[j]),
        n == d.len() || !crate::text::is_digit(d[n as int]),
    ensures
        digit_run(d, 0, 10) == n,
{
    lemma_run_exact_from(d, 0, n);
}

proof fn lemma_run_exact_from(d: Seq<char>, i: nat, n: nat)
    requires
        i <= n <= d.len(),
        forall|j: int| 0 <= j < n ==> crate::text::is_digit(#[trigger] d[j]),
        n == d.len() || !crate::text::is_digit(d[n as int]),
    ensures
        digit_run(d, i as int, 10) == n - i,
    decreases n - i,
{
    if i < n {
        assert(crate::text::is_digit(d[i as int]));
        lemma_run_exact_from(d, i + 1, n);
    }
}

proof fn lemma_digit_run_shift(s: Seq<char>, start: int, d: Seq<char>)
    requires
        0 <= start <= s.len(),
        d == s.subrange(start, s.len() as int),
    ensures
        digit_run(s, start, 10) == digit_run(d, 0, 10),
{
    lemma_digit_run_shift_from(s, start, d, 0);
}

proof fn lemma_digit_run_shift_from(s: Seq<char>, start: int, d: Seq<char>, i: int)
    requires
        0 <= start <= s.len(),
        0 <= i <= d.len(),
        d == s.subrange(start, s.len() as int),
    ensures
        digit_run(s, start + i, 10) == digit_run(d, i, 10),
    decreases d.len() - i,
{
    if i < d.len() {
        assert(d[i] == s[start + i]);
        lemma_digit_run_shift_from(s, start, d, i + 1);
    }
}

proof fn lemma_run_value_shift(s: Seq<char>, start: int, d: Seq<char>, n: nat)
    requires
        0 <= start <= s.len(),
        n <= d.len(),
        d == s.subrange(start, s.len() as int),
    ensures
        run_value(s, start, n, 10) == run_value(d, 0, n, 10),
    decreases n,
{
    if n > 0 {
        lemma_run_value_shift(s, start, d, (n - 1) as nat);
        assert(d[n - 1] == s[start + n - 1]);
    }
}

/// `SocketAddr::from_str` on characters, for addresses without an IPv6 scope id.
pub fn parse_socket_chars(s: &[char]) -> (r: Option<SocketAddress>)
    ensures
        r == socket_from_text(s@),
{
    match read_ipv4_at(s, 0) {
        Some((v4, p)) => match read_port_at(s, p) {
            Some((port, q)) => if q == s.len() {
                Some(SocketAddress { ip: IpAddress::V4(v4), port })
            } else {
                None
            },
            None => None,
        },
        None => {
            if !(s.len() > 0 && s[0] == '[') {
                return None;
            }
            match read_ipv6_at(s, 1) {
                Some((g, p)) => {
                    if !(p < s.len() && s[p] == ']') {
                        return None;
                    }
                    match read_port_at(s, p + 1) {
                        Some((port, q)) => if q == s.len() {
                            let v6 = crate::ip_text::groups_as_u128(&g);
                            proof {
                                let sg = read_ipv6(s@, 1).unwrap().0;
                                assert(g@.map_values(|x: u16| x as nat) =~= sg);
                            }
                            Some(SocketAddress { ip: IpAddress::V6(v6), port })
                        } else {
                            None
                        },
                        None => None,
                    }
                },
                None => None,
            }
        },
    }
}

impl IpAddress {
    /// Parses `a.b.c.d` or an IPv6 address, as `IpAddr::from_str` does.
    pub fn parse(text: &str) -> (r: Option<IpAddress>)
        ensures
            r == ip_from_text(text@),
    {
        let chars = text_chars(text);
        parse_ip_chars(chars.as_slice())
    }

    /// `a.b.c.d` from its octets.
    pub fn v4(a: u8, b: u8, c: u8, d: u8) -> (r: IpAddress)
        ensures
            r == IpAddress::V4(
                ((a as u32) * 0x100_0000 + (b as u32) * 0x1_0000 + (c as u32) * 0x100 + d as u32)
                    as u32,
            ),
    {
        IpAddress::V4(
            (a as u32) * 0x100_0000 + (b as u32) * 0x1_0000 + (c as u32) * 0x100 + d as u32,
        )
    }

    pub fn is_ipv4(&self) -> (r: bool)
        ensures
            r == (*self is V4),
    {
        match self {
            IpAddress::V4(_) => true,
            IpAddress::V6(_) => false,
        }
    }

    /// Appends the text form (`IpAddr`'s `Display`).
    pub fn push_text(&self, out: &mut Vec<char>)
        ensures
            final(out)@ == old(out)@ + ip_text(*self),
    {
        match self {
            IpAddress::V4(v4) => push_ipv4_text(out, *v4),
            IpAddress::V6(v6) => push_ipv6_text(out, *v6),
        }
    }

    /// The text form (`IpAddr`'s `Display`).
    pub fn to_text(&self) -> (r: String)
        ensures
            r@ == ip_text(*self),
    {
        let mut out: Vec<char> = Vec::new();
        self.push_text(&mut out);
        assert(out@ =~= ip_text(*self));
        chars_to_string(out.as_slice())
    }
}

impl SocketAddress {
    pub fn new(ip: IpAddress, port: u16) -> (r: SocketAddress)
        ensures
            r == (SocketAddress { ip, port }),
    {
        SocketAddress { ip, port }
    }

    /// Parses `a.b.c.d:port` or `[v6]:port`, as `SocketAddr::from_str` does (without IPv6
    /// scope ids).
    pub fn parse(text: &str) -> (r: Option<SocketAddress>)
        ensures
            r == socket_from_text(text@),
    {
        let chars = text_chars(text);
        parse_socket_chars(chars.as_slice())
    }

    /// Appends the text form (`SocketAddr`'s `Display`).
    pub fn push_text(&self, out: &mut Vec<char>)
        ensures
            final(out)@ == old(out)@ + socket_text(*self),
    {
        let ghost start = out@;
        match self.ip {
            IpAddress::V4(_) => {
                self.ip.push_text(out);
                out.push(':');
                push_decimal(out, self.port as u64);
                assert(out@ =~= start + socket_text(*self));
            },
            IpAddress::V6(_) => {
                out.push('[');
                self.ip.push_text(out);
                out.push(']');
                out.push(':');
                push_decimal(out, self.port as u64);
                assert(out@ =~= start + socket_text(*self));
            },
        }
    }

    /// The text form (`SocketAddr`'s `Display`).
    pub fn to_text(&self) -> (r: String)
        ensures
            r@ == socket_text(*self),
    {
        let mut out: Vec<char> = Vec::new();
        self.push_text(&mut out);
        assert(out@ =~= socket_text(*self));
        chars_to_string(out.as_slice())
    }
}

} // verus!
