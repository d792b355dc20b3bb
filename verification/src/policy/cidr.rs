use vstd::prelude::*;

use super::ip_class::canonical;
use super::policy_parse_error::PolicyParseError;
use crate::ip_text::lemma_address_char;
use crate::net::{
    IpAddress, ip_from_text, ip_text, ipv4_mapped, law_ip_text_reads_back, lemma_ip_text_shape,
    parse_ip_chars, to_ipv4_mapped,
};
use crate::text::{
    chars_to_string, decimal_text, is_digit, is_space, lemma_decimal_text_digits,
    lemma_digits_read_back,
    lemma_split_at_separator, lemma_trim_unchanged, parse_decimal, parse_unsigned, push_decimal,
    split_once, split_once_chars, text_chars, trim, trim_chars,
};

verus! {

/// An IP network: `10.0.0.0/8`, `fd00::/8`, or a single host (`/32`, `/128`).
#[derive(Debug, Clone, Copy, PartialEq, Eq, Structural, Hash)]
pub struct Cidr {
    network: IpAddress,
    prefix_len: u8,
}

/// Mask of the first `prefix_len` bits of an IPv4 address (all bits from 32 on).
pub open spec fn v4_mask_of(prefix_len: u8) -> u32 {
    if prefix_len == 0 {
        0
    } else if prefix_len >= 32 {
        0xFFFF_FFFFu32
    } else {
        0xFFFF_FFFFu32 << (32 - prefix_len) as u32
    }
}

/// Mask of the first `prefix_len` bits of an IPv6 address (all bits from 128 on).
pub open spec fn v6_mask_of(prefix_len: u8) -> u128 {
    if prefix_len == 0 {
        0
    } else if prefix_len >= 128 {
        0xFFFF_FFFF_FFFF_FFFF_FFFF_FFFF_FFFF_FFFFu128
    } else {
        0xFFFF_FFFF_FFFF_FFFF_FFFF_FFFF_FFFF_FFFFu128 << (128 - prefix_len) as u128
    }
}

/// The network and prefix length `Cidr::new` gives: host bits cleared; an IPv4-mapped IPv6
/// address with a prefix of at least 96 bits as the IPv4 network it maps (prefix less 96);
/// `None` for a prefix longer than the address.
pub open spec fn network_of(addr: IpAddress, prefix_len: u8) -> Option<(IpAddress, u8)> {
    match addr {
        IpAddress::V6(v6) => if prefix_len >= 96 && ipv4_mapped(v6) is Some {
            if prefix_len - 96 <= 32 {
                Some(
                    (
                        IpAddress::V4(ipv4_mapped(v6).unwrap() & v4_mask_of((prefix_len - 96) as u8)),
                        (prefix_len - 96) as u8,
                    ),
                )
            } else {
                None
            }
        } else if prefix_len <= 128 {
            Some((IpAddress::V6(v6 & v6_mask_of(prefix_len)), prefix_len))
        } else {
            None
        },
        IpAddress::V4(v4) => if prefix_len <= 32 {
            Some((IpAddress::V4(v4 & v4_mask_of(prefix_len)), prefix_len))
        } else {
            None
        },
    }
}

/// What `Cidr::new` builds: host bits cleared; an IPv4-mapped IPv6 network with a prefix of
/// at least 96 bits as the IPv4 network it maps; `None` for a prefix longer than the address.
pub closed spec fn cidr_new(addr: IpAddress, prefix_len: u8) -> Option<Cidr> {
    match addr {
        IpAddress::V6(v6) => if prefix_len >= 96 && ipv4_mapped(v6) is Some {
            if prefix_len - 96 <= 32 {
                Some(
                    Cidr {
                        network: IpAddress::V4(
                            ipv4_mapped(v6).unwrap() & v4_mask_of((prefix_len - 96) as u8),
                        ),
                        prefix_len: (prefix_len - 96) as u8,
                    },
                )
            } else {
                None
            }
        } else if prefix_len <= 128 {
            Some(Cidr { network: IpAddress::V6(v6 & v6_mask_of(prefix_len)), prefix_len })
        } else {
            None
        },
        IpAddress::V4(v4) => if prefix_len <= 32 {
            Some(Cidr { network: IpAddress::V4(v4 & v4_mask_of(prefix_len)), prefix_len })
        } else {
            None
        },
    }
}

/// Parse of the text before `/`, and of the prefix after it.
pub open spec fn cidr_parts(input: Seq<char>) -> (Seq<char>, Option<Seq<char>>) {
    let trimmed = trim(input);
    match split_once(trimmed, '/') {
        Some((addr, prefix)) => (addr, Some(prefix)),
        None => (trimmed, None),
    }
}

/// The prefix length a CIDR text names for `addr`: the whole address when absent.
pub open spec fn cidr_prefix(addr: IpAddress, prefix: Option<Seq<char>>) -> Option<u8> {
    let max_prefix: nat = if addr is V4 {
        32
    } else {
        128
    };
    match prefix {
        None => Some(max_prefix as u8),
        Some(text) => match parse_unsigned(text, 255) {
            Some(v) => if v <= max_prefix {
                Some(v as u8)
            } else {
                None
            },
            None => None,
        },
    }
}

/// `Cidr::from_str`: `a.b.c.d`, `a.b.c.d/n`, `x::y`, `x::y/n`, surrounding white space
/// ignored. `Err(true)`: not an address; `Err(false)`: invalid prefix length.
pub open spec fn cidr_from_text(input: Seq<char>) -> Result<Cidr, bool> {
    let (addr_text, prefix) = cidr_parts(input);
    match ip_from_text(addr_text) {
        None => Err(true),
        Some(addr) => match cidr_prefix(addr, prefix) {
            None => Err(false),
            Some(prefix_len) => match cidr_new(addr, prefix_len) {
                Some(c) => Ok(c),
                None => Err(false),
            },
        },
    }
}

/// The text of a CIDR (`Display`): the network, `/`, the prefix length in decimal.
pub open spec fn cidr_text(c: Cidr) -> Seq<char> {
    ip_text(c.spec_network()) + seq!['/'] + decimal_text(c.spec_prefix_len() as nat)
}

pub const NOT_AN_ADDRESS: &'static str = "expected an IP address or CIDR";

pub const INVALID_PREFIX: &'static str = "invalid prefix length";

impl Cidr {
    pub closed spec fn spec_network(&self) -> IpAddress {
        self.network
    }

    pub closed spec fn spec_prefix_len(&self) -> u8 {
        self.prefix_len
    }

    /// The CIDR is in the form `Cidr::new` builds: rebuilding it from its own network and
    /// prefix length gives it back.
    pub open spec fn wf(&self) -> bool {
        cidr_new(self.spec_network(), self.spec_prefix_len()) == Some(*self)
    }

    /// Whether `ip` is in the network: same family, same first `prefix_len` bits.
    pub open spec fn holds(&self, ip: IpAddress) -> bool {
        match (self.spec_network(), ip) {
            (IpAddress::V4(network), IpAddress::V4(a)) => (a & v4_mask_of(self.spec_prefix_len()))
                == network,
            (IpAddress::V6(network), IpAddress::V6(a)) => (a & v6_mask_of(self.spec_prefix_len()))
                == network,
            _ => false,
        }
    }

    /// Host bits of `addr` are cleared. IPv4-mapped IPv6 networks (`::ffff:a.b.c.d/96+`) are
    /// stored as IPv4, so they match canonicalized addresses. `None` if the prefix is too long.
    pub fn new(addr: IpAddress, prefix_len: u8) -> (r: Option<Self>)
        ensures
            r == cidr_new(addr, prefix_len),
            r is Some <==> network_of(addr, prefix_len) is Some,
            r matches Some(c) ==> network_of(addr, prefix_len) == Some(
                (c.spec_network(), c.spec_prefix_len()),
            ),
        decreases
            if addr is V6 {
                1int
            } else {
                0int
            },
    {
        if let IpAddress::V6(v6) = addr {
            if prefix_len >= 96 {
                if let Some(v4) = to_ipv4_mapped(v6) {
                    return Self::new(IpAddress::V4(v4), prefix_len - 96);
                }
            }
        }
        match addr {
            IpAddress::V4(v4) => if prefix_len <= 32 {
                Some(Cidr { network: IpAddress::V4(v4 & v4_mask(prefix_len)), prefix_len })
            } else {
                None
            },
            IpAddress::V6(v6) => if prefix_len <= 128 {
                Some(Cidr { network: IpAddress::V6(v6 & v6_mask(prefix_len)), prefix_len })
            } else {
                None
            },
        }
    }

    /// Whether `ip` belongs to the network. Callers pass canonical addresses (see
    /// [`canonical_ip`](super::canonical_ip)); IPv4 never matches an IPv6 network and vice versa.
    pub fn contains(&self, ip: IpAddress) -> (r: bool)
        ensures
            r == self.holds(ip),
    {
        match (self.network, ip) {
            (IpAddress::V4(network), IpAddress::V4(a)) => (a & v4_mask(self.prefix_len))
                == network,
            (IpAddress::V6(network), IpAddress::V6(a)) => (a & v6_mask(self.prefix_len))
                == network,
            (IpAddress::V4(_), IpAddress::V6(_)) | (IpAddress::V6(_), IpAddress::V4(_)) => false,
        }
    }

    pub fn network(&self) -> (r: IpAddress)
        ensures
            r == self.spec_network(),
    {
        self.network
    }

    pub fn prefix_len(&self) -> (r: u8)
        ensures
            r == self.spec_prefix_len(),
    {
        self.prefix_len
    }

    /// Parses `a.b.c.d`, `a.b.c.d/n`, `x::y` or `x::y/n` (`Cidr::from_str`).
    pub fn parse(input: &str) -> (r: Result<Self, PolicyParseError>)
        ensures
            match r {
                Ok(c) => cidr_from_text(input@) == Ok::<Cidr, bool>(c),
                Err(e) => cidr_from_text(input@) is Err && e.input@ == input@ && e.reason == (
                if cidr_from_text(input@) == Err::<Cidr, bool>(true) {
                    NOT_AN_ADDRESS
                } else {
                    INVALID_PREFIX
                }),
            },
    {
        let chars = text_chars(input);
        Self::parse_chars(input, chars.as_slice())
    }

    /// [`Cidr::parse`] on the characters of `input`.
    pub fn parse_chars(input: &str, chars: &[char]) -> (r: Result<Self, PolicyParseError>)
        requires
            chars@ == input@,
        ensures
            match r {
                Ok(c) => cidr_from_text(input@) == Ok::<Cidr, bool>(c),
                Err(e) => cidr_from_text(input@) is Err && e.input@ == input@ && e.reason == (
                if cidr_from_text(input@) == Err::<Cidr, bool>(true) {
                    NOT_AN_ADDRESS
                } else {
                    INVALID_PREFIX
                }),
            },
    {
        let trimmed = trim_chars(chars);
        let (addr_text, prefix) = match split_once_chars(trimmed.as_slice(), '/') {
            Some((a, p)) => (a, Some(p)),
            None => (trimmed, None),
        };
        let addr = match parse_ip_chars(addr_text.as_slice()) {
            Some(a) => a,
            None => return Err(PolicyParseError::new(input, NOT_AN_ADDRESS)),
        };
        let max_prefix: u32 = if addr.is_ipv4() {
            32
        } else {
            128
        };
        let prefix_len: u8 = match &prefix {
            None => max_prefix as u8,
            Some(text) => match parse_decimal(text.as_slice(), 255) {
                Some(v) => if v <= max_prefix {
                    v as u8
                } else {
                    return Err(PolicyParseError::new(input, INVALID_PREFIX));
                },
                None => return Err(PolicyParseError::new(input, INVALID_PREFIX)),
            },
        };
        proof {
            let parts = cidr_parts(input@);
            assert(addr_text@ == parts.0);
            match &prefix {
                Some(p) => assert(parts.1 == Some(p@)),
                None => assert(parts.1 is None),
            }
            assert(cidr_prefix(addr, parts.1) == Some(prefix_len));
        }
        match Self::new(addr, prefix_len) {
            Some(c) => Ok(c),
            None => Err(PolicyParseError::new(input, INVALID_PREFIX)),
        }
    }

    /// Appends `network/prefix_len`.
    pub fn push_text(&self, out: &mut Vec<char>)
        ensures
            final(out)@ == old(out)@ + cidr_text(*self),
    {
        let ghost start = out@;
        self.network.push_text(out);
        out.push('/');
        push_decimal(out, self.prefix_len as u64);
        assert(out@ =~= start + cidr_text(*self));
    }

    /// `network/prefix_len` (the `Display` form).
    pub fn to_text(&self) -> (r: String)
        ensures
            r@ == cidr_text(*self),
    {
        let mut out: Vec<char> = Vec::new();
        self.push_text(&mut out);
        assert(out@ =~= cidr_text(*self));
        chars_to_string(out.as_slice())
    }
}

fn v4_mask(prefix_len: u8) -> (r: u32)
    ensures
        r == v4_mask_of(prefix_len),
{
    if prefix_len == 0 {
        0
    } else if prefix_len >= 32 {
        0xFFFF_FFFFu32
    } else {
        0xFFFF_FFFFu32 << (32 - prefix_len as u32)
    }
}

fn v6_mask(prefix_len: u8) -> (r: u128)
    ensures
        r == v6_mask_of(prefix_len),
{
    if prefix_len == 0 {
        0
    } else if prefix_len >= 128 {
        0xFFFF_FFFF_FFFF_FFFF_FFFF_FFFF_FFFF_FFFFu128
    } else {
        0xFFFF_FFFF_FFFF_FFFF_FFFF_FFFF_FFFF_FFFFu128 << (128 - prefix_len as u32)
    }
}

/// A network built from an address contains that address (taken in canonical form), and
/// its address has no host bits set. (An IPv4-mapped address with a prefix shorter than 96
/// bits stays an IPv6 network, which no canonical address matches.)
pub proof fn law_new_contains_its_address(addr: IpAddress, prefix_len: u8)
    requires
        cidr_new(addr, prefix_len) is Some,
        !(addr matches IpAddress::V6(v6) && ipv4_mapped(v6) is Some && prefix_len < 96),
    ensures
        cidr_new(addr, prefix_len).unwrap().holds(canonical(addr)),
        cidr_new(addr, prefix_len).unwrap().holds(
            cidr_new(addr, prefix_len).unwrap().spec_network(),
        ),
{
    let c = cidr_new(addr, prefix_len).unwrap();
    match c.network {
        IpAddress::V4(n) => {
            let m = v4_mask_of(c.prefix_len);
            assert(forall|x: u32, m: u32| #![auto] ((x & m) & m) == (x & m)) by (bit_vector);
        },
        IpAddress::V6(n) => {
            let m = v6_mask_of(c.prefix_len);
            assert(forall|x: u128, m: u128| #![auto] ((x & m) & m) == (x & m)) by (bit_vector);
        },
    }
}

/// A prefix of length 0 matches every address of its family.
pub proof fn law_zero_prefix_matches_family(c: Cidr, ip: IpAddress)
    requires
        c.spec_prefix_len() == 0,
        c.spec_network() == IpAddress::V4(0) || c.spec_network() == IpAddress::V6(0),
        (c.spec_network() is V4) == (ip is V4),
    ensures
        c.holds(ip),
{
    assert(forall|x: u32| #![auto] (x & 0u32) == 0u32) by (bit_vector);
    assert(forall|x: u128| #![auto] (x & 0u128) == 0u128) by (bit_vector);
}

/// `Cidr::new` gives exactly the network and prefix length of [`network_of`].
pub proof fn law_new_gives_masked_network(addr: IpAddress, prefix_len: u8)
    ensures
        cidr_new(addr, prefix_len) is Some <==> network_of(addr, prefix_len) is Some,
        cidr_new(addr, prefix_len) matches Some(c) ==> network_of(addr, prefix_len) == Some(
            (c.spec_network(), c.spec_prefix_len()),
        ),
{
}

/// Every CIDR that `Cidr::new` builds is in the form it builds.
pub proof fn law_new_is_normal(addr: IpAddress, prefix_len: u8)
    ensures
        cidr_new(addr, prefix_len) matches Some(c) ==> c.wf(),
{
    assert(forall|x: u32, m: u32| #![auto] ((x & m) & m) == (x & m)) by (bit_vector);
    assert(forall|x: u128, m: u128| #![auto] ((x & m) & m) == (x & m)) by (bit_vector);
    if let IpAddress::V6(v6) = addr {
        if 96 <= prefix_len < 128 {
            let shift = (128 - prefix_len) as u128;
            assert((v6 & (0xFFFF_FFFF_FFFF_FFFF_FFFF_FFFF_FFFF_FFFFu128 << shift)) >> 32u128 == v6
                >> 32u128) by (bit_vector)
                requires
                    1 <= shift <= 32,
            ;
        }
        if prefix_len == 128 {
            assert(v6 & 0xFFFF_FFFF_FFFF_FFFF_FFFF_FFFF_FFFF_FFFFu128 == v6) by (bit_vector);
        }
    }
}

/// A network read from any text is in the form `Cidr::new` builds.
pub proof fn law_read_cidr_is_normal(input: Seq<char>)
    ensures
        cidr_from_text(input) matches Ok(c) ==> c.wf(),
{
    let (addr_text, prefix) = cidr_parts(input);
    if let Some(addr) = ip_from_text(addr_text) {
        if let Some(p) = cidr_prefix(addr, prefix) {
            law_new_is_normal(addr, p);
        }
    }
}

/// A network reads back from its own text as the same network.
pub proof fn law_cidr_text_reads_back(c: Cidr)
    requires
        c.wf(),
    ensures
        cidr_from_text(cidr_text(c)) == Ok::<Cidr, bool>(c),
{
    let ip = c.network;
    let p = c.prefix_len;
    let a = ip_text(ip);
    let d = decimal_text(p as nat);
    let t = a + seq!['/'] + d;
    assert(cidr_text(c) == t);
    law_ip_text_reads_back(ip);
    lemma_ip_text_shape(ip);
    lemma_decimal_text_digits(p as nat);
    lemma_digits_read_back(d, 255);
    assert forall|i: int| 0 <= i < a.len() implies a[i] != '/' by {
        lemma_address_char(a[i]);
    }
    lemma_split_at_separator(a, d, '/');
    assert(t[0] == a[0]);
    lemma_address_char(a[0]);
    assert(t.last() == d[d.len() - 1]);
    assert(is_digit(d[d.len() - 1]));
    lemma_trim_unchanged(t);
    assert(cidr_parts(t) == (a, Some(d)));
}

/// The text of a network: address characters, a slash and digits, with a digit at the end and
/// no bracket; an IPv4 network's holds no colon, an IPv6 network's at least two.
pub proof fn lemma_cidr_text_shape(c: Cidr)
    ensures
        cidr_text(c).len() > 0,
        !is_space(cidr_text(c)[0]),
        is_digit(cidr_text(c).last()),
        forall|i: int|
            0 <= i < cidr_text(c).len() ==> #[trigger] cidr_text(c)[i] != '[' && cidr_text(c)[i]
                != ']',
        c.spec_network() is V4 ==> forall|i: int|
            0 <= i < cidr_text(c).len() ==> #[trigger] cidr_text(c)[i] != ':',
        c.spec_network() is V6 ==> exists|i: int, j: int|
            0 <= i < j < cidr_text(c).len() && cidr_text(c)[i] == ':' && cidr_text(c)[j] == ':',
{
    let a = ip_text(c.network);
    let d = decimal_text(c.prefix_len as nat);
    let t = cidr_text(c);
    assert(t == a + seq!['/'] + d);
    lemma_ip_text_shape(c.network);
    lemma_decimal_text_digits(c.prefix_len as nat);
    assert(t[0] == a[0]);
    lemma_address_char(a[0]);
    assert(t.last() == d[d.len() - 1]);
    assert(is_digit(d[d.len() - 1]));
    assert forall|i: int| 0 <= i < t.len() implies #[trigger] t[i] != '[' && t[i] != ']' && (
    c.spec_network() is V4 ==> t[i] != ':') by {
        if i < a.len() {
            assert(t[i] == a[i]);
            lemma_address_char(a[i]);
        } else if i > a.len() {
            assert(t[i] == d[i - a.len() - 1]);
            assert(is_digit(d[i - a.len() - 1]));
        }
    }
    if c.network is V6 {
        let (i, j) = choose|i: int, j: int| 0 <= i < j < a.len() && a[i] == ':' && a[j] == ':';
        assert(t[i] == a[i] && t[j] == a[j]);
    }
}

/// An IPv4 network holds exactly the addresses whose first `prefix_len` bits are the
/// network's: all of them with prefix 0, otherwise those that agree with it once the other
/// `32 - prefix_len` bits are shifted out.
pub proof fn law_ipv4_network_holds_its_prefix(c: Cidr, a: u32)
    requires
        c.wf(),
        c.spec_network() is V4,
    ensures
        c.spec_prefix_len() <= 32,
        c.holds(IpAddress::V4(a)) <==> (c.spec_prefix_len() == 0 || a >> (32 - c.spec_prefix_len(
        )) as u32 == c.spec_network()->V4_0 >> (32 - c.spec_prefix_len()) as u32),
{
    let n = c.network->V4_0;
    let p = c.prefix_len;
    assert(p <= 32);
    assert(n & v4_mask_of(p) == n) by {
        assert(forall|x: u32, m: u32| #![auto] ((x & m) & m) == (x & m)) by (bit_vector);
    }
    if p == 32 {
        assert(a >> 0u32 == a && n >> 0u32 == n && a & 0xFFFF_FFFFu32 == a) by (bit_vector);
    } else if p > 0 {
        let shift = (32 - p) as u32;
        assert(v4_mask_of(p) == 0xFFFF_FFFFu32 << shift);
        assert((n & (0xFFFF_FFFFu32 << shift)) == n ==> (((a & (0xFFFF_FFFFu32 << shift)) == n)
            <==> (a >> shift == n >> shift))) by (bit_vector)
            requires
                1 <= shift <= 31,
        ;
    } else {
        assert(a & 0u32 == 0 && n & 0u32 == 0) by (bit_vector);
    }
}

/// An IPv6 network holds exactly the addresses whose first `prefix_len` bits are the
/// network's: all of them with prefix 0, otherwise those that agree with it once the other
/// `128 - prefix_len` bits are shifted out.
pub proof fn law_ipv6_network_holds_its_prefix(c: Cidr, a: u128)
    requires
        c.wf(),
        c.spec_network() is V6,
    ensures
        c.spec_prefix_len() <= 128,
        c.holds(IpAddress::V6(a)) <==> (c.spec_prefix_len() == 0 || a >> (128
            - c.spec_prefix_len()) as u128 == c.spec_network()->V6_0 >> (128
            - c.spec_prefix_len()) as u128),
{
    let n = c.network->V6_0;
    let p = c.prefix_len;
    assert(p <= 128);
    assert(n & v6_mask_of(p) == n) by {
        assert(forall|x: u128, m: u128| #![auto] ((x & m) & m) == (x & m)) by (bit_vector);
    }
    if p == 128 {
        assert(a >> 0u128 == a && n >> 0u128 == n && a & 0xFFFF_FFFF_FFFF_FFFF_FFFF_FFFF_FFFF_FFFFu128
            == a) by (bit_vector);
    } else if p > 0 {
        let shift = (128 - p) as u128;
        assert(v6_mask_of(p) == 0xFFFF_FFFF_FFFF_FFFF_FFFF_FFFF_FFFF_FFFFu128 << shift);
        let m = 0xFFFF_FFFF_FFFF_FFFF_FFFF_FFFF_FFFF_FFFFu128 << shift;
        assert(a & m == (a >> shift) << shift) by (bit_vector)
            requires
                m == 0xFFFF_FFFF_FFFF_FFFF_FFFF_FFFF_FFFF_FFFFu128 << shift,
                shift <= 127,
        ;
        assert(n & m == (n >> shift) << shift) by (bit_vector)
            requires
                m == 0xFFFF_FFFF_FFFF_FFFF_FFFF_FFFF_FFFF_FFFFu128 << shift,
                shift <= 127,
        ;
        assert((a & m) >> shift == a >> shift) by (bit_vector)
            requires
                m == 0xFFFF_FFFF_FFFF_FFFF_FFFF_FFFF_FFFF_FFFFu128 << shift,
                shift <= 127,
        ;
        assert((n & m) >> shift == n >> shift) by (bit_vector)
            requires
                m == 0xFFFF_FFFF_FFFF_FFFF_FFFF_FFFF_FFFF_FFFFu128 << shift,
                shift <= 127,
        ;
    } else {
        assert(a & 0u128 == 0 && n & 0u128 == 0) by (bit_vector);
    }
}

/// A CIDR is its network and prefix length: two with the same ones are the same.
pub proof fn law_cidr_is_network_and_prefix(a: Cidr, b: Cidr)
    requires
        a.spec_network() == b.spec_network(),
        a.spec_prefix_len() == b.spec_prefix_len(),
    ensures
        a == b,
{
}

} // verus!
