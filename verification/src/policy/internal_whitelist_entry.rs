use vstd::prelude::*;

use super::cidr::{
    Cidr, INVALID_PREFIX, NOT_AN_ADDRESS, cidr_from_text, cidr_text, law_cidr_text_reads_back,
    law_read_cidr_is_normal, lemma_cidr_text_shape,
};
use super::ip_class::{canonical, canonical_ip};
use super::policy_parse_error::PolicyParseError;
use super::port_range::{
    PORT_FORMAT, PortRange, law_port_range_text_reads_back, lemma_port_range_text_chars,
    port_range_from_text, port_range_text,
};
use crate::net::{IpAddress, SocketAddress};
use crate::text::{
    chars_to_string, contains_char, find_char, is_digit, is_space, lemma_first_occurrence,
    lemma_no_occurrence, lemma_split_at_separator,
    lemma_trim_unchanged, split_once, split_once_chars, sub_chars, text_chars, trim, trim_chars,
};

verus! {

pub const EXPECTED_FORMAT: &'static str =
    "expected IP or CIDR with an optional :port or :port-range ([ipv6]:port for IPv6)";

/// One `internal_whitelist` entry: an internal network, optionally narrowed to a port or a
/// port range.
///
/// Accepted forms: `10.0.0.5`, `10.0.0.0/24`, `10.0.0.5:5432`, `10.0.0.0/24:8000-8100`,
/// `fd00::1`, `fd00::/64`, `[fd00::1]:443`, `[fd00::/64]:8000-8100`.
#[derive(Debug, Clone, Copy, PartialEq, Eq, Structural)]
pub struct InternalWhitelistEntry {
    pub network: Cidr,
    /// `None` = every port.
    pub ports: Option<PortRange>,
}

/// Why an entry could not be parsed.
#[derive(Debug, Clone, Copy, PartialEq, Eq, Structural)]
pub enum EntryError {
    /// Not of the form `net`, `net:ports`, `[net]` or `[net]:ports`.
    Format,
    /// The network part is not a CIDR; `true` when it is not an address at all.
    Network(bool),
    /// The port part is not a port or a port range.
    Ports,
}

/// The network text and the optional port text of an entry; `None` when the brackets or
/// the colon are misplaced.
pub open spec fn entry_parts(input: Seq<char>) -> Option<(Seq<char>, Option<Seq<char>>)> {
    let t = trim(input);
    if t.len() > 0 && t[0] == '[' {
        match split_once(t.drop_first(), ']') {
            None => None,
            Some((network, rest)) => if rest.len() == 0 {
                Some((network, None))
            } else if rest[0] == ':' {
                Some((network, Some(rest.drop_first())))
            } else {
                None
            },
        }
    } else {
        match split_once(t, ':') {
            // Exactly one colon: IPv4 with a port. More colons: a bare IPv6 address.
            Some((network, ports)) => if !ports.contains(':') {
                Some((network, Some(ports)))
            } else {
                Some((t, None))
            },
            None => Some((t, None)),
        }
    }
}

/// `InternalWhitelistEntry::from_str`: the network and the (first, last) ports.
pub open spec fn entry_from_text(input: Seq<char>) -> Result<
    (Cidr, Option<(u16, u16)>),
    EntryError,
> {
    match entry_parts(input) {
        None => Err(EntryError::Format),
        Some((network_text, ports_text)) => match cidr_from_text(network_text) {
            Err(not_an_address) => Err(EntryError::Network(not_an_address)),
            Ok(network) => match ports_text {
                None => Ok((network, None)),
                Some(p) => match port_range_from_text(p) {
                    None => Err(EntryError::Ports),
                    Some(range) => Ok((network, Some(range))),
                },
            },
        },
    }
}

/// `entry` is what `input` reads as.
pub open spec fn read_as(entry: InternalWhitelistEntry, input: Seq<char>) -> bool {
    &&& entry_from_text(input) matches Ok((network, ports))
    &&& entry.network == network
    &&& match (entry.ports, ports) {
        (None, None) => true,
        (Some(p), Some((first, last))) => p.spec_first() == first && p.spec_last() == last
            && p.wf(),
        _ => false,
    }
}

/// The reason text of each entry error.
pub open spec fn entry_error_reason(e: EntryError) -> &'static str {
    match e {
        EntryError::Format => EXPECTED_FORMAT,
        EntryError::Network(true) => NOT_AN_ADDRESS,
        EntryError::Network(false) => INVALID_PREFIX,
        EntryError::Ports => PORT_FORMAT,
    }
}

impl InternalWhitelistEntry {
    /// Whether the entry opens `addr`: its network holds the canonical address and its ports
    /// (if any) the port.
    pub open spec fn opens(&self, addr: SocketAddress) -> bool {
        &&& self.network.holds(canonical(addr.ip))
        &&& match self.ports {
            None => true,
            Some(p) => p.spec_first() <= addr.port <= p.spec_last(),
        }
    }

    pub fn matches(&self, addr: SocketAddress) -> (r: bool)
        ensures
            r == self.opens(addr),
    {
        self.network.contains(canonical_ip(addr.ip)) && match self.ports {
            None => true,
            Some(ports) => ports.contains(addr.port),
        }
    }

    /// Parses an entry (`InternalWhitelistEntry::from_str`).
    pub fn parse(input: &str) -> (r: Result<Self, PolicyParseError>)
        ensures
            match r {
                Ok(entry) => read_as(entry, input@),
                Err(e) => entry_from_text(input@) matches Err(why) && e.input@ == input@
                    && e.reason == entry_error_reason(why),
            },
    {
        let chars = text_chars(input);
        let trimmed = trim_chars(chars.as_slice());
        let parts: Option<(Vec<char>, Option<Vec<char>>)> = if trimmed.len() > 0 && trimmed[0]
            == '[' {
            let bracketed = sub_chars(trimmed.as_slice(), 1, trimmed.len());
            proof {
                assert(bracketed@ =~= trimmed@.drop_first());
            }
            match split_once_chars(bracketed.as_slice(), ']') {
                None => None,
                Some((network, rest)) => if rest.len() == 0 {
                    Some((network, None))
                } else if rest[0] == ':' {
                    let ports = sub_chars(rest.as_slice(), 1, rest.len());
                    proof {
                        assert(ports@ =~= rest@.drop_first());
                    }
                    Some((network, Some(ports)))
                } else {
                    None
                },
            }
        } else {
            match split_once_chars(trimmed.as_slice(), ':') {
                Some((network, ports)) => if !contains_char(ports.as_slice(), ':') {
                    Some((network, Some(ports)))
                } else {
                    Some((trimmed, None))
                },
                None => Some((trimmed, None)),
            }
        };
        proof {
            match &parts {
                None => assert(entry_parts(input@) is None),
                Some((n, None)) => assert(entry_parts(input@) == Some((n@, None::<Seq<char>>))),
                Some((n, Some(p))) => assert(entry_parts(input@) == Some((n@, Some(p@)))),
            }
        }
        let (network_text, ports_text) = match parts {
            None => return Err(PolicyParseError::new(input, EXPECTED_FORMAT)),
            Some(x) => x,
        };
        let network_string = chars_to_string(network_text.as_slice());
        let network = match Cidr::parse_chars(network_string.as_str(), network_text.as_slice()) {
            Ok(c) => c,
            Err(error) => return Err(PolicyParseError::new(input, error.reason)),
        };
        let ports = match ports_text {
            None => None,
            Some(p) => {
                let ports_string = chars_to_string(p.as_slice());
                match PortRange::parse_chars(ports_string.as_str(), p.as_slice()) {
                    Ok(range) => Some(range),
                    Err(error) => return Err(PolicyParseError::new(input, error.reason)),
                }
            },
        };
        Ok(InternalWhitelistEntry { network, ports })
    }

    /// Appends the entry: `net`, `net:ports`, or `[net]:ports` for IPv6.
    pub fn push_text(&self, out: &mut Vec<char>)
        ensures
            final(out)@ == old(out)@ + entry_text(*self),
    {
        let ghost start = out@;
        match self.ports {
            None => self.network.push_text(out),
            Some(ports) => {
                if self.network.network().is_ipv4() {
                    self.network.push_text(out);
                    out.push(':');
                    ports.push_text(out);
                } else {
                    out.push('[');
                    self.network.push_text(out);
                    out.push(']');
                    out.push(':');
                    ports.push_text(out);
                }
            },
        }
        assert(out@ =~= start + entry_text(*self));
    }

    /// The `Display` form: `net`, `net:ports`, or `[net]:ports` for IPv6.
    pub fn to_text(&self) -> (r: String)
        ensures
            r@ == entry_text(*self),
    {
        let mut out: Vec<char> = Vec::new();
        self.push_text(&mut out);
        assert(out@ =~= entry_text(*self));
        chars_to_string(out.as_slice())
    }
}

/// The `Display` form of an entry.
pub open spec fn entry_text(e: InternalWhitelistEntry) -> Seq<char> {
    match e.ports {
        None => cidr_text(e.network),
        Some(p) => if e.network.spec_network() is V4 {
            cidr_text(e.network) + seq![':'] + port_range_text(p.spec_first(), p.spec_last())
        } else {
            seq!['['] + cidr_text(e.network) + seq![']', ':'] + port_range_text(
                p.spec_first(),
                p.spec_last(),
            )
        },
    }
}

/// Without ports the text of an entry with an IPv4 network is the network's, which reads back.
#[verifier::spinoff_prover]
proof fn lemma_bare_v4_entry_reads_back(e: InternalWhitelistEntry)
    requires
        e.network.wf(),
        e.network.spec_network() is V4,
        e.ports is None,
    ensures
        read_as(e, entry_text(e)),
{
    let c = e.network;
    let ct = cidr_text(c);
    law_cidr_text_reads_back(c);
    lemma_cidr_text_shape(c);
    assert(entry_text(e) == ct);
    lemma_trim_unchanged(ct);
    lemma_no_occurrence(ct, ':');
    assert(entry_parts(ct) == Some((ct, None::<Seq<char>>)));
}

/// A text with a colon after its first one is taken whole, as a bare network.
proof fn lemma_colons_text_parts(ct: Seq<char>)
    requires
        ct.len() > 0,
        !is_space(ct[0]),
        ct[0] != '[',
        !is_space(ct.last()),
        exists|i: int, j: int| 0 <= i < j < ct.len() && ct[i] == ':' && ct[j] == ':',
    ensures
        entry_parts(ct) == Some((ct, None::<Seq<char>>)),
{
    lemma_trim_unchanged(ct);
    let (i, j) = choose|i: int, j: int| 0 <= i < j < ct.len() && ct[i] == ':' && ct[j] == ':';
    lemma_first_occurrence(ct, ':', i);
    let k = find_char(ct, ':').unwrap();
    assert(split_once(ct, ':') == Some((ct.take(k), ct.skip(k + 1))));
    assert(ct.skip(k + 1)[j - k - 1] == ':');
    assert(ct.skip(k + 1).contains(':'));
}

/// The text of an IPv6 network is taken whole, as a bare network.
proof fn lemma_v6_network_text_parts(c: Cidr)
    requires
        c.spec_network() is V6,
    ensures
        entry_parts(cidr_text(c)) == Some((cidr_text(c), None::<Seq<char>>)),
{
    lemma_cidr_text_shape(c);
    lemma_colons_text_parts(cidr_text(c));
}

/// Without ports the text of an entry with an IPv6 network is the network's, which reads back.
proof fn lemma_bare_v6_entry_reads_back(e: InternalWhitelistEntry)
    requires
        e.network.wf(),
        e.network.spec_network() is V6,
        e.ports is None,
    ensures
        read_as(e, entry_text(e)),
{
    law_cidr_text_reads_back(e.network);
    lemma_v6_network_text_parts(e.network);
    assert(entry_text(e) == cidr_text(e.network));
}

/// The text of an entry with an IPv4 network and ports: the network's, a colon, the ports.
#[verifier::spinoff_prover]
#[verifier::rlimit(40)]
proof fn lemma_v4_entry_with_ports_reads_back(e: InternalWhitelistEntry)
    requires
        e.network.wf(),
        e.network.spec_network() is V4,
        e.ports matches Some(p) && p.wf(),
    ensures
        read_as(e, entry_text(e)),
{
    let c = e.network;
    let ct = cidr_text(c);
    let p = e.ports.unwrap();
    let pt = port_range_text(p.spec_first(), p.spec_last());
    law_cidr_text_reads_back(c);
    law_port_range_text_reads_back(p);
    let t = ct + seq![':'] + pt;
    assert(entry_text(e) == t);
    assert(entry_parts(t) == Some((ct, Some(pt)))) by {
        lemma_cidr_text_shape(c);
        lemma_port_range_text_chars(p.spec_first(), p.spec_last());
        lemma_no_occurrence(pt, ':');
        lemma_no_occurrence(ct, ':');
        lemma_split_at_separator(ct, pt, ':');
        assert(t[0] == ct[0]);
        assert(t.last() == pt[pt.len() - 1]);
        lemma_trim_unchanged(t);
    }
}

/// A bracketed text without brackets in it, a colon and ports split into the text and the
/// ports.
#[verifier::spinoff_prover]
proof fn lemma_bracketed_parts(ct: Seq<char>, pt: Seq<char>)
    requires
        forall|i: int| 0 <= i < ct.len() ==> #[trigger] ct[i] != ']',
        pt.len() > 0,
        is_digit(pt.last()),
    ensures
        entry_parts(seq!['['] + ct + seq![']', ':'] + pt) == Some((ct, Some(pt))),
{
    let rest = seq![':'] + pt;
    let t = seq!['['] + ct + seq![']', ':'] + pt;
    assert(trim(t) == t) by {
        assert(t[0] == '[');
        assert(t.last() == pt[pt.len() - 1]);
        lemma_trim_unchanged(t);
    }
    assert(split_once(t.drop_first(), ']') == Some((ct, rest))) by {
        assert(t.drop_first() =~= ct + seq![']'] + rest);
        lemma_split_at_separator(ct, rest, ']');
    }
    assert(rest.len() > 0 && rest[0] == ':');
    assert(rest.drop_first() =~= pt);
    assert(t.len() > 0 && t[0] == '[');
}

/// The text of an entry with an IPv6 network and ports: the network's in brackets, a colon,
/// the ports.
#[verifier::spinoff_prover]
#[verifier::rlimit(80)]
proof fn lemma_v6_entry_with_ports_reads_back(e: InternalWhitelistEntry)
    requires
        e.network.wf(),
        e.network.spec_network() is V6,
        e.ports matches Some(p) && p.wf(),
    ensures
        read_as(e, entry_text(e)),
{
    let c = e.network;
    let p = e.ports.unwrap();
    let ct = cidr_text(c);
    let pt = port_range_text(p.spec_first(), p.spec_last());
    lemma_bracketed_entry_text(e);
    lemma_port_range_text_chars(p.spec_first(), p.spec_last());
    lemma_cidr_text_shape(c);
    lemma_bracketed_parts(ct, pt);
    law_cidr_text_reads_back(c);
    law_port_range_text_reads_back(p);
}

/// An entry with an IPv6 network and ports is written with the network in brackets.
proof fn lemma_bracketed_entry_text(e: InternalWhitelistEntry)
    requires
        e.network.spec_network() is V6,
        e.ports is Some,
    ensures
        entry_text(e) == seq!['['] + cidr_text(e.network) + seq![']', ':'] + port_range_text(
            e.ports.unwrap().spec_first(),
            e.ports.unwrap().spec_last(),
        ),
{
}

/// An entry reads back from its own text as the same entry.
pub proof fn law_entry_text_reads_back(e: InternalWhitelistEntry)
    requires
        e.network.wf(),
        e.ports matches Some(p) ==> p.wf(),
    ensures
        read_as(e, entry_text(e)),
{
    match (e.ports, e.network.spec_network()) {
        (None, IpAddress::V4(_)) => lemma_bare_v4_entry_reads_back(e),
        (None, IpAddress::V6(_)) => lemma_bare_v6_entry_reads_back(e),
        (Some(_), IpAddress::V4(_)) => lemma_v4_entry_with_ports_reads_back(e),
        (Some(_), IpAddress::V6(_)) => lemma_v6_entry_with_ports_reads_back(e),
    }
}

/// An entry read from any text reads back from its own text as the same entry.
pub proof fn law_read_entry_reads_back(entry: InternalWhitelistEntry, input: Seq<char>)
    requires
        read_as(entry, input),
    ensures
        read_as(entry, entry_text(entry)),
{
    let (network_text, _) = entry_parts(input).unwrap();
    law_read_cidr_is_normal(network_text);
    law_entry_text_reads_back(entry);
}

} // verus!
