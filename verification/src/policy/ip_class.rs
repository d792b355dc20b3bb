use vstd::prelude::*;

use crate::net::{IpAddress, ipv4_mapped, to_ipv4_mapped};

verus! {

/// Kind of network an address belongs to, as far as the destination policy is concerned.
#[derive(Debug, Clone, Copy, PartialEq, Eq, Structural)]
pub enum IpClass {
    /// Globally routable: always allowed (subject to blocked ports).
    Public,
    /// Private networks: `10/8`, `172.16/12`, `192.168/16`, `100.64/10` (CGNAT),
    /// `fc00::/7` (ULA), `fec0::/10` (deprecated site-local).
    /// Opened by `allow_internal` or `internal_whitelist`.
    Private,
    /// `169.254/16` (including cloud metadata `169.254.169.254`) and `fe80::/10`.
    /// Opened only by `internal_whitelist`.
    LinkLocal,
    /// `127/8` and `::1`: services of the proxy host itself. Opened only by `internal_whitelist`.
    Loopback,
    /// Never a valid destination: `0/8` (Linux connects `0.0.0.0` to localhost), multicast,
    /// `240/4` including broadcast, `::`, deprecated IPv4-compatible `::a.b.c.d`.
    Reserved,
}

pub open spec fn class_name(class: IpClass) -> Seq<char> {
    match class {
        IpClass::Public => "public"@,
        IpClass::Private => "private"@,
        IpClass::LinkLocal => "link-local"@,
        IpClass::Loopback => "loopback"@,
        IpClass::Reserved => "reserved"@,
    }
}

impl IpClass {
    pub fn as_str(self) -> (r: &'static str)
        ensures
            r@ == class_name(self),
    {
        match self {
            IpClass::Public => "public",
            IpClass::Private => "private",
            IpClass::LinkLocal => "link-local",
            IpClass::Loopback => "loopback",
            IpClass::Reserved => "reserved",
        }
    }
}

/// `::ffff:a.b.c.d` as `a.b.c.d`; every other address as it is.
pub open spec fn canonical(ip: IpAddress) -> IpAddress {
    match ip {
        IpAddress::V6(v6) => match ipv4_mapped(v6) {
            Some(v4) => IpAddress::V4(v4),
            None => ip,
        },
        IpAddress::V4(_) => ip,
    }
}

/// Class of an IPv4 address: `0/8` and `224/3` reserved, `127/8` loopback, `169.254/16`
/// link-local, `10/8`, `172.16/12`, `192.168/16` and `100.64/10` private, the rest public.
pub open spec fn v4_class(a: u32) -> IpClass {
    let first = a >> 24u32;
    let second = (a >> 16u32) & 0xFFu32;
    if first == 0 || first >= 224 {
        IpClass::Reserved
    } else if first == 127 {
        IpClass::Loopback
    } else if first == 169 && second == 254 {
        IpClass::LinkLocal
    } else if first == 10 || (first == 172 && (second & 0xF0u32) == 16) || (first == 192 && second
        == 168) || (first == 100 && (second & 0xC0u32) == 64) {
        IpClass::Private
    } else {
        IpClass::Public
    }
}

/// IPv4 address carried by a NAT64 (`64:ff9b::/96`) or 6to4 (`2002::/16`) address.
pub open spec fn embedded_v4(a: u128) -> Option<u32> {
    if a >> 32u128 == 0x0064_FF9B_0000_0000_0000_0000u128 {
        Some((a & 0xFFFF_FFFFu128) as u32)
    } else if a >> 112u128 == 0x2002u128 {
        Some(((a >> 80u128) & 0xFFFF_FFFFu128) as u32)
    } else {
        None
    }
}

/// Class of an IPv6 address: `::1` loopback; `::` and `::a.b.c.d` reserved; NAT64 and 6to4
/// as the IPv4 host they reach; `ff00::/8` reserved; `fc00::/7` and `fec0::/10` private;
/// `fe80::/10` link-local; the rest public.
pub open spec fn v6_class(a: u128) -> IpClass {
    let first = a >> 112u128;
    if a == 1 {
        IpClass::Loopback
    } else if a >> 32u128 == 0 {
        IpClass::Reserved
    } else if embedded_v4(a) is Some {
        v4_class(embedded_v4(a).unwrap())
    } else if a >> 120u128 == 0xFFu128 {
        IpClass::Reserved
    } else if (first & 0xFE00u128) == 0xFC00u128 || (first & 0xFFC0u128) == 0xFEC0u128 {
        IpClass::Private
    } else if (first & 0xFFC0u128) == 0xFE80u128 {
        IpClass::LinkLocal
    } else {
        IpClass::Public
    }
}

/// Class of an address; IPv4-mapped IPv6 is judged as the IPv4 address it maps to.
pub open spec fn ip_class(ip: IpAddress) -> IpClass {
    match canonical(ip) {
        IpAddress::V4(a) => v4_class(a),
        IpAddress::V6(a) => v6_class(a),
    }
}

/// `::ffff:a.b.c.d` becomes `a.b.c.d`; everything else is returned unchanged.
pub fn canonical_ip(ip: IpAddress) -> (r: IpAddress)
    ensures
        r == canonical(ip),
{
    match ip {
        IpAddress::V6(v6) => match to_ipv4_mapped(v6) {
            Some(v4) => IpAddress::V4(v4),
            None => ip,
        },
        IpAddress::V4(_) => ip,
    }
}

/// Classifies an address; IPv4-mapped IPv6 is judged as the IPv4 address it maps to.
pub fn classify_ip(ip: IpAddress) -> (r: IpClass)
    ensures
        r == ip_class(ip),
{
    match canonical_ip(ip) {
        IpAddress::V4(a) => classify_v4(a),
        IpAddress::V6(a) => classify_v6(a),
    }
}

fn classify_v4(a: u32) -> (r: IpClass)
    ensures
        r == v4_class(a),
{
    let first = a >> 24u32;
    let second = (a >> 16u32) & 0xFFu32;
    if first == 0 || first >= 224 {
        IpClass::Reserved
    } else if first == 127 {
        IpClass::Loopback
    } else if first == 169 && second == 254 {
        IpClass::LinkLocal
    } else if first == 10 || (first == 172 && (second & 0xF0u32) == 16) || (first == 192 && second
        == 168) || (first == 100 && (second & 0xC0u32) == 64) {
        IpClass::Private
    } else {
        IpClass::Public
    }
}

fn embedded_ipv4(a: u128) -> (r: Option<u32>)
    ensures
        r == embedded_v4(a),
{
    if a >> 32u32 == 0x0064_FF9B_0000_0000_0000_0000u128 {
        Some((a & 0xFFFF_FFFFu128) as u32)
    } else if a >> 112u32 == 0x2002u128 {
        Some(((a >> 80u32) & 0xFFFF_FFFFu128) as u32)
    } else {
        None
    }
}

fn classify_v6(a: u128) -> (r: IpClass)
    ensures
        r == v6_class(a),
{
    let first = a >> 112u32;
    if a == 1 {
        return IpClass::Loopback;
    }
    if a >> 32u32 == 0 {
        // `::` and IPv4-compatible `::a.b.c.d`, which a SIT tunnel may deliver to IPv4.
        return IpClass::Reserved;
    }
    if let Some(embedded) = embedded_ipv4(a) {
        // NAT64 and 6to4 addresses reach an IPv4 host: judge that host.
        return classify_v4(embedded);
    }
    if a >> 120u32 == 0xFFu128 {
        IpClass::Reserved
    } else if (first & 0xFE00u128) == 0xFC00u128 || (first & 0xFFC0u128) == 0xFEC0u128 {
        IpClass::Private
    } else if (first & 0xFFC0u128) == 0xFE80u128 {
        IpClass::LinkLocal
    } else {
        IpClass::Public
    }
}

/// An address and its canonical form belong to the same class, and canonicalizing twice
/// changes nothing.
pub proof fn law_canonical_class(ip: IpAddress)
    ensures
        ip_class(canonical(ip)) == ip_class(ip),
        canonical(canonical(ip)) == canonical(ip),
{
}

/// Every IPv4 address falls in the class of the block it lies in, as address ranges:
/// `0.0.0.0/8` and `224.0.0.0` to `255.255.255.255` reserved, `127.0.0.0/8` loopback,
/// `169.254.0.0/16` link-local, `10.0.0.0/8`, `172.16.0.0/12`, `192.168.0.0/16` and
/// `100.64.0.0/10` private, every other address public.
pub proof fn law_ipv4_classes_by_range(a: u32)
    ensures
        ip_class(IpAddress::V4(a)) == IpClass::Reserved <==> (a < 0x0100_0000 || a >= 0xE000_0000),
        ip_class(IpAddress::V4(a)) == IpClass::Loopback <==> (0x7F00_0000 <= a < 0x8000_0000),
        ip_class(IpAddress::V4(a)) == IpClass::LinkLocal <==> (0xA9FE_0000 <= a < 0xA9FF_0000),
        ip_class(IpAddress::V4(a)) == IpClass::Private <==> (0x0A00_0000 <= a < 0x0B00_0000
            || 0xAC10_0000 <= a < 0xAC20_0000 || 0xC0A8_0000 <= a < 0xC0A9_0000 || 0x6440_0000
            <= a < 0x6480_0000),
        ip_class(IpAddress::V4(a)) == IpClass::Public <==> !(a < 0x0100_0000 || a >= 0xE000_0000
            || 0x7F00_0000 <= a < 0x8000_0000 || 0xA9FE_0000 <= a < 0xA9FF_0000 || 0x0A00_0000
            <= a < 0x0B00_0000 || 0xAC10_0000 <= a < 0xAC20_0000 || 0xC0A8_0000 <= a < 0xC0A9_0000
            || 0x6440_0000 <= a < 0x6480_0000),
{
    assert(((a >> 24u32 == 0 || a >> 24u32 >= 224) <==> (a < 0x0100_0000 || a >= 0xE000_0000))
        && ((a >> 24u32 == 127) <==> (0x7F00_0000 <= a && a < 0x8000_0000))
        && ((a >> 24u32 == 169 && (a >> 16u32) & 0xFFu32 == 254) <==> (0xA9FE_0000 <= a && a
        < 0xA9FF_0000))
        && ((a >> 24u32 == 10) <==> (0x0A00_0000 <= a && a < 0x0B00_0000))
        && ((a >> 24u32 == 172 && ((a >> 16u32) & 0xFFu32) & 0xF0u32 == 16) <==> (0xAC10_0000 <= a
        && a < 0xAC20_0000))
        && ((a >> 24u32 == 192 && (a >> 16u32) & 0xFFu32 == 168) <==> (0xC0A8_0000 <= a && a
        < 0xC0A9_0000))
        && ((a >> 24u32 == 100 && ((a >> 16u32) & 0xFFu32) & 0xC0u32 == 64) <==> (0x6440_0000 <= a
        && a < 0x6480_0000))) by (bit_vector);
}

/// Every IPv6 address falls in the class of the block it lies in, as address ranges: `::1`
/// loopback; `::` and the rest of `::/96` reserved; `::ffff:0:0/96` judged as the IPv4
/// address it maps; `64:ff9b::/96` (NAT64) and `2002::/16` (6to4) judged as the IPv4 host
/// they reach; `ff00::/8` reserved; `fc00::/7` and `fec0::/10` private; `fe80::/10`
/// link-local; every other address public.
pub proof fn law_ipv6_classes_by_range(a: u128)
    ensures
        a == 1 ==> ip_class(IpAddress::V6(a)) == IpClass::Loopback,
        a < 0x1_0000_0000 && a != 1 ==> ip_class(IpAddress::V6(a)) == IpClass::Reserved,
        0xFFFF_0000_0000 <= a < 0x1_0000_0000_0000 ==> ip_class(IpAddress::V6(a)) == ip_class(
            IpAddress::V4((a - 0xFFFF_0000_0000) as u32),
        ),
        0x0064_FF9B_0000_0000_0000_0000_0000_0000 <= a < 0x0064_FF9B_0000_0000_0000_0001_0000_0000
            ==> ip_class(IpAddress::V6(a)) == ip_class(
            IpAddress::V4((a - 0x0064_FF9B_0000_0000_0000_0000_0000_0000) as u32),
        ),
        0x2002_0000_0000_0000_0000_0000_0000_0000 <= a < 0x2003_0000_0000_0000_0000_0000_0000_0000
            ==> ip_class(IpAddress::V6(a)) == ip_class(
            IpAddress::V4(((a - 0x2002_0000_0000_0000_0000_0000_0000_0000) / 0x1_0000_0000_0000_0000_0000) as u32),
        ),
        a >= 0xFF00_0000_0000_0000_0000_0000_0000_0000 ==> ip_class(IpAddress::V6(a))
            == IpClass::Reserved,
        (0xFC00_0000_0000_0000_0000_0000_0000_0000 <= a < 0xFE00_0000_0000_0000_0000_0000_0000_0000
            || 0xFEC0_0000_0000_0000_0000_0000_0000_0000 <= a
            < 0xFF00_0000_0000_0000_0000_0000_0000_0000) ==> ip_class(IpAddress::V6(a))
            == IpClass::Private,
        0xFE80_0000_0000_0000_0000_0000_0000_0000 <= a < 0xFEC0_0000_0000_0000_0000_0000_0000_0000
            ==> ip_class(IpAddress::V6(a)) == IpClass::LinkLocal,
        a >= 0x1_0000_0000 && !(0xFFFF_0000_0000 <= a < 0x1_0000_0000_0000) && !(
        0x0064_FF9B_0000_0000_0000_0000_0000_0000 <= a
            < 0x0064_FF9B_0000_0000_0000_0001_0000_0000) && !(
        0x2002_0000_0000_0000_0000_0000_0000_0000 <= a
            < 0x2003_0000_0000_0000_0000_0000_0000_0000) && a
            < 0xFC00_0000_0000_0000_0000_0000_0000_0000 ==> ip_class(IpAddress::V6(a))
            == IpClass::Public,
{
    assert(((a >> 32u128 == 0) <==> a < 0x1_0000_0000)
        && ((a >> 32u128 == 0xFFFFu128) <==> (0xFFFF_0000_0000 <= a && a < 0x1_0000_0000_0000))
        && ((0xFFFF_0000_0000 <= a && a < 0x1_0000_0000_0000) ==> (a & 0xFFFF_FFFFu128) == a
        - 0xFFFF_0000_0000)) by (bit_vector);
    assert(((a >> 32u128 == 0x0064_FF9B_0000_0000_0000_0000u128) <==> (
    0x0064_FF9B_0000_0000_0000_0000_0000_0000 <= a && a
        < 0x0064_FF9B_0000_0000_0000_0001_0000_0000))
        && ((0x0064_FF9B_0000_0000_0000_0000_0000_0000 <= a && a
        < 0x0064_FF9B_0000_0000_0000_0001_0000_0000) ==> (a & 0xFFFF_FFFFu128) == a
        - 0x0064_FF9B_0000_0000_0000_0000_0000_0000)
        && ((a >> 112u128 == 0x2002u128) <==> (0x2002_0000_0000_0000_0000_0000_0000_0000 <= a && a
        < 0x2003_0000_0000_0000_0000_0000_0000_0000))
        && ((0x2002_0000_0000_0000_0000_0000_0000_0000 <= a && a
        < 0x2003_0000_0000_0000_0000_0000_0000_0000) ==> ((a >> 80u128) & 0xFFFF_FFFFu128) == (a
        - 0x2002_0000_0000_0000_0000_0000_0000_0000) / 0x1_0000_0000_0000_0000_0000)) by (bit_vector);
    assert(((a >> 120u128 == 0xFFu128) <==> a >= 0xFF00_0000_0000_0000_0000_0000_0000_0000)
        && ((((a >> 112u128) & 0xFE00u128) == 0xFC00u128 || ((a >> 112u128) & 0xFFC0u128)
        == 0xFEC0u128) <==> (0xFC00_0000_0000_0000_0000_0000_0000_0000 <= a && a
        < 0xFE00_0000_0000_0000_0000_0000_0000_0000 || 0xFEC0_0000_0000_0000_0000_0000_0000_0000
        <= a && a < 0xFF00_0000_0000_0000_0000_0000_0000_0000))
        && ((((a >> 112u128) & 0xFFC0u128) == 0xFE80u128) <==> (
    0xFE80_0000_0000_0000_0000_0000_0000_0000 <= a && a
        < 0xFEC0_0000_0000_0000_0000_0000_0000_0000))) by (bit_vector);
}

} // verus!
