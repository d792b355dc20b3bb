//! The address texts of the library held against what `IpAddr`, `Ipv6Addr` and `SocketAddr`
//! read and print: each expected value below is the one std gives for that input.
use my_socks_server::net::{IpAddress, SocketAddress};

/// Inputs with the text std prints for them, or `None` where std's `from_str` refuses them.
const ADDRESSES: [(&str, Option<&str>); 66] = [
    ("0.0.0.0", Some("0.0.0.0")),
    ("127.0.0.1", Some("127.0.0.1")),
    ("255.255.255.255", Some("255.255.255.255")),
    ("10.0.0.5", Some("10.0.0.5")),
    ("192.0.2.7", Some("192.0.2.7")),
    ("100.64.0.1", Some("100.64.0.1")),
    ("224.0.0.1", Some("224.0.0.1")),
    ("::", Some("::")),
    ("::1", Some("::1")),
    ("::2", Some("::2")),
    ("1::", Some("1::")),
    ("1::1", Some("1::1")),
    ("fe80::1", Some("fe80::1")),
    ("fe80::1:2:3:4", Some("fe80::1:2:3:4")),
    ("2001:db8::1", Some("2001:db8::1")),
    ("2001:DB8::1", Some("2001:db8::1")),
    ("2001:0db8:0000:0000:0000:0000:0000:0001", Some("2001:db8::1")),
    ("1:2:3:4:5:6:7:8", Some("1:2:3:4:5:6:7:8")),
    (
        "ffff:ffff:ffff:ffff:ffff:ffff:ffff:ffff",
        Some("ffff:ffff:ffff:ffff:ffff:ffff:ffff:ffff"),
    ),
    ("1:0:2:3:4:5:6:7", Some("1:0:2:3:4:5:6:7")),
    ("1:2:3:4:5:6:7:0", Some("1:2:3:4:5:6:7:0")),
    ("0:1:2:3:4:5:6:7", Some("0:1:2:3:4:5:6:7")),
    ("::1:2:3:4:5:6:7", Some("0:1:2:3:4:5:6:7")),
    ("1:0:0:2:3:4:5:6", Some("1::2:3:4:5:6")),
    ("1:0:0:1:0:0:0:1", Some("1:0:0:1::1")),
    ("1:0:0:0:1:0:0:1", Some("1::1:0:0:1")),
    ("1:0:0:1:0:0:1:1", Some("1::1:0:0:1:1")),
    ("0:0:1:0:0:1:0:0", Some("::1:0:0:1:0:0")),
    ("0:0:0:0:0:0:0:1", Some("::1")),
    ("1:0:0:0:0:0:0:0", Some("1::")),
    ("0:0:0:0:0:0:1:0", Some("::1:0")),
    ("2001:db8:0:0:1:0:0:1", Some("2001:db8::1:0:0:1")),
    ("2001:db8:0:1:1:1:1:1", Some("2001:db8:0:1:1:1:1:1")),
    ("2001:0:0:1::1", Some("2001:0:0:1::1")),
    ("::ffff:10.0.0.1", Some("::ffff:10.0.0.1")),
    ("::ffff:0.0.0.0", Some("::ffff:0.0.0.0")),
    ("::ffff:255.255.255.255", Some("::ffff:255.255.255.255")),
    ("::ffff:a00:1", Some("::ffff:10.0.0.1")),
    ("::1.2.3.4", Some("::102:304")),
    ("::0.0.0.2", Some("::2")),
    ("64:ff9b::192.0.2.33", Some("64:ff9b::c000:221")),
    ("1:2:3:4:5:6:1.2.3.4", Some("1:2:3:4:5:6:102:304")),
    ("::ffff:0:1.2.3.4", Some("::ffff:0:102:304")),
    ("fd00::", Some("fd00::")),
    ("fd00::/8", None),
    ("", None),
    ("1.2.3", None),
    ("1.2.3.4.5", None),
    ("256.0.0.1", None),
    ("01.2.3.4", None),
    ("1.2.3.-4", None),
    (" 1.2.3.4", None),
    ("1.2.3.4 ", None),
    (":::", None),
    ("1::2::3", None),
    ("1:2:3:4:5:6:7:8:9", None),
    ("1:2:3:4:5:6:7", None),
    ("1::2:3:4:5:6:7:8", None),
    ("12345::1", None),
    ("g::1", None),
    ("::1.2.3", None),
    (":1::2", None),
    ("1::2:", None),
    ("[::1]", None),
    ("1.2.3.4:80", None),
    ("::ffff:1.2.3.256", None),
];

#[test]
fn address_text_agrees_with_std_on_many_addresses() {
    for (text, expected) in ADDRESSES {
        let printed = IpAddress::parse(text).map(|ip| ip.to_text());
        assert_eq!(printed.as_deref(), expected, "{text:?}");
        if let Some(shown) = expected {
            assert_eq!(IpAddress::parse(shown), IpAddress::parse(text), "{shown:?}");
        }
    }
}

/// The printing rule of `Ipv6Addr`'s `Display` (RFC 5952): IPv4-mapped addresses end in
/// dotted decimal; otherwise lower-case hex groups, with the first longest run of two or
/// more zero groups written `::`.
fn expected_ipv6_text(bits: u128) -> String {
    let groups: Vec<u16> = (0..8).map(|i| (bits >> (112 - 16 * i)) as u16).collect();
    if groups[..5].iter().all(|g| *g == 0) && groups[5] == 0xffff {
        return format!(
            "::ffff:{}.{}.{}.{}",
            groups[6] >> 8,
            groups[6] & 0xff,
            groups[7] >> 8,
            groups[7] & 0xff
        );
    }
    let (mut best_start, mut best_len) = (0, 0);
    let mut i = 0;
    while i < 8 {
        if groups[i] == 0 {
            let start = i;
            while i < 8 && groups[i] == 0 {
                i += 1;
            }
            if i - start > best_len {
                best_start = start;
                best_len = i - start;
            }
        } else {
            i += 1;
        }
    }
    let hex = |part: &[u16]| {
        part.iter()
            .map(|g| format!("{g:x}"))
            .collect::<Vec<_>>()
            .join(":")
    };
    if best_len > 1 {
        format!(
            "{}::{}",
            hex(&groups[..best_start]),
            hex(&groups[best_start + best_len..])
        )
    } else {
        hex(&groups)
    }
}

#[test]
fn ipv6_printing_follows_the_std_rule_on_generated_addresses() {
    let choices: [u128; 4] = [0, 1, 0xffff, 0x0db8];
    for pattern in 0u32..(1 << 16) {
        let mut bits: u128 = 0;
        for slot in 0..8 {
            let group = choices[((pattern >> (2 * slot)) & 3) as usize];
            bits = (bits << 16) | group;
        }
        let printed = IpAddress::V6(bits).to_text();
        assert_eq!(printed, expected_ipv6_text(bits), "{bits:#x}");
        assert_eq!(IpAddress::parse(&printed), Some(IpAddress::V6(bits)), "{printed}");
    }
    for bits in [0u32, 1, 0x7f00_0001, 0xc000_0207, 0xffff_ffff, 0x0a00_0005] {
        let printed = IpAddress::V4(bits).to_text();
        let expected = format!(
            "{}.{}.{}.{}",
            bits >> 24,
            (bits >> 16) & 0xff,
            (bits >> 8) & 0xff,
            bits & 0xff
        );
        assert_eq!(printed, expected);
        assert_eq!(IpAddress::parse(&printed), Some(IpAddress::V4(bits)));
    }
}

#[test]
fn socket_address_text_agrees_with_std() {
    for (text, expected) in [
        ("10.0.0.1:65535", Some("10.0.0.1:65535")),
        ("10.0.0.1:0", Some("10.0.0.1:0")),
        ("127.0.0.1:1080", Some("127.0.0.1:1080")),
        ("10.0.0.1:080", Some("10.0.0.1:80")),
        ("[::1]:1080", Some("[::1]:1080")),
        ("[2001:db8::1]:443", Some("[2001:db8::1]:443")),
        ("[::ffff:10.0.0.1]:80", Some("[::ffff:10.0.0.1]:80")),
        ("[1:0:0:1:0:0:0:1]:8080", Some("[1:0:0:1::1]:8080")),
        ("10.0.0.1:65536", None),
        ("10.0.0.1", None),
        ("::1:80", None),
        ("[::1]", None),
        ("[::1]:", None),
        ("10.0.0.1:+80", None),
        ("[10.0.0.1]:80", None),
        ("10.0.0.1:80 ", None),
    ] {
        let printed = SocketAddress::parse(text).map(|a| a.to_text());
        assert_eq!(printed.as_deref(), expected, "{text:?}");
    }
}
