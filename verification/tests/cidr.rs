use my_socks_server::net::IpAddress;
use my_socks_server::policy::Cidr;

fn cidr(value: &str) -> Cidr {
    Cidr::parse(value).unwrap()
}

fn ip(value: &str) -> IpAddress {
    IpAddress::parse(value).unwrap()
}

#[test]
fn parses_and_normalizes() {
    assert_eq!(cidr("10.1.2.3/8").to_text(), "10.0.0.0/8");
    assert_eq!(cidr("192.0.2.7").to_text(), "192.0.2.7/32");
    assert_eq!(cidr(" fd00::1/8 ").to_text(), "fd00::/8");
    assert_eq!(cidr("2001:db8::1").to_text(), "2001:db8::1/128");
    assert_eq!(cidr("0.0.0.0/0").to_text(), "0.0.0.0/0");
}

#[test]
fn maps_ipv4_mapped_networks_to_ipv4() {
    assert_eq!(cidr("::ffff:10.0.0.0/104").to_text(), "10.0.0.0/8");
    assert!(cidr("::ffff:127.0.0.1").contains(ip("127.0.0.1")));
}

#[test]
fn rejects_invalid_input() {
    for input in [
        "",
        "10.0.0.0/33",
        "fd00::/129",
        "10.0.0.0/",
        "10.0.0.0/-1",
        "10.0.0",
        "example.com",
        "10.0.0.0/8/8",
    ] {
        assert!(Cidr::parse(input).is_err(), "{input:?} must be rejected");
    }
}

#[test]
fn membership() {
    let private = cidr("172.16.0.0/12");
    assert!(private.contains(ip("172.16.0.1")));
    assert!(private.contains(ip("172.31.255.255")));
    assert!(!private.contains(ip("172.32.0.0")));
    assert!(
        !private.contains(ip("::ffff:172.16.0.1")),
        "callers canonicalize"
    );

    assert!(cidr("0.0.0.0/0").contains(ip("203.0.113.9")));
    assert!(!cidr("0.0.0.0/0").contains(ip("2001:db8::1")));
    assert!(cidr("::/0").contains(ip("2001:db8::1")));

    let host = cidr("10.0.0.5");
    assert!(host.contains(ip("10.0.0.5")));
    assert!(!host.contains(ip("10.0.0.6")));

    let v6 = cidr("fd00:10::/64");
    assert!(v6.contains(ip("fd00:10::abcd")));
    assert!(!v6.contains(ip("fd00:11::1")));
}

#[test]
fn cidr_errors_say_what_is_wrong() {
    assert_eq!(
        Cidr::parse("example.com").unwrap_err().message(),
        "'example.com': expected an IP address or CIDR"
    );
    assert_eq!(
        Cidr::parse("10.0.0.0/33").unwrap_err().message(),
        "'10.0.0.0/33': invalid prefix length"
    );
    let host = Cidr::new(ip("10.0.0.5"), 24).unwrap();
    assert_eq!(host.network(), ip("10.0.0.0"));
    assert_eq!(host.prefix_len(), 24);
    assert!(Cidr::new(ip("10.0.0.5"), 33).is_none());
}
