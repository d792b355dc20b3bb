use my_socks_server::net::IpAddress;
use my_socks_server::policy::{IpClass, canonical_ip, classify_ip};

fn class(value: &str) -> IpClass {
    classify_ip(IpAddress::parse(value).unwrap())
}

#[test]
fn ipv4_ranges() {
    for (addr, expected) in [
        ("8.8.8.8", IpClass::Public),
        ("1.1.1.1", IpClass::Public),
        ("100.63.255.255", IpClass::Public),
        ("100.128.0.0", IpClass::Public),
        ("172.15.255.255", IpClass::Public),
        ("172.32.0.0", IpClass::Public),
        ("223.255.255.255", IpClass::Public),
        ("10.0.0.1", IpClass::Private),
        ("172.16.0.1", IpClass::Private),
        ("172.31.255.254", IpClass::Private),
        ("192.168.1.1", IpClass::Private),
        ("100.64.0.1", IpClass::Private),
        ("100.127.255.255", IpClass::Private),
        ("169.254.169.254", IpClass::LinkLocal),
        ("127.0.0.1", IpClass::Loopback),
        ("127.255.255.254", IpClass::Loopback),
        ("0.0.0.0", IpClass::Reserved),
        ("0.1.2.3", IpClass::Reserved),
        ("224.0.0.1", IpClass::Reserved),
        ("239.255.255.250", IpClass::Reserved),
        ("240.0.0.1", IpClass::Reserved),
        ("255.255.255.255", IpClass::Reserved),
    ] {
        assert_eq!(class(addr), expected, "{addr}");
    }
}

#[test]
fn ipv6_ranges() {
    for (addr, expected) in [
        ("2001:4860:4860::8888", IpClass::Public),
        ("2606:4700::1111", IpClass::Public),
        ("::1", IpClass::Loopback),
        ("::", IpClass::Reserved),
        ("fc00::1", IpClass::Private),
        ("fd12:3456::1", IpClass::Private),
        ("fec0::1", IpClass::Private),
        ("fe80::1", IpClass::LinkLocal),
        ("febf::1", IpClass::LinkLocal),
        ("ff02::1", IpClass::Reserved),
        ("ff05::2", IpClass::Reserved),
    ] {
        assert_eq!(class(addr), expected, "{addr}");
    }
}

#[test]
fn ipv4_mapped_addresses_are_judged_as_ipv4() {
    assert_eq!(class("::ffff:127.0.0.1"), IpClass::Loopback);
    assert_eq!(class("::ffff:10.0.0.1"), IpClass::Private);
    assert_eq!(class("::ffff:169.254.169.254"), IpClass::LinkLocal);
    assert_eq!(class("::ffff:0.0.0.0"), IpClass::Reserved);
    assert_eq!(class("::ffff:8.8.8.8"), IpClass::Public);
    assert_eq!(
        canonical_ip(IpAddress::parse("::ffff:127.0.0.1").unwrap()),
        IpAddress::parse("127.0.0.1").unwrap()
    );
}

#[test]
fn ipv4_compatible_addresses_are_reserved() {
    assert_eq!(class("::127.0.0.1"), IpClass::Reserved);
    assert_eq!(class("::8.8.8.8"), IpClass::Reserved);
}

#[test]
fn nat64_and_6to4_follow_the_embedded_ipv4() {
    assert_eq!(class("64:ff9b::7f00:1"), IpClass::Loopback);
    assert_eq!(class("64:ff9b::a00:1"), IpClass::Private);
    assert_eq!(class("64:ff9b::808:808"), IpClass::Public);
    assert_eq!(class("2002:7f00:1::"), IpClass::Loopback);
    assert_eq!(class("2002:a9fe:a9fe::1"), IpClass::LinkLocal);
    assert_eq!(class("2002:808:808::1"), IpClass::Public);
}

#[test]
fn class_names() {
    assert_eq!(IpClass::LinkLocal.as_str(), "link-local");
    assert_eq!(IpClass::Public.as_str(), "public");
}
