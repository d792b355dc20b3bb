use my_socks_server::net::SocketAddress;
use my_socks_server::policy::{DenyReason, DestinationPolicy, InternalWhitelistEntry, IpClass};

fn policy(allow_internal: bool, whitelist: &[&str]) -> DestinationPolicy {
    DestinationPolicy::new(
        vec![25],
        allow_internal,
        whitelist
            .iter()
            .map(|entry| InternalWhitelistEntry::parse(entry).unwrap())
            .collect(),
    )
}

fn check(policy: &DestinationPolicy, addr: &str) -> Result<(), DenyReason> {
    policy.check(SocketAddress::parse(addr).unwrap())
}

#[test]
fn public_destinations_are_allowed() {
    let policy = policy(false, &[]);
    assert_eq!(check(&policy, "93.184.216.34:443"), Ok(()));
    assert_eq!(check(&policy, "[2606:4700::1111]:443"), Ok(()));
}

#[test]
fn blocked_ports_apply_everywhere() {
    let policy = policy(true, &["127.0.0.1"]);
    assert_eq!(
        check(&policy, "93.184.216.34:25"),
        Err(DenyReason::BlockedPort(25))
    );
    assert_eq!(check(&policy, "10.0.0.1:25"), Err(DenyReason::BlockedPort(25)));
    assert_eq!(check(&policy, "127.0.0.1:25"), Err(DenyReason::BlockedPort(25)));
    assert_eq!(
        check(&policy, "93.184.216.34:0"),
        Err(DenyReason::BlockedPort(0))
    );
}

#[test]
fn internal_destinations_are_denied_by_default() {
    let policy = policy(false, &[]);
    for (addr, class) in [
        ("10.1.2.3:80", IpClass::Private),
        ("192.168.0.1:80", IpClass::Private),
        ("100.64.0.1:80", IpClass::Private),
        ("[fd00::1]:80", IpClass::Private),
        ("127.0.0.1:80", IpClass::Loopback),
        ("[::1]:80", IpClass::Loopback),
        ("[::ffff:127.0.0.1]:80", IpClass::Loopback),
        ("169.254.169.254:80", IpClass::LinkLocal),
        ("[fe80::1]:80", IpClass::LinkLocal),
    ] {
        assert_eq!(
            check(&policy, addr),
            Err(DenyReason::InternalAddress(class)),
            "{addr}"
        );
    }
}

#[test]
fn allow_internal_opens_private_networks_only() {
    let policy = policy(true, &[]);
    assert_eq!(check(&policy, "10.1.2.3:5432"), Ok(()));
    assert_eq!(check(&policy, "172.20.0.1:80"), Ok(()));
    assert_eq!(check(&policy, "[fd00::1]:80"), Ok(()));
    assert_eq!(check(&policy, "[::ffff:192.168.1.1]:80"), Ok(()));
    assert_eq!(
        check(&policy, "127.0.0.1:80"),
        Err(DenyReason::InternalAddress(IpClass::Loopback))
    );
    assert_eq!(
        check(&policy, "169.254.169.254:80"),
        Err(DenyReason::InternalAddress(IpClass::LinkLocal))
    );
}

#[test]
fn whitelist_opens_exactly_the_listed_destinations() {
    let policy = policy(
        false,
        &[
            "10.20.0.5:5432",
            "10.30.0.0/24",
            "127.0.0.1:8080",
            "[fd00:1::/64]:443",
        ],
    );
    assert_eq!(check(&policy, "10.20.0.5:5432"), Ok(()));
    assert_eq!(
        check(&policy, "10.20.0.5:22"),
        Err(DenyReason::InternalAddress(IpClass::Private))
    );
    assert_eq!(check(&policy, "10.30.0.77:22"), Ok(()));
    assert_eq!(
        check(&policy, "10.31.0.1:22"),
        Err(DenyReason::InternalAddress(IpClass::Private))
    );
    assert_eq!(check(&policy, "127.0.0.1:8080"), Ok(()));
    assert_eq!(check(&policy, "[::ffff:127.0.0.1]:8080"), Ok(()));
    assert_eq!(
        check(&policy, "127.0.0.1:22"),
        Err(DenyReason::InternalAddress(IpClass::Loopback))
    );
    assert_eq!(check(&policy, "[fd00:1::9]:443"), Ok(()));
    assert_eq!(
        check(&policy, "[fd00:1::9]:80"),
        Err(DenyReason::InternalAddress(IpClass::Private))
    );
}

#[test]
fn reserved_addresses_cannot_be_whitelisted() {
    let policy = policy(true, &["0.0.0.0/0", "::/0"]);
    for addr in [
        "0.0.0.0:80",
        "224.0.0.1:80",
        "255.255.255.255:80",
        "[::]:80",
        "[::127.0.0.1]:80",
        "[ff02::1]:80",
    ] {
        assert_eq!(
            check(&policy, addr),
            Err(DenyReason::ReservedAddress),
            "{addr}"
        );
    }
    assert_eq!(
        check(&policy, "127.0.0.1:80"),
        Ok(()),
        "0.0.0.0/0 covers loopback"
    );
}

#[test]
fn refusals_are_explained() {
    assert_eq!(DenyReason::BlockedPort(25).describe(), "port 25 is blocked");
    assert_eq!(DenyReason::ReservedAddress.describe(), "reserved address");
    assert_eq!(
        DenyReason::InternalAddress(IpClass::Private).describe(),
        "private address (allow_internal or internal_whitelist opens it)"
    );
    assert_eq!(
        DenyReason::InternalAddress(IpClass::Loopback).describe(),
        "loopback address (only an internal_whitelist entry opens it)"
    );
}
