use my_socks_server::net::IpAddress;
use my_socks_server::policy::{Cidr, ClientAcl};

fn ip(value: &str) -> IpAddress {
    IpAddress::parse(value).unwrap()
}

#[test]
fn empty_whitelist_allows_everyone() {
    let acl = ClientAcl::default();
    assert!(acl.is_open());
    assert!(acl.is_allowed(ip("203.0.113.1")));
}

#[test]
fn whitelist_restricts_clients() {
    let acl = ClientAcl::new(vec![
        Cidr::parse("203.0.113.0/24").unwrap(),
        Cidr::parse("2001:db8::/32").unwrap(),
    ]);
    assert!(acl.is_allowed(ip("203.0.113.77")));
    assert!(
        acl.is_allowed(ip("::ffff:203.0.113.77")),
        "dual-stack listener"
    );
    assert!(acl.is_allowed(ip("2001:db8:1::5")));
    assert!(!acl.is_allowed(ip("198.51.100.1")));
    assert!(!acl.is_allowed(ip("2001:db9::1")));
    assert!(!acl.is_open());
    assert_eq!(acl.networks().len(), 2);
}
