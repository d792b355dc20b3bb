use my_socks_server::net::SocketAddress;
use my_socks_server::policy::InternalWhitelistEntry;

fn entry(value: &str) -> InternalWhitelistEntry {
    InternalWhitelistEntry::parse(value).unwrap()
}

fn addr(value: &str) -> SocketAddress {
    SocketAddress::parse(value).unwrap()
}

#[test]
fn parses_all_forms() {
    for (input, rendered) in [
        ("10.0.0.5", "10.0.0.5/32"),
        ("10.0.0.0/24", "10.0.0.0/24"),
        ("10.0.0.5:5432", "10.0.0.5/32:5432"),
        ("10.0.0.0/24:8000-8100", "10.0.0.0/24:8000-8100"),
        ("fd00::1", "fd00::1/128"),
        ("fd00::/64", "fd00::/64"),
        ("[fd00::1]", "fd00::1/128"),
        ("[fd00::1]:443", "[fd00::1/128]:443"),
        ("[fd00::/64]:8000-8100", "[fd00::/64]:8000-8100"),
    ] {
        assert_eq!(entry(input).to_text(), rendered, "{input}");
    }
}

#[test]
fn rejects_malformed_entries() {
    for input in [
        "",
        "10.0.0.5:",
        "10.0.0.5:0",
        "10.0.0.5:70000",
        "10.0.0.5:22-21",
        "[fd00::1",
        "[fd00::1]443",
        "[fd00::1]:",
        "db.internal:5432",
        "10.0.0.0/40",
    ] {
        assert!(
            InternalWhitelistEntry::parse(input).is_err(),
            "{input:?} must be rejected"
        );
    }
}

#[test]
fn matches_network_and_ports() {
    let postgres = entry("10.0.0.5:5432");
    assert!(postgres.matches(addr("10.0.0.5:5432")));
    assert!(!postgres.matches(addr("10.0.0.5:22")));
    assert!(!postgres.matches(addr("10.0.0.6:5432")));
    assert!(postgres.matches(addr("[::ffff:10.0.0.5]:5432")));

    let subnet = entry("10.0.0.0/24");
    assert!(subnet.matches(addr("10.0.0.200:22")));
    assert!(!subnet.matches(addr("10.0.1.1:22")));

    let web = entry("[fd00::/64]:8000-8100");
    assert!(web.matches(addr("[fd00::7]:8080")));
    assert!(!web.matches(addr("[fd00::7]:22")));
}

#[test]
fn entry_errors_name_the_part_that_is_wrong() {
    assert_eq!(
        InternalWhitelistEntry::parse("[fd00::1]443").unwrap_err().reason,
        "expected IP or CIDR with an optional :port or :port-range ([ipv6]:port for IPv6)"
    );
    assert_eq!(
        InternalWhitelistEntry::parse("db.internal:5432").unwrap_err().reason,
        "expected an IP address or CIDR"
    );
    assert_eq!(
        InternalWhitelistEntry::parse("10.0.0.5:0").unwrap_err().reason,
        "expected a port 1-65535 or a range like 8000-8100"
    );
}

#[test]
fn entries_read_back_from_their_own_text() {
    for input in [
        "10.0.0.5",
        "10.0.0.0/24",
        "10.1.2.3/8",
        "10.0.0.5:5432",
        " 10.0.0.0/24:8000-8100 ",
        "0.0.0.0/0:1-65535",
        "fd00::1",
        "[fd00::/64]:8000-8100",
        "[::ffff:10.0.0.0/104]:443",
        "::ffff:10.0.0.0/104",
    ] {
        let parsed = entry(input);
        let text = parsed.to_text();
        assert_eq!(entry(&text), parsed, "{input:?} -> {text:?}");
    }
}
