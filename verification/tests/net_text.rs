use my_socks_server::net::{IpAddress, SocketAddress};
use my_socks_server::relay::{idle_time_at, saturating_millis, time_left_after};

#[test]
fn addresses_read_and_print_as_std_does() {
    for text in [
        "0.0.0.0",
        "192.0.2.7",
        "::",
        "::1",
        "2001:db8::1",
        "fe80::1:2:3:4",
        "1:2:3:4:5:6:7:8",
        "::ffff:10.0.0.1",
    ] {
        assert_eq!(IpAddress::parse(text).unwrap().to_text(), text);
    }
    assert_eq!(
        IpAddress::parse("2001:0db8:0000:0000:0000:0000:0000:0001")
            .unwrap()
            .to_text(),
        "2001:db8::1"
    );
    for text in ["", "1.2.3", "1.2.3.4.5", "256.0.0.1", "01.2.3.4", ":::", "1::2::3"] {
        assert!(IpAddress::parse(text).is_none(), "{text:?}");
    }
}

#[test]
fn socket_addresses_read_and_print_as_std_does() {
    assert_eq!(
        SocketAddress::parse("[::1]:1080").unwrap().to_text(),
        "[::1]:1080"
    );
    assert_eq!(
        SocketAddress::parse("10.0.0.1:65535").unwrap().to_text(),
        "10.0.0.1:65535"
    );
    assert!(SocketAddress::parse("10.0.0.1:65536").is_none());
    assert!(SocketAddress::parse("10.0.0.1").is_none());
    assert!(SocketAddress::parse("::1:80").is_none());
}

#[test]
fn idle_arithmetic_saturates() {
    assert_eq!(idle_time_at(10, 4), 6);
    assert_eq!(idle_time_at(4, 10), 0);
    assert_eq!(time_left_after(10_000, 4_000), 6_000);
    assert_eq!(time_left_after(10_000, 11_000), 0);
    assert_eq!(saturating_millis(u128::from(u64::MAX) + 1), u64::MAX);
    assert_eq!(saturating_millis(42), 42);
}
