use my_socks_server::net::{IpAddress, SocketAddress};
use my_socks_server::socks::{ProtocolError, Reply, ReplyCode};

#[test]
fn encodes_unspecified_bind_address() {
    assert_eq!(
        Reply::new(ReplyCode::NotAllowed).encode(),
        vec![0x05, 0x02, 0x00, 0x01, 0, 0, 0, 0, 0, 0]
    );
}

#[test]
fn round_trips_ipv6_bind_address() {
    let reply = Reply {
        code: ReplyCode::Succeeded,
        bind_addr: SocketAddress::parse("[2001:db8::2]:1080").unwrap(),
    };
    let bytes = reply.encode();
    assert_eq!(Reply::decode(&bytes).unwrap(), (reply, bytes.len()));
}

#[test]
fn reply_codes_round_trip() {
    for byte in 0..=u8::MAX {
        assert_eq!(ReplyCode::from_byte(byte).as_byte(), byte);
    }
    assert_eq!(ReplyCode::from_byte(0x05), ReplyCode::ConnectionRefused);
}

#[test]
fn reply_code_texts() {
    assert_eq!(ReplyCode::Succeeded.to_text(), "succeeded");
    assert_eq!(
        ReplyCode::NotAllowed.to_text(),
        "connection not allowed by ruleset"
    );
    assert_eq!(ReplyCode::TtlExpired.to_text(), "TTL expired");
    assert_eq!(
        ReplyCode::Unassigned(0x0a).to_text(),
        "unassigned reply code 0x0a"
    );
}

#[test]
fn a_bound_domain_reads_as_the_unspecified_address() {
    let bytes = [0x05, 0x00, 0x00, 0x03, 0x01, b'a', 0x01, 0xBB, 0xFF];
    let (reply, used) = Reply::decode(&bytes).unwrap();
    assert_eq!(used, 8);
    assert_eq!(reply.code, ReplyCode::Succeeded);
    assert_eq!(
        reply.bind_addr,
        SocketAddress::new(IpAddress::v4(0, 0, 0, 0), 443)
    );
    assert!(matches!(
        Reply::decode(&[0x04, 0x00, 0x00, 0x01]),
        Err(ProtocolError::UnsupportedVersion(0x04))
    ));
    assert!(matches!(Reply::decode(&[0x05, 0x00]), Err(ProtocolError::Io(_))));
}
