use my_socks_server::net::SocketAddress;
use my_socks_server::socks::{
    ATYP_DOMAIN, ATYP_IPV4, ATYP_IPV6, Command, Greeting, METHOD_NO_AUTH, METHOD_USER_PASS,
    MethodSelection, ProtocolError, Request, TargetAddr,
};

fn sock(text: &str) -> SocketAddress {
    SocketAddress::parse(text).unwrap()
}

fn parse(address_type: u8, bytes: &[u8]) -> Result<TargetAddr, ProtocolError> {
    TargetAddr::decode(bytes, address_type).map(|(target, _)| target)
}

#[test]
fn parses_greeting() {
    let input: &[u8] = &[0x05, 0x02, METHOD_NO_AUTH, METHOD_USER_PASS];
    let (greeting, used) = Greeting::decode(input).unwrap();
    assert_eq!(greeting.methods, vec![METHOD_NO_AUTH, METHOD_USER_PASS]);
    assert!(greeting.offers(METHOD_USER_PASS));
    assert_eq!(used, input.len(), "must not read past the greeting");
}

#[test]
fn greeting_round_trip() {
    let greeting = Greeting {
        methods: vec![METHOD_USER_PASS],
    };
    let bytes = greeting.encode().unwrap();
    assert_eq!(bytes, vec![0x05, 0x01, 0x02]);
    assert_eq!(Greeting::decode(&bytes).unwrap().0, greeting);
}

#[test]
fn rejects_socks4_and_http() {
    for input in [&[0x04_u8, 0x01, 0x00][..], b"GET / HTTP/1.1\r\n"] {
        assert!(matches!(
            Greeting::decode(input),
            Err(ProtocolError::UnsupportedVersion(_))
        ));
    }
}

#[test]
fn rejects_empty_method_list() {
    assert!(matches!(
        Greeting::decode(&[0x05, 0x00]),
        Err(ProtocolError::NoMethods)
    ));
}

#[test]
fn truncated_greeting_is_io_error() {
    assert!(matches!(
        Greeting::decode(&[0x05, 0x03, 0x00]),
        Err(ProtocolError::Io(_))
    ));
}

#[test]
fn method_selection_round_trip() {
    let selection = MethodSelection {
        method: METHOD_USER_PASS,
    };
    let bytes = selection.encode();
    assert_eq!(bytes, [0x05, 0x02]);
    assert_eq!(MethodSelection::decode(&bytes).unwrap(), (selection, 2));
    assert_eq!(MethodSelection::no_acceptable().encode(), [0x05, 0xFF]);
}

#[test]
fn parses_ipv4() {
    let target = parse(ATYP_IPV4, &[192, 0, 2, 7, 0x01, 0xBB]).unwrap();
    assert_eq!(target, TargetAddr::Ip(sock("192.0.2.7:443")));
}

#[test]
fn parses_ipv6() {
    let mut bytes = vec![0x20, 0x01, 0x0d, 0xb8, 0, 0, 0, 0, 0, 0, 0, 0, 0, 0, 0, 1];
    bytes.extend_from_slice(&80_u16.to_be_bytes());
    let target = parse(ATYP_IPV6, &bytes).unwrap();
    assert_eq!(target, TargetAddr::Ip(sock("[2001:db8::1]:80")));
    assert_eq!(target.to_text(), "[2001:db8::1]:80");
}

#[test]
fn parses_domain() {
    let mut bytes = vec![11];
    bytes.extend_from_slice(b"example.com");
    bytes.extend_from_slice(&8080_u16.to_be_bytes());
    let target = parse(ATYP_DOMAIN, &bytes).unwrap();
    assert_eq!(
        target,
        TargetAddr::Domain {
            host: "example.com".into(),
            port: 8080
        }
    );
    assert_eq!(target.to_text(), "example.com:8080");
    assert_eq!(target.port(), 8080);
}

#[test]
fn rejects_bad_domains() {
    for name in [&b""[..], b"exa mple.com", b"evil\ncom", b"\xff\xfe", b"a/b"] {
        let mut bytes = vec![u8::try_from(name.len()).unwrap()];
        bytes.extend_from_slice(name);
        bytes.extend_from_slice(&80_u16.to_be_bytes());
        assert!(
            matches!(parse(ATYP_DOMAIN, &bytes), Err(ProtocolError::InvalidDomain)),
            "{name:?} must be rejected"
        );
    }
}

#[test]
fn rejects_unknown_address_type() {
    assert!(matches!(
        parse(0x02, &[0; 6]),
        Err(ProtocolError::UnsupportedAddressType(0x02))
    ));
}

#[test]
fn round_trips_every_address_type() {
    for target in [
        TargetAddr::Ip(sock("10.1.2.3:22")),
        TargetAddr::Ip(sock("[fd00::5]:5432")),
        TargetAddr::Domain {
            host: "db.internal".into(),
            port: 5432,
        },
    ] {
        let mut bytes = Vec::new();
        target.encode_into(&mut bytes).unwrap();
        let (address_type, rest) = bytes.split_first().unwrap();
        assert_eq!(parse(*address_type, rest).unwrap(), target);
    }
}

#[test]
fn domain_with_a_colon_is_bracketed() {
    let target = TargetAddr::Domain {
        host: "fe80::1".into(),
        port: 22,
    };
    assert_eq!(target.to_text(), "[fe80::1]:22");
    assert_eq!(target.clone(), target);
}

#[test]
fn parses_connect_to_ipv4() {
    let input: &[u8] = &[0x05, 0x01, 0x00, 0x01, 10, 0, 0, 1, 0x00, 0x50];
    let (request, used) = Request::decode(input).unwrap();
    assert_eq!(request.command, Command::Connect);
    assert_eq!(request.target, TargetAddr::Ip(sock("10.0.0.1:80")));
    assert_eq!(used, input.len());
}

#[test]
fn keeps_unsupported_commands_parseable() {
    for (byte, command) in [
        (0x02, Command::Bind),
        (0x03, Command::UdpAssociate),
        (0x7F, Command::Unknown(0x7F)),
    ] {
        let input: &[u8] = &[0x05, byte, 0x00, 0x01, 1, 2, 3, 4, 0x00, 0x50];
        assert_eq!(Request::decode(input).unwrap().0.command, command);
    }
}

#[test]
fn rejects_wrong_version() {
    let input: &[u8] = &[0x04, 0x01, 0x00, 0x01, 1, 2, 3, 4, 0x00, 0x50];
    assert!(matches!(
        Request::decode(input),
        Err(ProtocolError::UnsupportedVersion(0x04))
    ));
}

#[test]
fn round_trip_domain_request() {
    let request = Request {
        command: Command::Connect,
        target: TargetAddr::Domain {
            host: "ifconfig.me".into(),
            port: 443,
        },
    };
    let bytes = request.encode().unwrap();
    assert_eq!(Request::decode(&bytes).unwrap(), (request, bytes.len()));
}

#[test]
fn command_bytes_round_trip() {
    for byte in 0..=u8::MAX {
        assert_eq!(Command::from_byte(byte).as_byte(), byte);
    }
}

#[test]
fn overlong_domain_cannot_be_encoded() {
    let target = TargetAddr::Domain {
        host: "a".repeat(256),
        port: 80,
    };
    let mut bytes = Vec::new();
    assert!(matches!(
        target.encode_into(&mut bytes),
        Err(ProtocolError::FieldTooLong)
    ));
    assert_eq!(bytes, vec![ATYP_DOMAIN]);
}
