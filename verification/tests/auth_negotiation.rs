use my_socks_server::socks::{ProtocolError, UserPassRequest, UserPassResponse};

fn request(username: &str, password: &str) -> UserPassRequest {
    UserPassRequest {
        username: username.as_bytes().to_vec(),
        password: password.as_bytes().to_vec(),
    }
}

#[test]
fn parses_request() {
    let input: &[u8] = &[0x01, 0x03, b'b', b'o', b'b', 0x02, b'p', b'w'];
    let (parsed, used) = UserPassRequest::decode(input).unwrap();
    assert!(parsed == request("bob", "pw"));
    assert_eq!(used, input.len());
}

#[test]
fn request_round_trip() {
    let original = request("alice", "s3cr3t:with:colons");
    let bytes = original.encode().unwrap();
    let (parsed, used) = UserPassRequest::decode(&bytes).unwrap();
    assert!(parsed == original);
    assert_eq!(used, bytes.len());
}

#[test]
fn rejects_wrong_sub_negotiation_version() {
    let input: &[u8] = &[0x05, 0x01, b'a', 0x01, b'b'];
    assert!(matches!(
        UserPassRequest::decode(input),
        Err(ProtocolError::UnsupportedAuthVersion(0x05))
    ));
}

#[test]
fn truncated_password_is_io_error() {
    let input: &[u8] = &[0x01, 0x01, b'a', 0x05, b'x'];
    assert!(matches!(
        UserPassRequest::decode(input),
        Err(ProtocolError::Io(_))
    ));
}

#[test]
fn encode_rejects_overlong_fields() {
    let overlong = "x".repeat(256);
    assert!(matches!(
        request(&overlong, "pw").encode(),
        Err(ProtocolError::FieldTooLong)
    ));
    assert!(matches!(
        request("user", &overlong).encode(),
        Err(ProtocolError::FieldTooLong)
    ));
}

#[test]
fn debug_output_redacts_password() {
    let rendered = request("alice", "hunter2").debug_text();
    assert!(rendered.contains("alice"));
    assert!(!rendered.contains("hunter2"));
}

#[test]
fn response_round_trip() {
    assert_eq!(UserPassResponse::success().encode(), [0x01, 0x00]);
    assert_eq!(UserPassResponse::failure().encode(), [0x01, 0x01]);
    let bytes = UserPassResponse::failure().encode();
    let (parsed, used) = UserPassResponse::decode(&bytes).unwrap();
    assert!(!parsed.is_success());
    assert_eq!(used, 2);
}

#[test]
fn protocol_error_messages() {
    assert_eq!(
        ProtocolError::UnsupportedVersion(4).message(),
        "unsupported SOCKS version 0x04"
    );
    assert_eq!(
        ProtocolError::UnsupportedAuthVersion(0x05).message(),
        "unsupported username/password sub-negotiation version 0x05"
    );
    assert_eq!(
        ProtocolError::UnsupportedAddressType(0xab).message(),
        "unsupported address type 0xab"
    );
    assert_eq!(ProtocolError::FieldTooLong.message(), "field is longer than 255 bytes");
    let truncated = UserPassRequest::decode(&[0x01]).err().unwrap();
    assert!(truncated.is_io());
    assert!(truncated.message().starts_with("i/o error: "));
}
