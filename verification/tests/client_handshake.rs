use my_socks_server::net::SocketAddress;
use my_socks_server::socks::{
    ClientError, MethodSelection, ProtocolError, Reply, ReplyCode, TargetAddr, UserPassResponse,
    check_auth_response, check_method_selection, check_reply, client_connect_request,
    client_credentials, client_greeting,
};

#[test]
fn client_offers_username_password_only() {
    assert_eq!(client_greeting().unwrap(), vec![0x05, 0x01, 0x02]);
}

#[test]
fn client_needs_username_password_to_be_chosen() {
    assert!(check_method_selection(MethodSelection { method: 0x02 }).is_ok());
    let refused = check_method_selection(MethodSelection::no_acceptable());
    assert!(matches!(refused, Err(ClientError::MethodRejected(0xFF))));
    assert_eq!(
        refused.unwrap_err().message(),
        "proxy does not accept username/password authentication (answered 0xff)"
    );
}

#[test]
fn client_credentials_are_length_prefixed() {
    assert_eq!(
        client_credentials("bob", "pw").unwrap(),
        vec![0x01, 0x03, b'b', b'o', b'b', 0x02, b'p', b'w']
    );
    assert!(matches!(
        client_credentials(&"x".repeat(256), "pw"),
        Err(ClientError::Protocol(ProtocolError::FieldTooLong))
    ));
}

#[test]
fn client_reads_the_auth_answer() {
    assert!(check_auth_response(UserPassResponse::success()).is_ok());
    let refused = check_auth_response(UserPassResponse::failure());
    assert!(matches!(refused, Err(ClientError::AuthRejected)));
    assert_eq!(refused.unwrap_err().message(), "proxy rejected the credentials");
}

#[test]
fn client_sends_connect_and_reads_the_reply() {
    let target = TargetAddr::Ip(SocketAddress::parse("10.0.0.1:80").unwrap());
    assert_eq!(
        client_connect_request(&target).unwrap(),
        vec![0x05, 0x01, 0x00, 0x01, 10, 0, 0, 1, 0x00, 0x50]
    );
    let ok = Reply::new(ReplyCode::Succeeded);
    assert_eq!(check_reply(ok).unwrap(), ok);
    let refused = check_reply(Reply::new(ReplyCode::NotAllowed));
    assert!(matches!(
        refused,
        Err(ClientError::RequestRejected(ReplyCode::NotAllowed))
    ));
    assert_eq!(
        refused.unwrap_err().message(),
        "proxy refused the request: connection not allowed by ruleset"
    );
}
