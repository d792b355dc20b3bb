use my_socks_server::auth::{UserCredentials, UserStore};
use my_socks_server::net::{IpAddress, SocketAddress};
use my_socks_server::policy::{
    BanConfig, BanListInner, Cidr, ClientAcl, DenyReason, DestinationPolicy, FailureVerdict, IpClass,
};
use my_socks_server::relay::{
    Direction, PumpError, RelayEnd, RelayProgress, RelayStep, add_delivered, relay_end_of,
    relay_step,
};
use my_socks_server::server::{
    CloseReason, ConnectError, ConnectFailure, attempts_failed, check_credentials, connect_attempts,
    Screening, TimedStage, logged_failures, on_connect_error, on_timeout, reply_for_failure, request_outcome, screen_peer, select_allowed,
    select_method,
};
use my_socks_server::socks::{
    Command, Greeting, METHOD_NO_ACCEPTABLE, METHOD_NO_AUTH, METHOD_USER_PASS, ProtocolError,
    ReplyCode, Request, TargetAddr,
};

fn sock(text: &str) -> SocketAddress {
    SocketAddress::parse(text).unwrap()
}

fn io_error() -> std::io::Error {
    std::io::Error::new(std::io::ErrorKind::ConnectionRefused, "refused")
}

#[test]
fn username_password_is_required() {
    let both = Greeting {
        methods: vec![METHOD_NO_AUTH, METHOD_USER_PASS],
    };
    assert_eq!(select_method(&both).method, METHOD_USER_PASS);
    let none = Greeting {
        methods: vec![METHOD_NO_AUTH],
    };
    assert_eq!(select_method(&none).method, METHOD_NO_ACCEPTABLE);
}

#[test]
fn credentials_are_checked_against_the_store() {
    let users = UserStore::new(&[UserCredentials {
        username: "alice".into(),
        password: "secret".into(),
    }])
    .unwrap();
    let (user, response) = check_credentials(&users, b"alice", b"secret");
    assert_eq!(user.as_deref(), Some("alice"));
    assert!(response.is_success());
    let (user, response) = check_credentials(&users, b"alice", b"guess");
    assert_eq!(user, None);
    assert!(!response.is_success());
}

#[test]
fn only_counted_failures_are_logged_with_a_count() {
    assert_eq!(
        logged_failures(FailureVerdict::Counted { failures: 3 }),
        Some(3)
    );
    assert_eq!(logged_failures(FailureVerdict::Banned), None);
    assert_eq!(logged_failures(FailureVerdict::Disabled), None);
    assert_eq!(logged_failures(FailureVerdict::Untracked), None);
}

#[test]
fn only_connect_is_served() {
    let target = TargetAddr::Ip(sock("192.0.2.1:80"));
    let connect = Request {
        command: Command::Connect,
        target: target.clone(),
    };
    assert_eq!(request_outcome(Ok(connect)).unwrap(), target);

    let bind = Request {
        command: Command::Bind,
        target,
    };
    let refusal = request_outcome(Ok(bind)).unwrap_err();
    assert_eq!(refusal.reply, Some(ReplyCode::CommandNotSupported));
    assert!(matches!(
        refusal.reason,
        CloseReason::CommandNotSupported(Command::Bind)
    ));
    assert_eq!(refusal.reason.code(), "command_not_supported");
    assert_eq!(refusal.reason.detail().as_deref(), Some("command 0x02"));
}

#[test]
fn unreadable_requests_are_refused() {
    let refusal = request_outcome(Err(ProtocolError::UnsupportedAddressType(0x02))).unwrap_err();
    assert_eq!(refusal.reply, Some(ReplyCode::AddressTypeNotSupported));
    assert_eq!(refusal.reason.detail().as_deref(), Some("address type 0x02"));

    let refusal = request_outcome(Err(ProtocolError::InvalidDomain)).unwrap_err();
    assert_eq!(refusal.reply, Some(ReplyCode::GeneralFailure));
    assert_eq!(refusal.reason.code(), "invalid_domain");
    assert_eq!(refusal.reason.detail(), None);

    let refusal = request_outcome(Err(ProtocolError::UnsupportedVersion(4))).unwrap_err();
    assert_eq!(refusal.reply, None);
    assert_eq!(refusal.reason.code(), "protocol_error");
    assert_eq!(
        refusal.reason.detail().as_deref(),
        Some("unsupported SOCKS version 0x04")
    );

    let refusal = request_outcome(Err(ProtocolError::Io(io_error()))).unwrap_err();
    assert_eq!(refusal.reply, None);
    assert_eq!(refusal.reason.code(), "handshake_io_error");
    assert_eq!(refusal.reason.detail().as_deref(), Some("refused"));
}

#[test]
fn resolved_addresses_go_through_the_policy() {
    let policy = DestinationPolicy::new(vec![25], false, vec![]);
    let resolved = [
        sock("10.0.0.1:80"),
        sock("[::ffff:93.184.216.34]:80"),
        sock("93.184.216.34:80"),
        sock("[2606:4700::1111]:80"),
    ];
    assert_eq!(
        select_allowed(&policy, &resolved).unwrap(),
        vec![sock("93.184.216.34:80"), sock("[2606:4700::1111]:80")]
    );
    let denied = select_allowed(&policy, &[sock("127.0.0.1:80"), sock("10.0.0.1:80")]);
    assert!(matches!(
        denied,
        Err(ConnectError::Denied(DenyReason::InternalAddress(
            IpClass::Loopback
        )))
    ));
    assert!(matches!(
        select_allowed(&policy, &[]),
        Err(ConnectError::NoAddresses)
    ));
}

#[test]
fn at_most_eight_addresses_are_attempted() {
    let many: Vec<SocketAddress> = (1..=10)
        .map(|i| sock(&format!("198.51.100.{i}:443")))
        .collect();
    let attempts = connect_attempts(&many);
    assert_eq!(attempts.len(), 8);
    assert_eq!(attempts[..], many[..8]);
    assert_eq!(connect_attempts(&many[..2]).len(), 2);
}

#[test]
fn connect_failures_map_to_reply_codes() {
    assert_eq!(
        reply_for_failure(ConnectFailure::ConnectionRefused),
        ReplyCode::ConnectionRefused
    );
    assert_eq!(
        reply_for_failure(ConnectFailure::TimedOut),
        ReplyCode::HostUnreachable
    );
    assert_eq!(
        reply_for_failure(ConnectFailure::Other),
        ReplyCode::GeneralFailure
    );
    assert_eq!(
        ConnectError::Connect {
            error: io_error(),
            failure: ConnectFailure::ConnectionRefused
        }
        .reply_code(),
        ReplyCode::ConnectionRefused
    );
    assert_eq!(
        ConnectError::Connect {
            error: io_error(),
            failure: ConnectFailure::NetworkUnreachable
        }
        .reply_code(),
        ReplyCode::NetworkUnreachable
    );
    assert!(matches!(
        attempts_failed(Some((io_error(), ConnectFailure::TimedOut))),
        ConnectError::Connect {
            failure: ConnectFailure::TimedOut,
            ..
        }
    ));
    assert!(matches!(attempts_failed(None), ConnectError::NoAddresses));
    assert_eq!(
        ConnectError::Denied(DenyReason::ReservedAddress).reply_code(),
        ReplyCode::NotAllowed
    );
    assert_eq!(ConnectError::NoAddresses.reply_code(), ReplyCode::HostUnreachable);
    let reason = CloseReason::from_connect(ConnectError::Denied(DenyReason::BlockedPort(25)));
    assert_eq!(reason.code(), "denied_by_policy");
    assert_eq!(reason.detail().as_deref(), Some("port 25 is blocked"));
}

#[test]
fn relay_failures_blame_the_right_side() {
    assert!(matches!(
        relay_end_of(Direction::Upload, PumpError::Read(io_error())),
        RelayEnd::ClientError(_)
    ));
    assert!(matches!(
        relay_end_of(Direction::Download, PumpError::Read(io_error())),
        RelayEnd::TargetError(_)
    ));
    assert!(matches!(
        relay_end_of(Direction::Download, PumpError::Write(io_error())),
        RelayEnd::ClientError(_)
    ));
    assert!(matches!(
        relay_end_of(Direction::Upload, PumpError::Idle),
        RelayEnd::IdleTimeout
    ));
    let reason = CloseReason::from_relay(RelayEnd::Completed);
    assert_eq!(reason.code(), "completed");
    assert_eq!(reason.detail(), None);
}

#[test]
fn relay_completes_when_both_directions_reach_eof() {
    let start = RelayProgress {
        upload_done: false,
        download_done: false,
    };
    let after_upload = match relay_step(start, Direction::Upload, Ok(())) {
        RelayStep::Continue(next) => next,
        RelayStep::End(end) => panic!("ended early: {end:?}"),
    };
    assert!(after_upload.upload_done && !after_upload.download_done);
    assert!(matches!(
        relay_step(after_upload, Direction::Download, Ok(())),
        RelayStep::End(RelayEnd::Completed)
    ));
    assert!(matches!(
        relay_step(start, Direction::Download, Err(PumpError::Idle)),
        RelayStep::End(RelayEnd::IdleTimeout)
    ));
    assert_eq!(add_delivered(10, 5), 15);
    assert_eq!(add_delivered(u64::MAX - 1, 5), u64::MAX);
}

#[test]
fn new_connections_are_screened_whitelist_first_then_bans() {
    let acl = ClientAcl::new(vec![Cidr::parse("10.0.0.0/8").unwrap()]);
    let mut bans = BanListInner::new(BanConfig {
        max_failures: 1,
        window: 60_000,
        duration: 60_000,
        max_tracked: 10,
    });
    let banned = IpAddress::parse("10.1.2.3").unwrap();
    let outside = IpAddress::parse("192.0.2.1").unwrap();
    assert_eq!(bans.record_failure(banned, 0), FailureVerdict::Banned);
    assert_eq!(bans.record_failure(outside, 0), FailureVerdict::Banned);

    assert_eq!(screen_peer(&acl, &bans, outside, 10), Screening::NotWhitelisted);
    assert_eq!(screen_peer(&acl, &bans, banned, 10), Screening::Banned);
    let mapped = IpAddress::parse("::ffff:10.1.2.3").unwrap();
    assert_eq!(screen_peer(&acl, &bans, mapped, 10), Screening::Banned);
    assert_eq!(screen_peer(&acl, &bans, mapped, 60_000), Screening::Pass(banned));
    let fresh = IpAddress::parse("10.9.9.9").unwrap();
    assert_eq!(screen_peer(&acl, &bans, fresh, 10), Screening::Pass(fresh));
    assert_eq!(
        screen_peer(&ClientAcl::open_to_all(), &bans, outside, 10),
        Screening::Banned
    );
}

#[test]
fn timeouts_and_connect_errors_end_the_connection_as_documented() {
    let (reply, reason) = on_timeout(TimedStage::Connect);
    assert_eq!(reply, Some(ReplyCode::HostUnreachable));
    assert_eq!(reason.code(), "connect_timeout");
    for stage in [TimedStage::Handshake, TimedStage::SuccessReply] {
        let (reply, reason) = on_timeout(stage);
        assert_eq!(reply, None);
        assert_eq!(reason.code(), "handshake_timeout");
    }
    let (reply, reason) = on_connect_error(ConnectError::Connect {
        error: io_error(),
        failure: ConnectFailure::ConnectionRefused,
    });
    assert_eq!(reply, ReplyCode::ConnectionRefused);
    assert_eq!(reason.code(), "connect_failed");
    let (reply, reason) = on_connect_error(ConnectError::NoAddresses);
    assert_eq!(reply, ReplyCode::HostUnreachable);
    assert_eq!(reason.code(), "resolved_to_nothing");
}
