use my_socks_server::config::{ConfigError, ServerConfig, SettingsModel, UserSettingsModel};
use my_socks_server::net::SocketAddress;

fn user(username: &str, password: &str) -> UserSettingsModel {
    UserSettingsModel {
        username: username.into(),
        password: password.into(),
    }
}

/// `users:\n  - username: alice\n    password: secret\n`
fn minimal() -> SettingsModel {
    SettingsModel {
        listen_address: None,
        users: vec![user("alice", "secret")],
        max_connections: None,
        handshake_timeout_sec: None,
        connect_timeout_sec: None,
        idle_timeout_sec: None,
        shutdown_grace_sec: None,
        stats_interval_sec: None,
        client_whitelist: None,
        blocked_ports: None,
        allow_internal: None,
        internal_whitelist: None,
        ban_max_failures: None,
        ban_window_sec: None,
        ban_duration_sec: None,
    }
}

fn parse(settings: SettingsModel) -> Result<ServerConfig, ConfigError> {
    ServerConfig::from_settings(settings)
}

fn invalid_key(settings: SettingsModel) -> &'static str {
    match parse(settings) {
        Err(ConfigError::Invalid { key, .. }) => key,
        Err(other) => panic!("expected an invalid key, got {other:?}"),
        Ok(_) => panic!("expected an invalid key, got a configuration"),
    }
}

fn strings(values: &[&str]) -> Option<Vec<String>> {
    Some(values.iter().map(|value| (*value).to_string()).collect())
}

#[test]
fn minimal_settings_use_defaults() {
    let config = parse(minimal()).unwrap();
    assert_eq!(
        config.listen_address,
        SocketAddress::parse("0.0.0.0:1080").unwrap()
    );
    assert_eq!(config.max_connections, 4096);
    assert_eq!(config.timeouts.handshake, 10_000);
    assert_eq!(config.timeouts.connect, 15_000);
    assert_eq!(config.timeouts.idle, 300_000);
    assert_eq!(config.timeouts.shutdown_grace, 10_000);
    assert_eq!(config.stats_interval, 60_000);
    assert!(config.client_acl.is_open());
    assert_eq!(config.destination_policy.blocked_ports(), &[25]);
    assert!(!config.destination_policy.allow_internal());
    assert!(config.destination_policy.internal_whitelist().is_empty());
    assert_eq!(config.ban.max_failures, 5);
    assert_eq!(config.ban.window, 600_000);
    assert_eq!(config.ban.duration, 3_600_000);
    assert_eq!(config.users.verify(b"alice", b"secret"), Some("alice"));
}

#[test]
fn full_settings_file() {
    let settings = SettingsModel {
        listen_address: Some("[::]:1081".into()),
        users: vec![
            user("alice", "p@ss: with, punctuation"),
            user("bob", "second"),
        ],
        max_connections: Some(100),
        handshake_timeout_sec: Some(5),
        connect_timeout_sec: Some(7),
        idle_timeout_sec: Some(60),
        shutdown_grace_sec: Some(3),
        stats_interval_sec: Some(30),
        client_whitelist: strings(&["203.0.113.10", "198.51.100.0/24"]),
        blocked_ports: Some(vec![25, 465]),
        allow_internal: Some(true),
        internal_whitelist: strings(&[
            "127.0.0.1:8080",
            "10.20.0.0/24:8000-8100",
            "[fd00:1::/64]:443",
        ]),
        ban_max_failures: Some(3),
        ban_window_sec: Some(60),
        ban_duration_sec: Some(120),
    };
    let config = parse(settings).unwrap();
    assert_eq!(
        config.listen_address,
        SocketAddress::parse("[::]:1081").unwrap()
    );
    assert_eq!(config.users.len(), 2);
    assert_eq!(
        config.users.verify(b"alice", b"p@ss: with, punctuation"),
        Some("alice")
    );
    assert_eq!(config.max_connections, 100);
    assert_eq!(config.timeouts.idle, 60_000);
    assert_eq!(config.client_acl.networks().len(), 2);
    assert_eq!(config.destination_policy.blocked_ports(), &[25, 465]);
    assert!(config.destination_policy.allow_internal());
    assert_eq!(config.destination_policy.internal_whitelist().len(), 3);
    assert_eq!(config.ban.max_failures, 3);
    assert!(config
        .destination_policy
        .check(SocketAddress::parse("127.0.0.1:8080").unwrap())
        .is_ok());
}

#[test]
fn empty_blocked_ports_disable_the_default() {
    let mut settings = minimal();
    settings.blocked_ports = Some(vec![]);
    let config = parse(settings).unwrap();
    assert!(config.destination_policy.blocked_ports().is_empty());
}

#[test]
fn rejects_invalid_values() {
    let mut no_users = minimal();
    no_users.users = vec![];
    assert_eq!(invalid_key(no_users), "users");

    let mut empty_password = minimal();
    empty_password.users = vec![user("a", "")];
    assert_eq!(invalid_key(empty_password), "users");

    let mut host_name = minimal();
    host_name.listen_address = Some("localhost:1080".into());
    assert_eq!(invalid_key(host_name), "listen_address");

    let mut no_connections = minimal();
    no_connections.max_connections = Some(0);
    assert_eq!(invalid_key(no_connections), "max_connections");

    let mut no_idle = minimal();
    no_idle.idle_timeout_sec = Some(0);
    assert_eq!(invalid_key(no_idle), "idle_timeout_sec");

    let mut endless_ban = minimal();
    endless_ban.ban_duration_sec = Some(99_999_999_999);
    assert_eq!(invalid_key(endless_ban), "ban_duration_sec");

    let mut bad_prefix = minimal();
    bad_prefix.client_whitelist = strings(&["10.0.0.0/33"]);
    assert_eq!(invalid_key(bad_prefix), "client_whitelist");

    let mut host_entry = minimal();
    host_entry.internal_whitelist = strings(&["db.internal:5432"]);
    assert_eq!(invalid_key(host_entry), "internal_whitelist");

    let mut zero_port = minimal();
    zero_port.blocked_ports = Some(vec![0]);
    assert_eq!(invalid_key(zero_port), "blocked_ports");
}

#[test]
fn error_messages_do_not_leak_passwords() {
    let mut settings = minimal();
    settings.users = vec![user("alice", "hunter2"), user("alice", "hunter3")];
    let error = parse(settings).err().unwrap().message();
    assert!(error.contains("alice"), "{error}");
    assert!(!error.contains("hunter"), "{error}");
}

#[test]
fn invalid_values_are_explained() {
    let mut settings = minimal();
    settings.max_connections = Some(1_000_001);
    assert_eq!(
        parse(settings).err().unwrap().message(),
        "invalid setting `max_connections`: must be 1..=1000000"
    );
    let mut settings = minimal();
    settings.stats_interval_sec = Some(0);
    assert_eq!(
        parse(settings).err().unwrap().message(),
        "invalid setting `stats_interval_sec`: must be 1..=31536000 seconds"
    );
    let mut settings = minimal();
    settings.client_whitelist = strings(&["10.0.0.1", "example.com"]);
    assert_eq!(
        parse(settings).err().unwrap().message(),
        "invalid setting `client_whitelist`: 'example.com': expected an IP address or CIDR"
    );
    let mut settings = minimal();
    settings.listen_address = Some("0.0.0.0".into());
    assert_eq!(
        parse(settings).err().unwrap().message(),
        "invalid setting `listen_address`: expected ip:port, e.g. 0.0.0.0:1080"
    );
    assert_eq!(
        ConfigError::HomeNotSet.message(),
        "HOME is not set, cannot locate ~/.mysocksserver"
    );
}

#[test]
fn settings_are_checked_in_order() {
    let mut settings = minimal();
    settings.users = vec![];
    settings.max_connections = Some(0);
    settings.listen_address = Some("nowhere".into());
    assert_eq!(invalid_key(settings), "listen_address");
    let mut settings = minimal();
    settings.ban_window_sec = Some(0);
    settings.blocked_ports = Some(vec![0]);
    assert_eq!(invalid_key(settings), "blocked_ports");
}

#[test]
fn user_settings_debug_output_redacts_the_password() {
    let rendered = user("alice", "hunter2").debug_text();
    assert!(rendered.contains("alice"));
    assert!(!rendered.contains("hunter2"));
}
