use vstd::prelude::*;

use super::config_error::ConfigError;
use super::settings_model::{SettingsModel, UserSettingsModel};
use crate::auth::{
    CredentialError, UserCredentials, UserStore, credential_error_text, user_list_problem,
};
use crate::net::{SocketAddress, parse_socket_chars, socket_from_text};
use crate::policy::{
    BanConfig, Cidr, ClientAcl, DestinationPolicy, INVALID_PREFIX, InternalWhitelistEntry,
    NOT_AN_ADDRESS, cidr_from_text, entry_error_reason, entry_from_text, parse_error_text, read_as,
};
use crate::text::{chars_to_string, decimal_text, push_decimal, push_str, text_chars};

verus! {

pub const DEFAULT_LISTEN_ADDRESS: &'static str = "0.0.0.0:1080";

pub const DEFAULT_MAX_CONNECTIONS: u32 = 4096;

pub const MAX_CONNECTIONS_LIMIT: u32 = 1_000_000;

pub const DEFAULT_HANDSHAKE_TIMEOUT_SEC: u64 = 10;

pub const DEFAULT_CONNECT_TIMEOUT_SEC: u64 = 15;

pub const DEFAULT_IDLE_TIMEOUT_SEC: u64 = 300;

pub const DEFAULT_SHUTDOWN_GRACE_SEC: u64 = 10;

pub const DEFAULT_STATS_INTERVAL_SEC: u64 = 60;

pub const DEFAULT_BLOCKED_PORTS: [u16; 1] = [25];

pub const DEFAULT_BAN_MAX_FAILURES: u32 = 5;

pub const DEFAULT_BAN_WINDOW_SEC: u64 = 600;

pub const DEFAULT_BAN_DURATION_SEC: u64 = 3600;

pub const BAN_MAX_TRACKED: usize = 100_000;

/// Upper bound of every `*_sec` setting (one year), far from clock overflow.
pub const MAX_DURATION_SEC: u64 = 31_536_000;

/// Time limits, in milliseconds.
#[derive(Debug, Clone, Copy, PartialEq, Eq, Structural)]
pub struct Timeouts {
    /// Greeting + authentication + request.
    pub handshake: u64,
    /// DNS resolution + TCP connect to the target.
    pub connect: u64,
    /// No bytes in either direction while relaying.
    pub idle: u64,
    /// How long active connections may finish after SIGTERM/SIGINT.
    pub shutdown_grace: u64,
}

/// Validated settings with defaults applied. Durations are in milliseconds.
#[derive(Clone)]
pub struct ServerConfig {
    pub listen_address: SocketAddress,
    pub users: UserStore,
    pub max_connections: u32,
    pub timeouts: Timeouts,
    pub stats_interval: u64,
    pub client_acl: ClientAcl,
    pub destination_policy: DestinationPolicy,
    pub ban: BanConfig,
}

/// A setting, or its default.
pub open spec fn or_default<T>(value: Option<T>, default: T) -> T {
    match value {
        Some(v) => v,
        None => default,
    }
}

/// The text of the listen address setting.
pub open spec fn listen_text(value: Option<String>) -> Seq<char> {
    match value {
        Some(text) => text@,
        None => DEFAULT_LISTEN_ADDRESS@,
    }
}

/// The users of the settings as credentials, in order.
pub open spec fn settings_credentials(users: Seq<UserSettingsModel>) -> Seq<UserCredentials> {
    users.map_values(|u: UserSettingsModel| UserCredentials { username: u.username, password: u.password })
}

/// A number of seconds a `*_sec` setting may hold.
pub open spec fn seconds_allowed(value: u64) -> bool {
    1 <= value <= MAX_DURATION_SEC
}

pub open spec fn seconds_reason() -> Seq<char> {
    "must be 1..="@ + decimal_text(MAX_DURATION_SEC as nat) + " seconds"@
}

pub open spec fn max_connections_reason() -> Seq<char> {
    "must be 1..="@ + decimal_text(MAX_CONNECTIONS_LIMIT as nat)
}

pub open spec fn listen_reason() -> Seq<char> {
    "expected ip:port, e.g. 0.0.0.0:1080"@
}

pub open spec fn zero_port_reason() -> Seq<char> {
    "0 is not a port"@
}

/// The reason a CIDR text is refused.
pub open spec fn cidr_error_reason(not_an_address: bool) -> Seq<char> {
    if not_an_address {
        NOT_AN_ADDRESS@
    } else {
        INVALID_PREFIX@
    }
}

/// The first refused text among `list[i..]` read as CIDRs, as the error message.
pub open spec fn cidr_list_problem(list: Seq<String>, i: int) -> Option<Seq<char>>
    decreases list.len() - i,
{
    if i < 0 || i >= list.len() {
        None
    } else {
        match cidr_from_text(list[i]@) {
            Err(not_an_address) => Some(
                parse_error_text(list[i]@, cidr_error_reason(not_an_address)),
            ),
            Ok(_) => cidr_list_problem(list, i + 1),
        }
    }
}

/// The first refused text among `list[i..]` read as whitelist entries, as the error message.
pub open spec fn entry_list_problem(list: Seq<String>, i: int) -> Option<Seq<char>>
    decreases list.len() - i,
{
    if i < 0 || i >= list.len() {
        None
    } else {
        match entry_from_text(list[i]@) {
            Err(why) => Some(parse_error_text(list[i]@, entry_error_reason(why)@)),
            Ok(_) => entry_list_problem(list, i + 1),
        }
    }
}

/// The list of a list setting: empty when missing.
pub open spec fn list_setting(value: Option<Vec<String>>) -> Seq<String> {
    match value {
        Some(list) => list@,
        None => Seq::empty(),
    }
}

/// The blocked ports setting, or its default.
pub open spec fn blocked_ports_setting(value: Option<Vec<u16>>) -> Seq<u16> {
    match value {
        Some(ports) => ports@,
        None => seq![25u16],
    }
}

/// The first refused setting, as its key and the reason, in the order `from_settings`
/// checks them: listen address, users, connection limit, timeouts, stats interval, client
/// whitelist, blocked ports, internal whitelist, ban window, ban duration.
pub open spec fn settings_problem(s: SettingsModel) -> Option<(Seq<char>, Seq<char>)> {
    if socket_from_text(listen_text(s.listen_address)) is None {
        Some(("listen_address"@, listen_reason()))
    } else if user_list_problem(settings_credentials(s.users@)) is Some {
        Some(("users"@, credential_error_text(user_list_problem(settings_credentials(s.users@))->0)))
    } else if !(1 <= or_default(s.max_connections, DEFAULT_MAX_CONNECTIONS)
        <= MAX_CONNECTIONS_LIMIT) {
        Some(("max_connections"@, max_connections_reason()))
    } else if !seconds_allowed(or_default(s.handshake_timeout_sec, DEFAULT_HANDSHAKE_TIMEOUT_SEC)) {
        Some(("handshake_timeout_sec"@, seconds_reason()))
    } else if !seconds_allowed(or_default(s.connect_timeout_sec, DEFAULT_CONNECT_TIMEOUT_SEC)) {
        Some(("connect_timeout_sec"@, seconds_reason()))
    } else if !seconds_allowed(or_default(s.idle_timeout_sec, DEFAULT_IDLE_TIMEOUT_SEC)) {
        Some(("idle_timeout_sec"@, seconds_reason()))
    } else if !seconds_allowed(or_default(s.shutdown_grace_sec, DEFAULT_SHUTDOWN_GRACE_SEC)) {
        Some(("shutdown_grace_sec"@, seconds_reason()))
    } else if !seconds_allowed(or_default(s.stats_interval_sec, DEFAULT_STATS_INTERVAL_SEC)) {
        Some(("stats_interval_sec"@, seconds_reason()))
    } else if cidr_list_problem(list_setting(s.client_whitelist), 0) is Some {
        Some(("client_whitelist"@, cidr_list_problem(list_setting(s.client_whitelist), 0)->0))
    } else if blocked_ports_setting(s.blocked_ports).contains(0) {
        Some(("blocked_ports"@, zero_port_reason()))
    } else if entry_list_problem(list_setting(s.internal_whitelist), 0) is Some {
        Some(("internal_whitelist"@, entry_list_problem(list_setting(s.internal_whitelist), 0)->0))
    } else if !seconds_allowed(or_default(s.ban_window_sec, DEFAULT_BAN_WINDOW_SEC)) {
        Some(("ban_window_sec"@, seconds_reason()))
    } else if !seconds_allowed(or_default(s.ban_duration_sec, DEFAULT_BAN_DURATION_SEC)) {
        Some(("ban_duration_sec"@, seconds_reason()))
    } else {
        None
    }
}

/// A number of seconds as milliseconds.
pub open spec fn millis(seconds: u64) -> u64 {
    (seconds * 1000) as u64
}

/// `config` is what `s` describes, with defaults applied and durations in milliseconds.
pub open spec fn config_of(config: ServerConfig, s: SettingsModel) -> bool {
    &&& socket_from_text(listen_text(s.listen_address)) == Some(config.listen_address)
    &&& config.users.built_from(settings_credentials(s.users@))
    &&& config.max_connections == or_default(s.max_connections, DEFAULT_MAX_CONNECTIONS)
    &&& config.timeouts == (Timeouts {
        handshake: millis(or_default(s.handshake_timeout_sec, DEFAULT_HANDSHAKE_TIMEOUT_SEC)),
        connect: millis(or_default(s.connect_timeout_sec, DEFAULT_CONNECT_TIMEOUT_SEC)),
        idle: millis(or_default(s.idle_timeout_sec, DEFAULT_IDLE_TIMEOUT_SEC)),
        shutdown_grace: millis(or_default(s.shutdown_grace_sec, DEFAULT_SHUTDOWN_GRACE_SEC)),
    })
    &&& config.stats_interval == millis(or_default(s.stats_interval_sec, DEFAULT_STATS_INTERVAL_SEC))
    &&& config.client_acl.spec_networks().len() == list_setting(s.client_whitelist).len()
    &&& forall|i: int|
        0 <= i < config.client_acl.spec_networks().len() ==> cidr_from_text(
            list_setting(s.client_whitelist)[i]@,
        ) == Ok::<Cidr, bool>(#[trigger] config.client_acl.spec_networks()[i])
    &&& config.destination_policy.spec_blocked_ports() == blocked_ports_setting(s.blocked_ports)
    &&& config.destination_policy.spec_allow_internal() == or_default(s.allow_internal, false)
    &&& config.destination_policy.spec_whitelist().len() == list_setting(s.internal_whitelist).len()
    &&& forall|i: int|
        0 <= i < config.destination_policy.spec_whitelist().len() ==> read_as(
            #[trigger] config.destination_policy.spec_whitelist()[i],
            list_setting(s.internal_whitelist)[i]@,
        )
    &&& config.ban == (BanConfig {
        max_failures: or_default(s.ban_max_failures, DEFAULT_BAN_MAX_FAILURES),
        window: millis(or_default(s.ban_window_sec, DEFAULT_BAN_WINDOW_SEC)),
        duration: millis(or_default(s.ban_duration_sec, DEFAULT_BAN_DURATION_SEC)),
        max_tracked: BAN_MAX_TRACKED,
    })
}

fn invalid(key: &'static str, reason: String) -> (r: ConfigError)
    ensures
        r matches ConfigError::Invalid { key: k, reason: why } && k == key && why@ == reason@,
{
    ConfigError::Invalid { key, reason }
}

/// A `*_sec` setting (or its default) in milliseconds.
///
/// # Errors
/// [`ConfigError::Invalid`] naming `key` when the value is not `1..=MAX_DURATION_SEC`.
pub fn seconds(key: &'static str, value: Option<u64>, default: u64) -> (r: Result<
    u64,
    ConfigError,
>)
    ensures
        match r {
            Ok(ms) => seconds_allowed(or_default(value, default)) && ms == millis(
                or_default(value, default),
            ),
            Err(e) => !seconds_allowed(or_default(value, default)) && (e matches ConfigError::Invalid {
                key: k,
                reason,
            } && k == key && reason@ == seconds_reason()),
        },
{
    let value = match value {
        Some(v) => v,
        None => default,
    };
    if value == 0 || value > MAX_DURATION_SEC {
        let mut reason: Vec<char> = Vec::new();
        push_str(&mut reason, "must be 1..=");
        push_decimal(&mut reason, MAX_DURATION_SEC);
        push_str(&mut reason, " seconds");
        assert(reason@ =~= seconds_reason());
        return Err(invalid(key, chars_to_string(reason.as_slice())));
    }
    Ok(value * 1000)
}


/// The texts of a list setting read as CIDRs (a missing list is empty).
///
/// # Errors
/// [`ConfigError::Invalid`] naming `key`, with the message of the first text refused.
pub fn parse_cidr_list(key: &'static str, values: Option<Vec<String>>) -> (r: Result<
    Vec<Cidr>,
    ConfigError,
>)
    ensures
        match r {
            Ok(cidrs) => cidr_list_problem(list_setting(values), 0) is None && cidrs@.len()
                == list_setting(values).len() && forall|i: int|
                0 <= i < cidrs@.len() ==> cidr_from_text(list_setting(values)[i]@) == Ok::<
                    Cidr,
                    bool,
                >(#[trigger] cidrs@[i]),
            Err(e) => cidr_list_problem(list_setting(values), 0) matches Some(why) && (e matches ConfigError::Invalid {
                key: k,
                reason,
            } && k == key && reason@ == why),
        },
{
    let list = match values {
        Some(list) => list,
        None => Vec::new(),
    };
    let ghost texts = list@;
    assert(texts == list_setting(values));
    let mut cidrs: Vec<Cidr> = Vec::new();
    let mut i: usize = 0;
    while i < list.len()
        invariant
            i <= texts.len(),
            texts == list@,
            texts == list_setting(values),
            cidrs@.len() == i,
            cidr_list_problem(texts, 0) == cidr_list_problem(texts, i as int),
            forall|j: int|
                0 <= j < i ==> cidr_from_text(texts[j]@) == Ok::<Cidr, bool>(#[trigger] cidrs@[j]),
        decreases texts.len() - i,
    {
        let text = list[i].as_str();
        assert(text@ == texts[i as int]@);
        match Cidr::parse(text) {
            Ok(cidr) => {
                cidrs.push(cidr);
            },
            Err(error) => {
                let message = error.message();
                proof {
                    let text = texts[i as int]@;
                    assert(cidr_from_text(text) is Err);
                    assert(cidr_error_reason(cidr_from_text(text)->Err_0) == error.reason@);
                    assert(cidr_list_problem(texts, i as int) == Some(
                        parse_error_text(text, cidr_error_reason(cidr_from_text(text)->Err_0)),
                    ));
                }
                return Err(invalid(key, message));
            },
        }
        i = i + 1;
    }
    Ok(cidrs)
}

/// The texts of a list setting read as internal whitelist entries (a missing list is empty).
///
/// # Errors
/// [`ConfigError::Invalid`] naming `key`, with the message of the first text refused.
pub fn parse_entry_list(key: &'static str, values: Option<Vec<String>>) -> (r: Result<
    Vec<InternalWhitelistEntry>,
    ConfigError,
>)
    ensures
        match r {
            Ok(entries) => entry_list_problem(list_setting(values), 0) is None && entries@.len()
                == list_setting(values).len() && forall|i: int|
                0 <= i < entries@.len() ==> read_as(
                    #[trigger] entries@[i],
                    list_setting(values)[i]@,
                ),
            Err(e) => entry_list_problem(list_setting(values), 0) matches Some(why) && (e matches ConfigError::Invalid {
                key: k,
                reason,
            } && k == key && reason@ == why),
        },
{
    let list = match values {
        Some(list) => list,
        None => Vec::new(),
    };
    let ghost texts = list@;
    assert(texts == list_setting(values));
    let mut entries: Vec<InternalWhitelistEntry> = Vec::new();
    let mut i: usize = 0;
    while i < list.len()
        invariant
            i <= texts.len(),
            texts == list@,
            texts == list_setting(values),
            entries@.len() == i,
            entry_list_problem(texts, 0) == entry_list_problem(texts, i as int),
            forall|j: int| 0 <= j < i ==> read_as(#[trigger] entries@[j], texts[j]@),
        decreases texts.len() - i,
    {
        let text = list[i].as_str();
        assert(text@ == texts[i as int]@);
        match InternalWhitelistEntry::parse(text) {
            Ok(entry) => {
                entries.push(entry);
            },
            Err(error) => {
                let message = error.message();
                proof {
                    let text = texts[i as int]@;
                    assert(entry_from_text(text) is Err);
                    assert(entry_list_problem(texts, i as int) == Some(
                        parse_error_text(text, entry_error_reason(entry_from_text(text)->Err_0)@),
                    ));
                }
                return Err(invalid(key, message));
            },
        }
        i = i + 1;
    }
    Ok(entries)
}

/// A text as an owned string.
fn owned(text: &str) -> (r: String)
    ensures
        r@ == text@,
{
    text.to_owned()
}

impl ServerConfig {
    /// Validates the settings and applies the defaults.
    ///
    /// # Errors
    /// [`ConfigError::Invalid`] naming the first offending key (see [`settings_problem`]).
    pub fn from_settings(settings: SettingsModel) -> (r: Result<Self, ConfigError>)
        ensures
            match r {
                Ok(config) => settings_problem(settings) is None && config_of(config, settings),
                Err(e) => settings_problem(settings) matches Some((k, why)) && (e matches ConfigError::Invalid {
                    key,
                    reason,
                } && key@ == k && reason@ == why),
            },
    {
        let parsed = match &settings.listen_address {
            Some(text) => SocketAddress::parse(text.as_str()),
            None => SocketAddress::parse(DEFAULT_LISTEN_ADDRESS),
        };
        let listen_address = match parsed {
            Some(addr) => addr,
            None => return Err(invalid("listen_address", owned("expected ip:port, e.g. 0.0.0.0:1080"))),
        };

        let ghost wanted = settings_credentials(settings.users@);
        let mut credentials: Vec<UserCredentials> = Vec::new();
        let mut i: usize = 0;
        #[verifier::loop_isolation(false)]
        while i < settings.users.len()
            invariant
                i <= settings.users@.len(),
                wanted == settings_credentials(settings.users@),
                credentials@ == wanted.take(i as int),
            decreases settings.users@.len() - i,
        {
            let user = &settings.users[i];
            credentials.push(
                UserCredentials { username: user.username.clone(), password: user.password.clone() },
            );
            proof {
                assert(wanted.take(i + 1) =~= wanted.take(i as int).push(wanted[i as int]));
            }
            i = i + 1;
        }
        assert(credentials@ =~= wanted);
        let users = match UserStore::new(credentials.as_slice()) {
            Ok(store) => store,
            Err(error) => return Err(invalid("users", error.message())),
        };

        let max_connections = match settings.max_connections {
            Some(n) => n,
            None => DEFAULT_MAX_CONNECTIONS,
        };
        if max_connections < 1 || max_connections > MAX_CONNECTIONS_LIMIT {
            let mut reason: Vec<char> = Vec::new();
            push_str(&mut reason, "must be 1..=");
            push_decimal(&mut reason, MAX_CONNECTIONS_LIMIT as u64);
            assert(reason@ =~= max_connections_reason());
            return Err(invalid("max_connections", chars_to_string(reason.as_slice())));
        }

        let handshake = match seconds(
            "handshake_timeout_sec",
            settings.handshake_timeout_sec,
            DEFAULT_HANDSHAKE_TIMEOUT_SEC,
        ) {
            Ok(value) => value,
            Err(error) => return Err(error),
        };
        let connect = match seconds(
            "connect_timeout_sec",
            settings.connect_timeout_sec,
            DEFAULT_CONNECT_TIMEOUT_SEC,
        ) {
            Ok(value) => value,
            Err(error) => return Err(error),
        };
        let idle = match seconds("idle_timeout_sec", settings.idle_timeout_sec, DEFAULT_IDLE_TIMEOUT_SEC) {
            Ok(value) => value,
            Err(error) => return Err(error),
        };
        let shutdown_grace = match seconds(
            "shutdown_grace_sec",
            settings.shutdown_grace_sec,
            DEFAULT_SHUTDOWN_GRACE_SEC,
        ) {
            Ok(value) => value,
            Err(error) => return Err(error),
        };
        let timeouts = Timeouts { handshake, connect, idle, shutdown_grace };
        let stats_interval = match seconds(
            "stats_interval_sec",
            settings.stats_interval_sec,
            DEFAULT_STATS_INTERVAL_SEC,
        ) {
            Ok(value) => value,
            Err(error) => return Err(error),
        };

        let networks = match parse_cidr_list("client_whitelist", settings.client_whitelist) {
            Ok(networks) => networks,
            Err(error) => return Err(error),
        };
        let client_acl = ClientAcl::new(networks);

        let blocked_ports = match settings.blocked_ports {
            Some(ports) => ports,
            None => {
                let mut ports: Vec<u16> = Vec::new();
                ports.push(DEFAULT_BLOCKED_PORTS[0]);
                assert(ports@ =~= seq![25u16]);
                ports
            },
        };
        assert(blocked_ports@ == blocked_ports_setting(settings.blocked_ports));
        let mut k: usize = 0;
        #[verifier::loop_isolation(false)]
        while k < blocked_ports.len()
            invariant
                k <= blocked_ports@.len(),
                forall|j: int| 0 <= j < k ==> blocked_ports@[j] != 0,
            decreases blocked_ports@.len() - k,
        {
            if blocked_ports[k] == 0 {
                assert(blocked_ports@.contains(0u16)) by {
                    assert(blocked_ports@[k as int] == 0);
                }
                return Err(invalid("blocked_ports", owned("0 is not a port")));
            }
            k = k + 1;
        }
        let allow_internal = match settings.allow_internal {
            Some(flag) => flag,
            None => false,
        };
        let whitelist = match parse_entry_list("internal_whitelist", settings.internal_whitelist) {
            Ok(entries) => entries,
            Err(error) => return Err(error),
        };
        let destination_policy = DestinationPolicy::new(blocked_ports, allow_internal, whitelist);

        let max_failures = match settings.ban_max_failures {
            Some(n) => n,
            None => DEFAULT_BAN_MAX_FAILURES,
        };
        let window = match seconds("ban_window_sec", settings.ban_window_sec, DEFAULT_BAN_WINDOW_SEC) {
            Ok(value) => value,
            Err(error) => return Err(error),
        };
        let duration = match seconds(
            "ban_duration_sec",
            settings.ban_duration_sec,
            DEFAULT_BAN_DURATION_SEC,
        ) {
            Ok(value) => value,
            Err(error) => return Err(error),
        };
        let ban = BanConfig { max_failures, window, duration, max_tracked: BAN_MAX_TRACKED };

        Ok(
            ServerConfig {
                listen_address,
                users,
                max_connections,
                timeouts,
                stats_interval,
                client_acl,
                destination_policy,
                ban,
            },
        )
    }
}

/// A millisecond count a validated duration may hold: one second to one year.
pub open spec fn valid_millis(ms: u64) -> bool {
    1000 <= ms <= MAX_DURATION_SEC * 1000
}

/// Every configuration the settings are accepted as is within the limits: a connection limit
/// of `1..=MAX_CONNECTIONS_LIMIT`, every duration from one second to one year, no blocked
/// port 0, and at least one user.
pub proof fn law_accepted_settings_are_within_limits(s: SettingsModel, config: ServerConfig)
    requires
        settings_problem(s) is None,
        config_of(config, s),
    ensures
        1 <= config.max_connections <= MAX_CONNECTIONS_LIMIT,
        valid_millis(config.timeouts.handshake),
        valid_millis(config.timeouts.connect),
        valid_millis(config.timeouts.idle),
        valid_millis(config.timeouts.shutdown_grace),
        valid_millis(config.stats_interval),
        valid_millis(config.ban.window),
        valid_millis(config.ban.duration),
        !config.destination_policy.spec_blocked_ports().contains(0),
        config.users.spec_users().len() >= 1,
{
}

} // verus!
