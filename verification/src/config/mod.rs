mod config_error;
mod server_config;
mod settings_model;

pub use config_error::{ConfigError, SETTINGS_FILE_NAME, invalid_setting_text, message_fits};
pub use server_config::{
    BAN_MAX_TRACKED, DEFAULT_BAN_DURATION_SEC, DEFAULT_BAN_MAX_FAILURES, DEFAULT_BAN_WINDOW_SEC,
    DEFAULT_BLOCKED_PORTS, DEFAULT_CONNECT_TIMEOUT_SEC, DEFAULT_HANDSHAKE_TIMEOUT_SEC,
    DEFAULT_IDLE_TIMEOUT_SEC, DEFAULT_LISTEN_ADDRESS, DEFAULT_MAX_CONNECTIONS,
    DEFAULT_SHUTDOWN_GRACE_SEC, DEFAULT_STATS_INTERVAL_SEC, MAX_CONNECTIONS_LIMIT,
    MAX_DURATION_SEC, ServerConfig, Timeouts, blocked_ports_setting, cidr_error_reason,
    cidr_list_problem, config_of, entry_list_problem, law_accepted_settings_are_within_limits,
    listen_reason, listen_text, list_setting,
    max_connections_reason, millis, or_default, parse_cidr_list, parse_entry_list, seconds,
    seconds_allowed, seconds_reason, settings_credentials, settings_problem, valid_millis,
    zero_port_reason,
};
pub use settings_model::{SettingsModel, UserSettingsModel, user_settings_debug_text};
