mod admission;
mod close_reason;
mod connection;
mod connector;
mod handshake;
mod log_throttle;
mod server_stats;

pub use admission::{Screening, screen_peer, screening_of};
pub use close_reason::{
    CloseReason, TimedStage, on_connect_error, on_timeout, close_code, close_kind, law_close_codes_are_distinct, closes_for_connect, closes_for_protocol,
    closes_for_relay, fixed_detail, without_detail,
};
pub use connector::{
    ConnectError, ConnectFailure, MAX_CONNECT_ATTEMPTS, allowed_addresses, attempts_failed,
    canonical_socket, connect_attempts, connect_error_reply, failure_reply, first_denial, law_connects_only_allowed,
    reply_for_failure,
    select_allowed,
};
pub use handshake::{
    ConnectionContext, Refusal, check_credentials, logged_failures, refuses_unreadable,
    request_outcome, select_method,
};
pub use log_throttle::{LogThrottle, law_once_per_period, throttle_decision, throttle_step};
pub use server_stats::{Counter, ServerStats};
pub use connection::ConnectionReport;
