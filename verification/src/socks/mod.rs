mod auth_negotiation;
mod client;
mod consts;
mod greeting;
mod protocol_error;
mod reply;
mod request;
mod target_addr;
mod wire;

pub use auth_negotiation::{
    UserPassRequest, UserPassResponse, ascii_or_mark, law_user_pass_request_round_trip,
    law_user_pass_response_round_trip, request_debug_text, user_pass_request_bytes,
    user_pass_request_wire, user_pass_response_bytes, user_pass_response_wire,
};
pub use client::{
    ClientError, check_auth_response, check_method_selection, check_reply, client_connect_request,
    client_credentials, client_error_text, client_greeting,
};
pub use consts::{
    ATYP_DOMAIN, ATYP_IPV4, ATYP_IPV6, AUTH_STATUS_FAILURE, AUTH_STATUS_SUCCESS, AUTH_VERSION,
    CMD_BIND, CMD_CONNECT, CMD_UDP_ASSOCIATE, METHOD_NO_ACCEPTABLE, METHOD_NO_AUTH,
    METHOD_USER_PASS, SOCKS_VERSION,
};
pub use greeting::{
    Greeting, MethodSelection, greeting_bytes, greeting_wire, law_greeting_round_trip,
    law_method_selection_round_trip, method_selection_bytes, method_selection_wire,
};
pub use reply::{
    Reply, ReplyCode, canonical_reply_code, law_reply_code_byte_round_trip,
    law_reply_codes_are_rfc1928_numbers, law_reply_round_trip,
    reply_bytes, reply_code_byte, reply_code_of, reply_code_text, reply_wire, unspecified_v4,
};
pub use request::{
    Command, Request, RequestView, canonical_command, command_byte, command_of,
    law_command_byte_round_trip, law_request_round_trip, request_bytes, request_wire,
};
pub(crate) use protocol_error::io_error_text;
pub use protocol_error::{ProtocolError, WireError, protocol_error_text, reports};
pub use target_addr::{
    TargetAddr, TargetView, ascii_text, domain_byte, fits_wire, is_domain_byte,
    law_domain_target_reads_its_host, law_host_name_bytes, law_target_round_trip, parse_domain, target_bytes, target_text, target_wire, valid_domain,
    valid_host,
};
pub use wire::{
    be_bytes, be_value, copy_bytes, lemma_be_bytes_len, lemma_be_round_trip, lemma_be_value_bound,
    lemma_pow256n_values, port_bytes, pow256n, push_be, push_socket_addr, push_u8_prefixed,
    read_be, socket_addr_bytes, u8_prefixed,
};
