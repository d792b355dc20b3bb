//! SOCKS5 proxy logic (RFC 1928 `CONNECT`, RFC 1929 username/password authentication):
//! wire formats, the destination and client policies, brute-force bans, settings validation
//! and the decisions of a proxied connection.
pub mod auth;
pub mod config;
pub mod ip_text;
pub mod limits;
pub mod net;
pub mod policy;
pub mod relay;
pub mod server;
pub mod socks;
pub mod text;
