//! The client side of the protocol as decisions on decoded answers: greeting, username/password
//! authentication and `CONNECT`. The connection itself is driven by the caller, which sends
//! what these functions give and decodes what the proxy answers.
use vstd::prelude::*;

use super::auth_negotiation::{UserPassRequest, UserPassResponse, user_pass_request_bytes};
use super::consts::{AUTH_STATUS_SUCCESS, METHOD_USER_PASS};
use super::greeting::{Greeting, MethodSelection, greeting_bytes};
use super::protocol_error::{ProtocolError, protocol_error_text};
use super::reply::{Reply, ReplyCode, reply_code_text};
use super::request::{Command, Request, RequestView, request_bytes};
use super::target_addr::{TargetAddr, fits_wire};
use crate::ip_text::{byte_hex_text, push_byte_hex};
use crate::text::{chars_to_string, push_str};

verus! {

/// Failure of the client handshake.
#[derive(Debug)]
pub enum ClientError {
    Protocol(ProtocolError),
    MethodRejected(u8),
    AuthRejected,
    RequestRejected(ReplyCode),
}

/// The message of every error but a protocol error (whose message is the protocol error's).
pub open spec fn client_error_text(e: &ClientError) -> Seq<char> {
    match e {
        ClientError::Protocol(p) => protocol_error_text(p),
        ClientError::MethodRejected(m) => "proxy does not accept username/password authentication (answered "@
            + byte_hex_text(*m) + ")"@,
        ClientError::AuthRejected => "proxy rejected the credentials"@,
        ClientError::RequestRejected(code) => "proxy refused the request: "@ + reply_code_text(*code),
    }
}

impl ClientError {
    /// An I/O failure on the connection to the proxy.
    pub fn from_io(error: std::io::Error) -> (r: Self)
        ensures
            r == ClientError::Protocol(ProtocolError::Io(error)),
    {
        ClientError::Protocol(ProtocolError::Io(error))
    }

    /// The error message (its `Display` form).
    pub fn message(&self) -> (r: String)
        ensures
            (*self matches ClientError::Protocol(ProtocolError::Io(_))) ==> (exists|t: Seq<char>|
                r@ == client_error_text(self) + t),
            !(*self matches ClientError::Protocol(ProtocolError::Io(_))) ==> r@ == client_error_text(
                self,
            ),
    {
        match self {
            ClientError::Protocol(error) => {
                let text = error.message();
                proof {
                    if *error is Io {
                        let t = choose|t: Seq<char>| text@ == protocol_error_text(error) + t;
                        assert(text@ == client_error_text(self) + t);
                    }
                }
                text
            },
            ClientError::MethodRejected(method) => {
                let mut out: Vec<char> = Vec::new();
                push_str(&mut out, "proxy does not accept username/password authentication (answered ");
                push_byte_hex(&mut out, *method);
                push_str(&mut out, ")");
                assert(out@ =~= client_error_text(self));
                chars_to_string(out.as_slice())
            },
            ClientError::AuthRejected => {
                let mut out: Vec<char> = Vec::new();
                push_str(&mut out, "proxy rejected the credentials");
                chars_to_string(out.as_slice())
            },
            ClientError::RequestRejected(code) => {
                let mut out: Vec<char> = Vec::new();
                push_str(&mut out, "proxy refused the request: ");
                let text = code.to_text();
                push_str(&mut out, text.as_str());
                assert(out@ =~= client_error_text(self));
                chars_to_string(out.as_slice())
            },
        }
    }
}

/// The greeting a client sends: it offers username/password authentication only.
pub fn client_greeting() -> (r: Result<Vec<u8>, ClientError>)
    ensures
        r matches Ok(bytes) && bytes@ == greeting_bytes(seq![METHOD_USER_PASS]),
{
    let mut methods: Vec<u8> = Vec::new();
    methods.push(METHOD_USER_PASS);
    let greeting = Greeting { methods };
    assert(greeting.methods@ =~= seq![METHOD_USER_PASS]);
    match greeting.encode() {
        Ok(bytes) => Ok(bytes),
        Err(error) => Err(ClientError::Protocol(error)),
    }
}

/// The proxy's choice of method: the handshake goes on only when it picked
/// username/password.
///
/// # Errors
/// `MethodRejected` with the method the proxy answered.
pub fn check_method_selection(selection: MethodSelection) -> (r: Result<(), ClientError>)
    ensures
        selection.method == METHOD_USER_PASS <==> r is Ok,
        r is Err ==> (r matches Err(ClientError::MethodRejected(m)) && m == selection.method),
{
    if selection.method != METHOD_USER_PASS {
        return Err(ClientError::MethodRejected(selection.method));
    }
    Ok(())
}

/// The username/password message (RFC 1929) for `username` and `password`.
///
/// # Errors
/// A username or password longer than 255 bytes.
pub fn client_credentials(username: &str, password: &str) -> (r: Result<Vec<u8>, ClientError>)
    ensures
        vstd::utf8::encode_utf8(username@).len() <= 255 && vstd::utf8::encode_utf8(password@).len()
            <= 255 ==> (r matches Ok(bytes) && bytes@ == user_pass_request_bytes(
            vstd::utf8::encode_utf8(username@),
            vstd::utf8::encode_utf8(password@),
        )),
        vstd::utf8::encode_utf8(username@).len() > 255 || vstd::utf8::encode_utf8(password@).len()
            > 255 ==> (r matches Err(ClientError::Protocol(ProtocolError::FieldTooLong))),
{
    let credentials = UserPassRequest {
        username: vstd::slice::slice_to_vec(username.as_bytes()),
        password: vstd::slice::slice_to_vec(password.as_bytes()),
    };
    match credentials.encode() {
        Ok(bytes) => Ok(bytes),
        Err(error) => Err(ClientError::Protocol(error)),
    }
}

/// The proxy's answer to the credentials.
///
/// # Errors
/// `AuthRejected` unless the status is success.
pub fn check_auth_response(response: UserPassResponse) -> (r: Result<(), ClientError>)
    ensures
        response.status == AUTH_STATUS_SUCCESS <==> r is Ok,
        r is Err ==> (r matches Err(ClientError::AuthRejected)),
{
    if !response.is_success() {
        return Err(ClientError::AuthRejected);
    }
    Ok(())
}

/// The `CONNECT` request for `target`.
///
/// # Errors
/// A domain name longer than 255 bytes.
pub fn client_connect_request(target: &TargetAddr) -> (r: Result<Vec<u8>, ClientError>)
    ensures
        fits_wire(target@) ==> (r matches Ok(bytes) && bytes@ == request_bytes(
            RequestView { command: Command::Connect, target: target@ },
        )),
        !fits_wire(target@) ==> (r matches Err(ClientError::Protocol(ProtocolError::FieldTooLong))),
{
    let request = Request { command: Command::Connect, target: target.clone() };
    assert(request.target@ == target@);
    match request.encode() {
        Ok(bytes) => Ok(bytes),
        Err(error) => Err(ClientError::Protocol(error)),
    }
}

/// The proxy's reply to `CONNECT`: the handshake succeeded when the code is `Succeeded`.
///
/// # Errors
/// `RequestRejected` with the code the proxy answered.
pub fn check_reply(reply: Reply) -> (r: Result<Reply, ClientError>)
    ensures
        reply.code == ReplyCode::Succeeded ==> r == Ok::<Reply, ClientError>(reply),
        reply.code != ReplyCode::Succeeded ==> (r matches Err(ClientError::RequestRejected(c))
            && c == reply.code),
{
    if reply.code != ReplyCode::Succeeded {
        return Err(ClientError::RequestRejected(reply.code));
    }
    Ok(reply)
}

} // verus!
