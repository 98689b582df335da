//! What can go wrong between a request and its answer.
use vstd::prelude::*;
use crate::text::{joined, owned};
use crate::wire::ApiErrorBody;

verus! {

#[derive(Debug, PartialEq, Eq)]
pub enum AiError {
    /// The network failed after the last retry.
    Connection,
    /// No response came before the deadline.
    ConnectionTimeout,
    /// A response other than success.
    Api {
        status: u16,
        message: String,
        body: Option<ApiErrorBody>,
        request_id: Option<String>,
    },
    /// The caller cancelled the request.
    Aborted,
    /// No credential was found.
    Auth(String),
    /// The response body is not of the expected shape.
    Decode(String),
    /// The stream of events ended without a terminal one.
    StreamEnded,
}

/// The message of an error.
pub open spec fn error_text(e: AiError) -> Seq<char> {
    match e {
        AiError::Connection => "Connection error."@,
        AiError::ConnectionTimeout => "Request timed out."@,
        AiError::Api { status: _, message, body: _, request_id: _ } => message@,
        AiError::Aborted => "Request was aborted."@,
        AiError::Auth(s) => "auth: "@ + s@,
        AiError::Decode(s) => "invalid response: "@ + s@,
        AiError::StreamEnded => "stream ended without a final result"@,
    }
}

impl AiError {
    pub fn to_text(&self) -> (r: String)
        ensures
            r@ == error_text(*self),
    {
        match self {
            AiError::Connection => owned("Connection error."),
            AiError::ConnectionTimeout => owned("Request timed out."),
            AiError::Api { status: _, message, body: _, request_id: _ } => message.clone(),
            AiError::Aborted => owned("Request was aborted."),
            AiError::Auth(s) => joined("auth: ", s.as_str()),
            AiError::Decode(s) => joined("invalid response: ", s.as_str()),
            AiError::StreamEnded => owned("stream ended without a final result"),
        }
    }
}

/// Every error says what it is, and one of the service what the service said.
pub proof fn law_errors_say_what_they_are(status: u16, message: String, body: Option<ApiErrorBody>, request_id: Option<String>, t: String)
    ensures
        error_text(AiError::Api { status, message, body, request_id }) == message@,
        error_text(AiError::Auth(t)) == "auth: "@ + t@,
        error_text(AiError::Decode(t)) == "invalid response: "@ + t@,
        error_text(AiError::Aborted) == "Request was aborted."@,
        error_text(AiError::Connection) == "Connection error."@,
        error_text(AiError::ConnectionTimeout) == "Request timed out."@,
        error_text(AiError::StreamEnded) == "stream ended without a final result"@,
{
}

} // verus!
