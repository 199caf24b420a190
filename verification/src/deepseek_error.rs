//! Errors raised by the DeepSeek layer.

use vstd::prelude::*;

use crate::text::{decimal, push_str, u64_to_decimal};

verus! {

/// Errors from talking to the DeepSeek API.
#[derive(Debug, Clone, PartialEq, Eq)]
pub enum DeepSeekError {
    /// The SSE framing was malformed (e.g. a data field that is not valid
    /// UTF-8).
    Sse(String),
    /// A payload that does not match the expected protocol shape.
    Protocol(String),
    /// The operation was cancelled.
    Cancelled,
    /// The API answered with a non-success HTTP status.
    Api { status: u16, message: String },
    /// The HTTP transport failed.
    Http(String),
}

/// The display text of a [`DeepSeekError`].
pub open spec fn deepseek_error_text(e: DeepSeekError) -> Seq<char> {
    match e {
        DeepSeekError::Sse(m) => "SSE parse error: "@ + m@,
        DeepSeekError::Protocol(m) => "DeepSeek protocol error: "@ + m@,
        DeepSeekError::Cancelled => "operation cancelled"@,
        DeepSeekError::Api { status, message } =>
            "DeepSeek API error (HTTP "@ + decimal(status as nat) + "): "@ + message@,
        DeepSeekError::Http(m) => "HTTP error: "@ + m@,
    }
}

impl DeepSeekError {
    /// The human-readable message for this error.
    pub fn to_string(&self) -> (r: String)
        ensures
            r@ == deepseek_error_text(*self),
    {
        let mut s = String::new();
        match self {
            DeepSeekError::Sse(m) => {
                push_str(&mut s, "SSE parse error: ");
                push_str(&mut s, m.as_str());
            },
            DeepSeekError::Protocol(m) => {
                push_str(&mut s, "DeepSeek protocol error: ");
                push_str(&mut s, m.as_str());
            },
            DeepSeekError::Cancelled => {
                push_str(&mut s, "operation cancelled");
            },
            DeepSeekError::Api { status, message } => {
                push_str(&mut s, "DeepSeek API error (HTTP ");
                let digits = u64_to_decimal(*status as u64);
                push_str(&mut s, digits.as_str());
                push_str(&mut s, "): ");
                push_str(&mut s, message.as_str());
            },
            DeepSeekError::Http(m) => {
                push_str(&mut s, "HTTP error: ");
                push_str(&mut s, m.as_str());
            },
        }
        s
    }
}

/// The reason phrase the `http` crate knows for a status code
/// (`StatusCode::canonical_reason`), if it knows one.
pub uninterp spec fn canonical_reason_of(code: u16) -> Option<Seq<char>>;

/// The reason phrase of a status code, from `reqwest::StatusCode::from_u16`
/// and `canonical_reason`. Claimed: the result is
/// `canonical_reason_of(code)`.
#[verifier::external_body]
fn canonical_reason(code: u16) -> (r: Option<String>)
    requires
        100 <= code <= 999,
    ensures
        crate::message::opt_str(r) == canonical_reason_of(code),
{
    match reqwest::StatusCode::from_u16(code) {
        Ok(status) => match status.canonical_reason() {
            Some(reason) => Some(reason.to_owned()),
            None => None,
        },
        Err(_) => None,
    }
}

/// How a status code displays: the number and its reason phrase.
pub open spec fn status_text(code: u16) -> Seq<char> {
    decimal(code as nat) + " "@ + match canonical_reason_of(code) {
        Some(reason) => reason,
        None => "<unknown status code>"@,
    }
}

/// The error for a response with a non-success status: the API's own
/// message when its error body could be read, otherwise `HTTP <status>`.
pub fn api_failure(status: u16, message: Option<String>) -> (r: DeepSeekError)
    requires
        100 <= status <= 999,
    ensures
        r matches DeepSeekError::Api { status: s, message: m } && s == status && m@ == match message {
            Some(text) => text@,
            None => "HTTP "@ + status_text(status),
        },
{
    match message {
        Some(text) => DeepSeekError::Api { status, message: text },
        None => {
            let mut text = crate::text::owned("HTTP ");
            let digits = u64_to_decimal(status as u64);
            push_str(&mut text, digits.as_str());
            push_str(&mut text, " ");
            match canonical_reason(status) {
                Some(reason) => push_str(&mut text, reason.as_str()),
                None => push_str(&mut text, "<unknown status code>"),
            }
            DeepSeekError::Api { status, message: text }
        },
    }
}

} // verus!
