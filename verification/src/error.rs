//! Replies that the gateway gives by itself.

use vstd::prelude::*;

use crate::json::{Json, JsonView};

verus! {

/// A reply with a JSON body.
#[derive(Debug)]
pub struct Reply {
    /// The HTTP status.
    pub status: u16,
    pub body: Json,
}

/// A failure of the gateway, with a message for the client.
#[derive(Debug)]
pub enum GatewayError {
    Unauthorized(String),
    BadGateway(String),
    InternalError(String),
}

impl GatewayError {
    /// The HTTP status of the failure.
    pub open spec fn status(self) -> u16 {
        match self {
            GatewayError::Unauthorized(_) => 401,
            GatewayError::BadGateway(_) => 502,
            GatewayError::InternalError(_) => 500,
        }
    }

    /// The message of the failure.
    pub open spec fn message(self) -> Seq<char> {
        match self {
            GatewayError::Unauthorized(m) => m@,
            GatewayError::BadGateway(m) => m@,
            GatewayError::InternalError(m) => m@,
        }
    }

    /// The reply that reports the failure.
    pub fn into_response(self) -> (r: Reply)
        ensures
            r.status == self.status(),
            r.body@ == error_object(self.message(), "gateway_error"@),
    {
        let (status, message) = match self {
            GatewayError::Unauthorized(m) => (401u16, m),
            GatewayError::BadGateway(m) => (502u16, m),
            GatewayError::InternalError(m) => (500u16, m),
        };
        Reply { status, body: typed_error(message.as_str(), "gateway_error") }
    }
}

/// `{"error": {"message": message, "type": kind}}`
pub open spec fn error_object(message: Seq<char>, kind: Seq<char>) -> JsonView {
    JsonView::Object(
        map!["error"@ => JsonView::Object(
            map!["message"@ => JsonView::Str(message), "type"@ => JsonView::Str(kind)],
        )],
    )
}

/// An error object with a message and a type.
pub fn typed_error(message: &str, kind: &str) -> (r: Json)
    ensures
        r@ == error_object(message@, kind@),
{
    let mut error = Json::object();
    error.set("message", Json::str(message));
    error.set("type", Json::str(kind));
    let mut body = Json::object();
    body.set("error", error);
    body
}

/// `{key: text}`
pub open spec fn text_object(key: Seq<char>, text: Seq<char>) -> JsonView {
    JsonView::Object(map![key => JsonView::Str(text)])
}

/// An object whose one member is a text.
pub fn single_text(key: &str, text: &str) -> (r: Json)
    ensures
        r@ == text_object(key@, text@),
{
    let mut body = Json::object();
    body.set(key, Json::str(text));
    body
}

/// A failure is reported with its status, and with its message and a type in an
/// error object that holds nothing else.
pub proof fn law_error_reported(e: GatewayError, message: Seq<char>, kind: Seq<char>, key: Seq<char>)
    ensures
        e is Unauthorized ==> e.status() == 401 && e.message() == e->Unauthorized_0@,
        e is BadGateway ==> e.status() == 502 && e.message() == e->BadGateway_0@,
        e is InternalError ==> e.status() == 500 && e.message() == e->InternalError_0@,
        error_object(message, kind).member("error"@) is Some,
        ({
            let error = error_object(message, kind).member("error"@)->0;
            &&& error.member("message"@) == Some(JsonView::Str(message))
            &&& error.member("type"@) == Some(JsonView::Str(kind))
            &&& key != "message"@ && key != "type"@ ==> error.member(key) is None
        }),
        key != "error"@ ==> error_object(message, kind).member(key) is None,
{
    reveal_strlit("message");
    reveal_strlit("type");
    assert("message"@.len() != "type"@.len());
}

/// An object of one text has that text under its name and nothing else.
pub proof fn law_text_object(key: Seq<char>, text: Seq<char>, other: Seq<char>)
    requires
        other != key,
    ensures
        text_object(key, text) is Object,
        text_object(key, text).member(key) == Some(JsonView::Str(text)),
        text_object(key, text).member(other) is None,
{
}

} // verus!
