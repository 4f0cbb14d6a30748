//! The bridge's error type, its HTTP status and its client-format error body.

use vstd::prelude::*;
use vstd::string::*;

use crate::json::{Json, JsonValue};
use crate::text::{concat2, decimal_string};

verus! {

#[derive(Debug, PartialEq, Eq)]
pub enum BridgeError {
    BadRequest(String),
    Unauthorized(String),
    UnknownModel(String),
    NotFound(String),
    Conflict(String),
    Upstream { status: u16, message: String },
    UpstreamUnreachable(String),
    NotImplemented(String),
    Internal(String),
}

/// The model of a `BridgeError`.
pub enum ErrorView {
    BadRequest(Seq<char>),
    Unauthorized(Seq<char>),
    UnknownModel(Seq<char>),
    NotFound(Seq<char>),
    Conflict(Seq<char>),
    Upstream { status: u16, message: Seq<char> },
    UpstreamUnreachable(Seq<char>),
    NotImplemented(Seq<char>),
    Internal(Seq<char>),
}

impl View for BridgeError {
    type V = ErrorView;

    open spec fn view(&self) -> ErrorView {
        match *self {
            BridgeError::BadRequest(m) => ErrorView::BadRequest(m@),
            BridgeError::Unauthorized(m) => ErrorView::Unauthorized(m@),
            BridgeError::UnknownModel(m) => ErrorView::UnknownModel(m@),
            BridgeError::NotFound(m) => ErrorView::NotFound(m@),
            BridgeError::Conflict(m) => ErrorView::Conflict(m@),
            BridgeError::Upstream { status, message } => ErrorView::Upstream {
                status,
                message: message@,
            },
            BridgeError::UpstreamUnreachable(m) => ErrorView::UpstreamUnreachable(m@),
            BridgeError::NotImplemented(m) => ErrorView::NotImplemented(m@),
            BridgeError::Internal(m) => ErrorView::Internal(m@),
        }
    }
}

impl ErrorView {
    /// The HTTP status the error is answered with. A status that an upstream gave
    /// is passed on where it is a three-digit one.
    pub open spec fn http_status(self) -> u16 {
        match self {
            ErrorView::BadRequest(_) => 400,
            ErrorView::UnknownModel(_) => 400,
            ErrorView::Unauthorized(_) => 401,
            ErrorView::NotFound(_) => 404,
            ErrorView::Conflict(_) => 409,
            ErrorView::Upstream { status, .. } => if 100 <= status < 1000 {
                status
            } else {
                502
            },
            ErrorView::UpstreamUnreachable(_) => 502,
            ErrorView::NotImplemented(_) => 501,
            ErrorView::Internal(_) => 500,
        }
    }

    /// The error in words.
    pub open spec fn text(self) -> Seq<char> {
        match self {
            ErrorView::BadRequest(m) => "bad request: "@ + m,
            ErrorView::Unauthorized(m) => "unauthorized: "@ + m,
            ErrorView::UnknownModel(m) => "unknown model: "@ + m,
            ErrorView::NotFound(m) => "not found: "@ + m,
            ErrorView::Conflict(m) => "conflict: "@ + m,
            ErrorView::Upstream { status, message } => "upstream error ("@ + crate::text::decimal(
                status as nat,
            ) + "): "@ + message,
            ErrorView::UpstreamUnreachable(m) => "upstream unreachable: "@ + m,
            ErrorView::NotImplemented(m) => "not implemented: "@ + m,
            ErrorView::Internal(m) => "internal error: "@ + m,
        }
    }

    /// The body the error is answered with.
    pub open spec fn body(self) -> Json {
        Json::obj().with(
            "error"@,
            Json::obj().with("message"@, Json::Str(self.text())).with(
                "type"@,
                Json::Str("bridge_error"@),
            ),
        )
    }
}

impl BridgeError {
    pub fn http_status(&self) -> (r: u16)
        ensures
            r == self@.http_status(),
    {
        match self {
            BridgeError::BadRequest(_) | BridgeError::UnknownModel(_) => 400,
            BridgeError::Unauthorized(_) => 401,
            BridgeError::NotFound(_) => 404,
            BridgeError::Conflict(_) => 409,
            BridgeError::Upstream { status, .. } => if 100 <= *status && *status < 1000 {
                *status
            } else {
                502
            },
            BridgeError::UpstreamUnreachable(_) => 502,
            BridgeError::NotImplemented(_) => 501,
            BridgeError::Internal(_) => 500,
        }
    }

    /// The error in words.
    pub fn to_text(&self) -> (r: String)
        ensures
            r@ == self@.text(),
    {
        match self {
            BridgeError::BadRequest(m) => concat2("bad request: ", m.as_str()),
            BridgeError::Unauthorized(m) => concat2("unauthorized: ", m.as_str()),
            BridgeError::UnknownModel(m) => concat2("unknown model: ", m.as_str()),
            BridgeError::NotFound(m) => concat2("not found: ", m.as_str()),
            BridgeError::Conflict(m) => concat2("conflict: ", m.as_str()),
            BridgeError::Upstream { status, message } => {
                let mut s = concat2("upstream error (", decimal_string(*status as u64).as_str());
                s.append("): ");
                s.append(message.as_str());
                s
            },
            BridgeError::UpstreamUnreachable(m) => concat2("upstream unreachable: ", m.as_str()),
            BridgeError::NotImplemented(m) => concat2("not implemented: ", m.as_str()),
            BridgeError::Internal(m) => concat2("internal error: ", m.as_str()),
        }
    }

    /// The JSON body the error is answered with.
    pub fn body(&self) -> (r: JsonValue)
        ensures
            r@ == self@.body(),
    {
        let text = self.to_text();
        JsonValue::obj().with(
            "error",
            JsonValue::obj().with("message", JsonValue::String(text)).with(
                "type",
                JsonValue::str("bridge_error"),
            ),
        )
    }
}

impl BridgeError {
    pub fn bad_request(message: &str) -> (r: BridgeError)
        ensures
            r@ == ErrorView::BadRequest(message@),
    {
        BridgeError::BadRequest(message.to_owned())
    }
}

/// Whatever went wrong, the answer is a proper HTTP status.
pub proof fn errors_have_three_digit_statuses(e: ErrorView)
    ensures
        100 <= e.http_status() < 1000,
{
}

} // verus!
