//! The part of an HTTP exchange that the handlers decide on: which method a
//! request came with, and the status, headers and body of the answer.
use vstd::prelude::*;

verus! {

/// The method of a request, as far as routing tells methods apart.
#[derive(Clone, Copy, Debug, PartialEq, Eq, Structural)]
pub enum Method {
    Get,
    Post,
    /// Any method that no route answers.
    Other,
}

/// The statuses this service answers with.
#[derive(Clone, Copy, Debug, PartialEq, Eq, Structural)]
pub enum StatusCode {
    Success,
    PermanentRedirect,
    NotFound,
    InternalServerError,
}

impl StatusCode {
    /// The number sent on the status line.
    pub open spec fn number(self) -> int {
        match self {
            StatusCode::Success => 200,
            StatusCode::PermanentRedirect => 308,
            StatusCode::NotFound => 404,
            StatusCode::InternalServerError => 500,
        }
    }

    /// Whether the status tells the client to go elsewhere.
    pub open spec fn is_redirect(self) -> bool {
        300 <= self.number() < 400
    }

    /// Whether the status reports a failure, the client's or the server's.
    pub open spec fn is_error(self) -> bool {
        400 <= self.number() < 600
    }

    pub fn code(&self) -> (number: u16)
        ensures
            number == self.number(),
    {
        match self {
            StatusCode::Success => 200,
            StatusCode::PermanentRedirect => 308,
            StatusCode::NotFound => 404,
            StatusCode::InternalServerError => 500,
        }
    }
}

/// The media type announced for a body.
#[derive(Clone, Copy, Debug, PartialEq, Eq, Structural)]
pub enum ContentType {
    Json,
}

/// An answer to a request. A header that is `None` is not sent.
#[derive(Clone, Debug, PartialEq, Eq)]
pub struct Response {
    pub status: StatusCode,
    pub content_length: Option<u64>,
    pub content_type: Option<ContentType>,
    pub location: Option<String>,
    pub body: String,
}

/// A response with its texts as character sequences.
pub struct ResponseView {
    pub status: StatusCode,
    pub content_length: Option<u64>,
    pub content_type: Option<ContentType>,
    pub location: Option<Seq<char>>,
    pub body: Seq<char>,
}

impl View for Response {
    type V = ResponseView;

    open spec fn view(&self) -> ResponseView {
        ResponseView {
            status: self.status,
            content_length: self.content_length,
            content_type: self.content_type,
            location: match self.location {
                Some(target) => Some(target@),
                None => None,
            },
            body: self.body@,
        }
    }
}

/// The number of bytes that `text` takes on the wire.
pub open spec fn wire_length(text: Seq<char>) -> nat {
    vstd::utf8::encode_utf8(text).len()
}

/// The `Content-Length` of a body: its length in bytes.
pub fn content_length(body: &str) -> (length: u64)
    ensures
        length == wire_length(body@),
{
    body.as_bytes().len() as u64
}

} // verus!
