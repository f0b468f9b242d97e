//! The response a handler hands back to the host runtime.

use vstd::prelude::*;

verus! {

/// What a handler answers: a status code, an optional content type and the body bytes.
#[derive(Clone, Debug, PartialEq, Eq)]
pub struct Response {
    pub status: u16,
    pub content_type: Option<String>,
    pub body: Vec<u8>,
}

/// The mathematical value of a [`Response`].
pub struct ResponseView {
    pub status: int,
    pub content_type: Option<Seq<char>>,
    pub body: Seq<u8>,
}

impl ResponseView {
    /// Status 200, no content type, no body.
    pub open spec fn ok_empty() -> ResponseView {
        ResponseView { status: 200, content_type: None, body: Seq::empty() }
    }

    /// The status is one of the 2xx codes.
    pub open spec fn is_success(self) -> bool {
        200 <= self.status < 300
    }
}

impl View for Response {
    type V = ResponseView;

    open spec fn view(&self) -> ResponseView {
        ResponseView {
            status: self.status as int,
            content_type: match self.content_type {
                Some(t) => Some(t@),
                None => None,
            },
            body: self.body@,
        }
    }
}

impl Response {
    /// The bare success response: status 200, no content type, empty body.
    pub fn ok() -> (r: Response)
        ensures
            r@ == ResponseView::ok_empty(),
    {
        Response { status: 200, content_type: None, body: Vec::new() }
    }

    /// Whether the status is one of the 2xx codes.
    pub fn is_success(&self) -> (b: bool)
        ensures
            b == self@.is_success(),
    {
        200 <= self.status && self.status < 300
    }
}

} // verus!
