//! The protocol data types: the requests a client can issue and the
//! responses a server can return, together with their mathematical views.
//!
//! On every connection requests and responses strictly alternate: each
//! request produces exactly one response frame before the next request may
//! be sent.

use vstd::prelude::*;

verus! {

/// One request, as sent by a client.
///
/// For `Scan` the field is a pattern, not a literal key: this library's
/// in-memory engine matches every stored key that the pattern is a prefix
/// of, and other engines may document a different matching rule.
#[derive(Debug)]
pub enum Request {
    Get { key: String },
    Scan { key: String },
    Put { key: String, value: String },
    Remove { key: String },
}

/// One response, as returned by a server.
///
/// `Get(None)` is the absent-key marker; `Scan(..)` may carry an empty list,
/// which is a valid result distinct from an error; `Error(..)` carries a
/// human-readable failure description.
#[derive(Debug)]
pub enum Response {
    Get(Option<String>),
    Scan(Vec<String>),
    Put,
    Remove,
    Error(String),
}

/// The mathematical value of a [`Request`].
pub enum RequestView {
    Get { key: Seq<char> },
    Scan { key: Seq<char> },
    Put { key: Seq<char>, value: Seq<char> },
    Remove { key: Seq<char> },
}

/// The mathematical value of a [`Response`].
pub enum ResponseView {
    Get { value: Option<Seq<char>> },
    Scan { values: Seq<Seq<char>> },
    Put,
    Remove,
    Error { msg: Seq<char> },
}

impl View for Request {
    type V = RequestView;

    open spec fn view(&self) -> RequestView {
        match self {
            Request::Get { key } => RequestView::Get { key: key@ },
            Request::Scan { key } => RequestView::Scan { key: key@ },
            Request::Put { key, value } => RequestView::Put { key: key@, value: value@ },
            Request::Remove { key } => RequestView::Remove { key: key@ },
        }
    }
}

impl View for Response {
    type V = ResponseView;

    open spec fn view(&self) -> ResponseView {
        match self {
            Response::Get(value) => ResponseView::Get { value: value.deep_view() },
            Response::Scan(values) => ResponseView::Scan { values: values.deep_view() },
            Response::Put => ResponseView::Put,
            Response::Remove => ResponseView::Remove,
            Response::Error(msg) => ResponseView::Error { msg: msg@ },
        }
    }
}

} // verus!
