//! The wire types of HTTP/1.1: requests, responses, and what they are made
//! of, each with its mathematical model.

pub use crate::decode::decode_http_request;
use crate::headers::{Fields, Headers};
use vstd::prelude::*;

verus! {

/// The request methods that are served.
#[derive(Debug, Copy, Clone, PartialEq, Eq, Structural)]
pub enum Method {
    Get,
    Post,
}

/// How the body of a response is coded on the wire.
#[derive(Debug, Copy, Clone, PartialEq, Eq, Structural)]
pub enum Encoding {
    Identity,
    Gzip,
}

/// What a response carries.
#[derive(Debug)]
pub enum Content {
    Text(String),
    Bytes(Vec<u8>),
    Empty,
}

/// The model of a [`Content`].
pub enum ContentView {
    Text(Seq<char>),
    Bytes(Seq<u8>),
    Empty,
}

impl View for Content {
    type V = ContentView;

    open spec fn view(&self) -> ContentView {
        match self {
            Content::Text(text) => ContentView::Text(text@),
            Content::Bytes(bytes) => ContentView::Bytes(bytes@),
            Content::Empty => ContentView::Empty,
        }
    }
}

/// A request as it was read from the wire.
#[derive(Debug)]
pub struct Request {
    pub method: Method,
    /// Path and query, as they were sent.
    pub uri: String,
    pub headers: Headers,
    /// The bytes that followed the header block, where the request has any.
    pub body: Option<Vec<u8>>,
}

/// The model of a [`Request`].
pub struct RequestView {
    pub method: Method,
    pub uri: Seq<char>,
    pub headers: Fields,
    pub body: Option<Seq<u8>>,
}

impl View for Request {
    type V = RequestView;

    open spec fn view(&self) -> RequestView {
        RequestView {
            method: self.method,
            uri: self.uri@,
            headers: self.headers@,
            body: match self.body {
                Some(bytes) => Some(bytes@),
                None => None,
            },
        }
    }
}

/// A response before it is written to the wire.
#[derive(Debug)]
pub struct Response {
    pub status: u16,
    pub headers: Headers,
    pub content: Content,
    pub encoding: Encoding,
}

/// The model of a [`Response`].
pub struct ResponseView {
    pub status: u16,
    pub headers: Fields,
    pub content: ContentView,
    pub encoding: Encoding,
}

impl View for Response {
    type V = ResponseView;

    open spec fn view(&self) -> ResponseView {
        ResponseView {
            status: self.status,
            headers: self.headers@,
            content: self.content@,
            encoding: self.encoding,
        }
    }
}

impl ResponseView {
    /// The response with that status and content, no header fields of its
    /// own, and a body that is sent as it is.
    pub open spec fn plain(status: u16, content: ContentView) -> ResponseView {
        ResponseView { status, headers: Fields::empty(), content, encoding: Encoding::Identity }
    }
}

impl Response {
    /// A response with that status and content, no header fields of its own,
    /// and a body that is sent as it is.
    pub fn new(status: u16, content: Content) -> (r: Response)
        ensures
            r@ == ResponseView::plain(status, content@),
    {
        Response { status, headers: Headers::new(), content, encoding: Encoding::Identity }
    }
}

/// Why a header block could not be decoded.
#[derive(Debug)]
pub enum DecodeHttpError {
    /// The bytes hold no blank line yet: the header block is not complete.
    MissingHeaderTerminator,
    /// The header block is not text, its first line has fewer than three
    /// words, or a later line has no colon.
    MalformedHeaderLine,
    /// The method, given here as it was sent, is not one that is served.
    UnsupportedMethod(String),
}

/// The model of a [`DecodeHttpError`].
pub enum DecodeFailure {
    MissingHeaderTerminator,
    MalformedHeaderLine,
    UnsupportedMethod(Seq<char>),
}

impl View for DecodeHttpError {
    type V = DecodeFailure;

    open spec fn view(&self) -> DecodeFailure {
        match self {
            DecodeHttpError::MissingHeaderTerminator => DecodeFailure::MissingHeaderTerminator,
            DecodeHttpError::MalformedHeaderLine => DecodeFailure::MalformedHeaderLine,
            DecodeHttpError::UnsupportedMethod(token) => DecodeFailure::UnsupportedMethod(token@),
        }
    }
}

} // verus!
