//! Protocol core of a small HTTP/1.1 server.
//!
//! The decoder ([`decode`]) turns the bytes of a connection into a request,
//! the encoder ([`encode`]) turns a response into bytes, and a connection
//! ([`connection`]) decides between the two what to do next: read on,
//! dispatch a request, write a response, or close. The handlers ([`cc`])
//! answer the requests that the server knows.
//!
//! Nothing here reads or writes: the caller performs each action and reports
//! what came of it.

pub mod buffer;
pub mod cc;
pub mod connection;
pub mod decimal;
pub mod decode;
pub mod encode;
pub mod h1;
pub mod headers;
pub mod text;
