//! A small HTTP/1.1 server's message model: header dictionaries, request parsing,
//! response building and the wire format, with the decisions a connection's worker
//! makes between reading and writing.
pub mod common;
pub mod http;
pub mod http_request;
pub mod net;
pub mod text;
