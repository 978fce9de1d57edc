//! The HTTP message model: headers, requests, responses and their wire format.
pub mod body;
pub mod error;
pub mod file_server;
pub mod header;
pub mod method;
pub mod request;
pub mod response;
pub mod server;
pub mod status;
pub mod url;
pub mod version;
