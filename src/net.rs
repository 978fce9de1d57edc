//! A directory-listing handler that answers with whole HTTP messages.
pub mod file_server;
