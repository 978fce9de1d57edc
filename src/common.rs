//! A lenient header dictionary, and the protocol types the simple request uses.
pub mod header;

pub use crate::http::url::URL;
pub use crate::http::version::Version;
