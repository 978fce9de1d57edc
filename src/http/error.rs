//! Errors of the request and header parsers.
use vstd::prelude::*;

verus! {

/// The class of a parse error.
#[derive(Debug, Clone, Copy, PartialEq, Eq, Structural)]
pub enum ErrorKind {
    InvalidInput,
}

/// Why a request line or a header block was refused.
#[derive(Debug, Clone, Copy, PartialEq, Eq, Structural)]
pub enum ParseError {
    /// The text holds no request line followed by a blank line.
    MalformedHeaders,
    InvalidMethod,
    InvalidUrl,
    UnsupportedVersion,
    /// A header line without a colon or without a space.
    InvalidHeaderLine,
}

impl ParseError {
    pub open spec fn message(self) -> Seq<char> {
        match self {
            ParseError::MalformedHeaders => "Couldn't parse headers!"@,
            ParseError::InvalidMethod => "Invalid HTTP method!"@,
            ParseError::InvalidUrl => "Invalid url!"@,
            ParseError::UnsupportedVersion => "HTTP version not supported!"@,
            ParseError::InvalidHeaderLine => "Invalid headers line!"@,
        }
    }

    pub fn kind(&self) -> (r: ErrorKind)
        ensures
            r == ErrorKind::InvalidInput,
    {
        ErrorKind::InvalidInput
    }

    /// The message that describes this error.
    pub fn to_string(&self) -> (r: String)
        ensures
            r@ == self.message(),
    {
        let s: &str = match self {
            ParseError::MalformedHeaders => "Couldn't parse headers!",
            ParseError::InvalidMethod => "Invalid HTTP method!",
            ParseError::InvalidUrl => "Invalid url!",
            ParseError::UnsupportedVersion => "HTTP version not supported!",
            ParseError::InvalidHeaderLine => "Invalid headers line!",
        };
        s.to_owned()
    }
}

} // verus!
