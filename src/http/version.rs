//! Protocol versions.
use crate::http::error::ParseError;
use crate::text::str_eq;
use vstd::prelude::*;

verus! {

#[derive(Debug, Clone, Copy, PartialEq, Eq, Structural)]
pub enum Version {
    V1P1,
}

impl Default for Version {
    fn default() -> (r: Version)
        ensures
            r == Version::V1P1,
    {
        Version::V1P1
    }
}

impl Version {
    /// How the version is written on the wire.
    pub open spec fn text(self) -> Seq<char> {
        match self {
            Version::V1P1 => "HTTP/1.1"@,
        }
    }

    /// Only `HTTP/1.1` is understood.
    pub fn from_str(s: &str) -> (r: Result<Version, ParseError>)
        ensures
            r == if s@ == "HTTP/1.1"@ {
                Ok(Version::V1P1)
            } else {
                Err(ParseError::UnsupportedVersion)
            },
    {
        if str_eq(s, "HTTP/1.1") {
            Ok(Version::V1P1)
        } else {
            Err(ParseError::UnsupportedVersion)
        }
    }

    pub fn to_string(&self) -> (r: String)
        ensures
            r@ == self.text(),
    {
        match self {
            Version::V1P1 => "HTTP/1.1".to_owned(),
        }
    }
}

} // verus!
