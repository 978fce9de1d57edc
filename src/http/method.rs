//! Request methods.
use crate::http::error::ParseError;
use crate::text::str_eq;
use vstd::prelude::*;

verus! {

#[derive(Debug, Clone, Copy, PartialEq, Eq, Structural)]
pub enum Method {
    GET,
    HEAD,
    POST,
    PUT,
    DELETE,
    CONNECT,
    OPTIONS,
    TRACE,
    PATCH,
}

/// The method that a request line names, if it is one of the nine known ones.
pub open spec fn method_of(s: Seq<char>) -> Option<Method> {
    if s == "GET"@ {
        Some(Method::GET)
    } else if s == "HEAD"@ {
        Some(Method::HEAD)
    } else if s == "POST"@ {
        Some(Method::POST)
    } else if s == "PUT"@ {
        Some(Method::PUT)
    } else if s == "DELETE"@ {
        Some(Method::DELETE)
    } else if s == "CONNECT"@ {
        Some(Method::CONNECT)
    } else if s == "OPTIONS"@ {
        Some(Method::OPTIONS)
    } else if s == "TRACE"@ {
        Some(Method::TRACE)
    } else if s == "PATCH"@ {
        Some(Method::PATCH)
    } else {
        None
    }
}

impl Default for Method {
    fn default() -> (r: Method)
        ensures
            r == Method::GET,
    {
        Method::GET
    }
}

impl Method {
    /// The method named exactly `s`; any other text is an invalid method.
    pub fn from_str(s: &str) -> (r: Result<Method, ParseError>)
        ensures
            r == match method_of(s@) {
                Some(m) => Ok(m),
                None => Err(ParseError::InvalidMethod),
            },
    {
        if str_eq(s, "GET") {
            Ok(Method::GET)
        } else if str_eq(s, "HEAD") {
            Ok(Method::HEAD)
        } else if str_eq(s, "POST") {
            Ok(Method::POST)
        } else if str_eq(s, "PUT") {
            Ok(Method::PUT)
        } else if str_eq(s, "DELETE") {
            Ok(Method::DELETE)
        } else if str_eq(s, "CONNECT") {
            Ok(Method::CONNECT)
        } else if str_eq(s, "OPTIONS") {
            Ok(Method::OPTIONS)
        } else if str_eq(s, "TRACE") {
            Ok(Method::TRACE)
        } else if str_eq(s, "PATCH") {
            Ok(Method::PATCH)
        } else {
            Err(ParseError::InvalidMethod)
        }
    }
}

} // verus!
