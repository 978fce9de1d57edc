//! A simple request: the request line and lenient header fields, with no body.
use crate::common::header::{lenient_lines, Header};
use crate::text::{chars_of, first_three_words, lemma_split_crlf_nonempty, pieces_of, split_crlf, split_crlf_bounds, split_on};
use crate::http::header::HeaderModel;
use crate::http::method::method_of;
use crate::http::url::valid_path;
use vstd::prelude::*;

pub use crate::http::method::Method;
pub use crate::http::request::InvalidHttpRequestError;
pub use crate::common::{Version, URL};

verus! {

/// A request line and the header fields around it.
#[derive(Debug)]
pub struct Request {
    pub method: Method,
    pub url: URL,
    pub http_version: Version,
    pub header: Header,
}

/// The method, path and header fields that `s` holds, or `None` where its first line
/// is not a valid request line. Every line of `s` is read for header fields.
pub open spec fn parse_simple_request(s: Seq<char>) -> Option<(Method, Seq<char>, HeaderModel)> {
    let w = split_on(split_crlf(s)[0], ' ');
    if w.len() < 3 || method_of(w[0]) is None || !valid_path(w[1]) || w[2] != "HTTP/1.1"@ {
        None
    } else {
        Some((method_of(w[0]).unwrap(), w[1], lenient_lines(Seq::empty(), split_crlf(s))))
    }
}

/// The first line of `s`.
fn first_line(s: &str) -> (r: &str)
    ensures
        r@ == split_crlf(s@)[0],
{
    let cs = chars_of(s);
    let n = cs.len();
    let ranges = split_crlf_bounds(&cs, 0, n);
    assert(cs@.subrange(0, n as int) =~= s@);
    proof {
        lemma_split_crlf_nonempty(s@);
    }
    assert(pieces_of(cs@, ranges@).len() == ranges@.len());
    let (x, y) = ranges[0];
    s.substring_char(x, y)
}

impl Request {
    /// `GET /` over `HTTP/1.1`, with no header fields.
    pub fn new() -> (r: Request)
        ensures
            r.method == Method::GET,
            r.url.path@ == "/"@,
            r.http_version == Version::V1P1,
            r.header@ == Seq::<(Seq<char>, Seq<Seq<char>>)>::empty(),
    {
        Request {
            method: Method::GET,
            url: URL::new("/"),
            http_version: Version::V1P1,
            header: Header::new(),
        }
    }

    /// Parses a request (see `parse_simple_request`).
    pub fn from_str(s: &str) -> (r: Result<Request, InvalidHttpRequestError>)
        ensures
            r is Ok <==> parse_simple_request(s@) is Some,
            r is Ok ==> {
                let q = r->Ok_0;
                let p = parse_simple_request(s@).unwrap();
                &&& q.method == p.0
                &&& q.url.path@ == p.1
                &&& q.http_version == Version::V1P1
                &&& q.header@ == p.2
            },
    {
        let header = match Header::from_str(s) {
            Ok(h) => h,
            Err(_) => {
                return Err(InvalidHttpRequestError());
            },
        };
        let line = first_line(s);
        let (m, u, v) = match first_three_words(line) {
            None => {
                return Err(InvalidHttpRequestError());
            },
            Some(w) => w,
        };
        let method = match Method::from_str(m) {
            Ok(x) => x,
            Err(_) => {
                return Err(InvalidHttpRequestError());
            },
        };
        let url = match URL::from_str(u) {
            Ok(x) => x,
            Err(_) => {
                return Err(InvalidHttpRequestError());
            },
        };
        let http_version = match Version::from_str(v) {
            Ok(x) => x,
            Err(_) => {
                return Err(InvalidHttpRequestError());
            },
        };
        Ok(Request { method, url, http_version, header })
    }
}

impl Default for Request {
    fn default() -> (r: Request)
        ensures
            r.method == Method::GET,
            r.url.path@ == "/"@,
            r.http_version == Version::V1P1,
            r.header@ == Seq::<(Seq<char>, Seq<Seq<char>>)>::empty(),
    {
        Request::new()
    }
}

} // verus!
