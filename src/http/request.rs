//! Requests, parsed from the bytes read off a connection.
use crate::http::body::Body;
use crate::http::header::{lines_after_first, parse_lines, Header, HeaderModel};
use crate::http::method::{method_of, Method};
use crate::http::url::{valid_path, URL};
use crate::http::version::Version;
use crate::text::{
    chars_of, find_blank, first_blank, first_three_words, has_blank, lemma_first_blank,
    lemma_first_line_prefix, lemma_split_crlf_nonempty,
    pieces_of, split_crlf, split_crlf_bounds, split_on,
};
use vstd::prelude::*;
use vstd::string::StringSliceAdditionalSpecFns;
use vstd::utf8::{decode_utf8, encode_utf8, valid_utf8};

verus! {

/// A request that could not be parsed.
#[derive(Debug, Clone, Copy, PartialEq, Eq, Structural)]
pub struct InvalidHttpRequestError();

impl InvalidHttpRequestError {
    pub fn to_string(&self) -> (r: String)
        ensures
            r@ == "Invalid Http Request!"@,
    {
        "Invalid Http Request!".to_owned()
    }
}

/// A parsed request.
#[derive(Debug)]
pub struct Request {
    pub method: Method,
    pub url: URL,
    pub http_version: Version,
    pub header: Header,
    pub body: Body,
}

/// The request head and the body: what comes before and after the first blank line.
/// Without a blank line, all of `s` is the head and the body is empty.
pub open spec fn head_and_body(s: Seq<char>) -> (Seq<char>, Seq<char>) {
    if has_blank(s) {
        (s.take(first_blank(s)), s.skip(first_blank(s) + 4))
    } else {
        (s, Seq::empty())
    }
}

/// The method, path, header fields and body text of the request that `s` holds, or
/// `None` where any step fails: the request line needs three words, a known method,
/// a path starting with `/` and `HTTP/1.1`; each further line of the head must be a
/// header line.
pub open spec fn parse_request(s: Seq<char>) -> Option<(Method, Seq<char>, HeaderModel, Seq<char>)> {
    let (head, body) = head_and_body(s);
    let lines = split_crlf(head);
    let w = split_on(lines[0], ' ');
    if w.len() < 3 || method_of(w[0]) is None || !valid_path(w[1]) || w[2] != "HTTP/1.1"@ {
        None
    } else {
        match parse_lines(Seq::empty(), lines.drop_first()) {
            None => None,
            Some(m) => Some((method_of(w[0]).unwrap(), w[1], m, body)),
        }
    }
}

/// What `String::from_utf8_lossy` makes of the bytes `b`.
pub uninterp spec fn lossy_utf8(b: Seq<u8>) -> Seq<char>;

/// Relies on `String::from_utf8_lossy`: the text depends on the bytes alone, and
/// bytes that are valid UTF-8 come back as the text they encode.
#[verifier::external_body]
fn decode_lossy(b: &[u8]) -> (r: String)
    ensures
        r@ == lossy_utf8(b@),
        valid_utf8(b@) ==> r@ == decode_utf8(b@),
{
    String::from_utf8_lossy(b).into_owned()
}

/// The lines of `s[..hi]`.
fn all_lines<'a>(s: &'a str, cs: &Vec<char>, hi: usize) -> (lines: Vec<&'a str>)
    requires
        cs@ == s@,
        hi <= cs.len(),
    ensures
        lines@.map_values(|l: &str| l@) == split_crlf(s@.take(hi as int)),
{
    let ranges = split_crlf_bounds(cs, 0, hi);
    assert(cs@.subrange(0, hi as int) =~= s@.take(hi as int));
    let mut lines: Vec<&str> = Vec::new();
    let mut i: usize = 0;
    while i < ranges.len()
        invariant
            i <= ranges.len(),
            cs@ == s@,
            hi <= cs.len(),
            forall|k: int| 0 <= k < ranges.len() ==> 0 <= (#[trigger] ranges@[k]).0 <= ranges@[k].1 <= hi,
            lines@.map_values(|l: &str| l@) == pieces_of(cs@, ranges@).take(i as int),
        decreases ranges.len() - i,
    {
        let (x, y) = ranges[i];
        let ghost before = lines@;
        let piece = s.substring_char(x, y);
        lines.push(piece);
        assert(lines@ == before.push(piece));
        assert(pieces_of(cs@, ranges@)[i as int] == piece@);
        assert(lines@.map_values(|l: &str| l@) =~= before.map_values(|l: &str| l@).push(piece@));
        assert(pieces_of(cs@, ranges@).take(i + 1) =~= pieces_of(cs@, ranges@).take(
            i as int,
        ).push(piece@));
        i = i + 1;
    }
    assert(pieces_of(cs@, ranges@).take(i as int) =~= pieces_of(cs@, ranges@));
    lines
}

/// The lines of the request head and the body text.
fn split_request<'a>(s: &'a str) -> (r: (Vec<&'a str>, &'a str))
    ensures
        r.0@.map_values(|l: &str| l@) == split_crlf(head_and_body(s@).0),
        r.0.len() >= 1,
        r.1@ == head_and_body(s@).1,
{
    let cs = chars_of(s);
    let n = cs.len();
    let nb = find_blank(&cs);
    let (head_end, body_start) = if nb < n {
        (nb, nb + 4)
    } else {
        (n, n)
    };
    assert(s@.take(n as int) =~= s@);
    assert(s@.skip(n as int) =~= Seq::<char>::empty());
    let body_str = s.substring_char(body_start, n);
    let lines = all_lines(s, &cs, head_end);
    proof {
        lemma_split_crlf_nonempty(s@.take(head_end as int));
        assert(body_str@ =~= s@.skip(body_start as int));
        assert(lines@.map_values(|l: &str| l@).len() == lines@.len());
    }
    (lines, body_str)
}

impl Request {
    pub fn new(method: Method, url: URL, http_version: Version, header: Header, body: Body) -> (r:
        Request)
        ensures
            r.method == method,
            r.url == url,
            r.http_version == http_version,
            r.header == header,
            r.body == body,
    {
        Request { method, url, http_version, header, body }
    }

    /// The header fields of the head lines after the request line.
    fn create_header(header_lines: Vec<&str>) -> (r: Result<Header, InvalidHttpRequestError>)
        requires
            header_lines.len() >= 1,
        ensures
            match r {
                Ok(h) => h.wf() && parse_lines(
                    Seq::empty(),
                    header_lines@.map_values(|l: &str| l@).drop_first(),
                ) == Some(h@),
                Err(_) => parse_lines(
                    Seq::empty(),
                    header_lines@.map_values(|l: &str| l@).drop_first(),
                ) is None,
            },
    {
        let rest = lines_after_first(&header_lines);
        match Header::from_lines(rest) {
            Ok(h) => Ok(h),
            Err(_) => Err(InvalidHttpRequestError()),
        }
    }

    fn create_method(method: &str) -> (r: Result<Method, InvalidHttpRequestError>)
        ensures
            r == match method_of(method@) {
                Some(m) => Ok(m),
                None => Err(InvalidHttpRequestError()),
            },
    {
        match Method::from_str(method) {
            Ok(m) => Ok(m),
            Err(_) => Err(InvalidHttpRequestError()),
        }
    }

    fn create_url(url: &str) -> (r: Result<URL, InvalidHttpRequestError>)
        ensures
            valid_path(url@) <==> r is Ok,
            r is Ok ==> r->Ok_0.path@ == url@,
    {
        match URL::from_str(url) {
            Ok(u) => Ok(u),
            Err(_) => Err(InvalidHttpRequestError()),
        }
    }

    fn create_http_version(http_version: &str) -> (r: Result<Version, InvalidHttpRequestError>)
        ensures
            r == if http_version@ == "HTTP/1.1"@ {
                Ok(Version::V1P1)
            } else {
                Err(InvalidHttpRequestError())
            },
    {
        match Version::from_str(http_version) {
            Ok(v) => Ok(v),
            Err(_) => Err(InvalidHttpRequestError()),
        }
    }

    fn create_body(body: &str) -> (r: Result<Body, InvalidHttpRequestError>)
        ensures
            r is Ok && r->Ok_0@ == body.spec_bytes(),
    {
        Ok(Body::from_str(body))
    }

    /// Parses a request (see `parse_request`); the body is the UTF-8 encoding of the
    /// text after the first blank line.
    pub fn from_str(s: &str) -> (r: Result<Request, InvalidHttpRequestError>)
        ensures
            r is Ok <==> parse_request(s@) is Some,
            r is Ok ==> {
                let q = r->Ok_0;
                let p = parse_request(s@).unwrap();
                &&& q.method == p.0
                &&& q.url.path@ == p.1
                &&& q.http_version == Version::V1P1
                &&& q.header.wf()
                &&& q.header@ == p.2
                &&& q.body@ == encode_utf8(p.3)
            },
    {
        let (lines, body_str) = split_request(s);
        let (m, u, v) = match first_three_words(lines[0]) {
            None => {
                return Err(InvalidHttpRequestError());
            },
            Some(w) => w,
        };
        let method = match Request::create_method(m) {
            Ok(x) => x,
            Err(e) => {
                return Err(e);
            },
        };
        let url = match Request::create_url(u) {
            Ok(x) => x,
            Err(e) => {
                return Err(e);
            },
        };
        let http_version = match Request::create_http_version(v) {
            Ok(x) => x,
            Err(e) => {
                return Err(e);
            },
        };
        let header = match Request::create_header(lines) {
            Ok(x) => x,
            Err(e) => {
                return Err(e);
            },
        };
        let body = match Request::create_body(body_str) {
            Ok(x) => x,
            Err(e) => {
                return Err(e);
            },
        };
        Ok(Request::new(method, url, http_version, header, body))
    }

    /// Parses the bytes read off a connection, decoded as UTF-8 with invalid
    /// sequences replaced.
    pub fn from_bytes(buf: &[u8]) -> (r: Result<Request, InvalidHttpRequestError>)
        ensures
            r is Ok <==> parse_request(lossy_utf8(buf@)) is Some,
            r is Ok ==> {
                let q = r->Ok_0;
                let p = parse_request(lossy_utf8(buf@)).unwrap();
                &&& q.method == p.0
                &&& q.url.path@ == p.1
                &&& q.http_version == Version::V1P1
                &&& q.header.wf()
                &&& q.header@ == p.2
                &&& q.body@ == encode_utf8(p.3)
            },
            valid_utf8(buf@) ==> (r is Ok <==> parse_request(decode_utf8(buf@)) is Some),
    {
        let text = decode_lossy(buf);
        Request::from_str(text.as_str())
    }
}

impl Default for Request {
    /// `GET /` over `HTTP/1.1`, with no header fields and an empty body.
    fn default() -> (r: Request)
        ensures
            r.method == Method::GET,
            r.url.path@ == "/"@,
            r.http_version == Version::V1P1,
            r.header@ == Seq::<(Seq<char>, Seq<Seq<char>>)>::empty(),
            r.body@ == Seq::<u8>::empty(),
    {
        Request::new(Method::GET, URL::new("/"), Version::V1P1, Header::new(), Body::new(Vec::new()))
    }
}

/// Only `HTTP/1.1` is understood: a text whose first line has a third word other than
/// that does not parse, whatever follows.
pub proof fn lemma_other_version_rejected(s: Seq<char>)
    requires
        split_on(split_crlf(s)[0], ' ').len() >= 3,
        split_on(split_crlf(s)[0], ' ')[2] != "HTTP/1.1"@,
    ensures
        parse_request(s) is None,
{
    if has_blank(s) {
        lemma_first_blank(s);
        let f = first_blank(s);
        assert(s =~= s.take(f) + seq!['\r', '\n'] + s.skip(f + 2));
        lemma_first_line_prefix(s.take(f), s.skip(f + 2));
    }
}

} // verus!
