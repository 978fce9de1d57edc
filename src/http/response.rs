//! Responses: a builder that accumulates status, header fields and body, and the
//! wire bytes of the result.
use crate::http::body::Body;
use crate::http::header::{add_spec, header_text, Header, HeaderModel};
use crate::http::status::Status;
use crate::http::version::Version;
use crate::text::{decimal, decimal_string};
use vstd::prelude::*;
use vstd::utf8::encode_utf8;

verus! {

/// A response ready to be written.
pub struct Response {
    pub http_version: Version,
    pub status: Status,
    pub header: Header,
    pub body: Body,
}

/// The status line: version, code and reason phrase, then CRLF.
pub open spec fn status_line(v: Version, s: Status) -> Seq<char> {
    v.text() + seq![' '] + decimal(s.code() as nat) + seq![' '] + s.reason() + seq!['\r', '\n']
}

/// What a response with this version, status and header fields sends before its body.
pub open spec fn head_text(v: Version, s: Status, h: HeaderModel) -> Seq<char> {
    status_line(v, s) + header_text(h)
}

impl Default for Response {
    fn default() -> (r: Response)
        ensures
            r.http_version == Version::V1P1,
            r.status == Status::OK,
            r.header.wf(),
            r.header@ == Seq::<(Seq<char>, Seq<Seq<char>>)>::empty(),
            r.body@ == Seq::<u8>::empty(),
    {
        Response {
            http_version: Version::V1P1,
            status: Status::OK,
            header: Header::new(),
            body: Body::new(Vec::new()),
        }
    }
}

impl Response {
    /// A builder that starts from `200 OK`, no header fields and an empty body.
    pub fn builder() -> (r: ResponseBuilder)
        ensures
            r.draft().http_version == Version::V1P1,
            r.draft().status == Status::OK,
            r.draft().header@ == Seq::<(Seq<char>, Seq<Seq<char>>)>::empty(),
            r.draft().body@ == Seq::<u8>::empty(),
    {
        ResponseBuilder(Response::default())
    }

    /// The status line and the header block.
    pub fn build_headers_string(&self) -> (r: String)
        ensures
            r@ == head_text(self.http_version, self.status, self.header@),
    {
        proof {
            use_type_invariant(&self.header);
        }
        proof {
            reveal_strlit(" ");
            reveal_strlit("\r\n");
        }
        let mut r = self.http_version.to_string();
        r.append(" ");
        let code = decimal_string(self.status.get_code() as u64);
        r.append(code.as_str());
        r.append(" ");
        r.append(self.status.get_string());
        r.append("\r\n");
        let h = self.header.to_string();
        r.append(h.as_str());
        assert(" "@ =~= seq![' ']);
        assert("\r\n"@ =~= seq!['\r', '\n']);
        assert(r@ =~= head_text(self.http_version, self.status, self.header@));
        r
    }

    /// The bytes that go on the wire: the UTF-8 head, then the body.
    pub fn to_bytes(self) -> (r: Vec<u8>)
        ensures
            r@ == encode_utf8(head_text(self.http_version, self.status, self.header@))
                + self.body@,
    {
        proof {
            use_type_invariant(&self.header);
        }
        let head = self.build_headers_string();
        let mut res = vstd::slice::slice_to_vec(head.as_str().as_bytes());
        let mut body = self.body.get();
        let ghost b = body@;
        res.append(&mut body);
        res
    }
}

/// A response under construction.
pub struct ResponseBuilder(Response);

impl ResponseBuilder {
    /// The response built so far.
    pub closed spec fn draft(self) -> Response {
        self.0
    }

    pub fn status(self, status: Status) -> (r: Self)
        ensures
            r.draft().status == status,
            r.draft().http_version == self.draft().http_version,
            r.draft().header@ == self.draft().header@,
            r.draft().body@ == self.draft().body@,
    {
        let mut s = self;
        s.0.status = status;
        s
    }

    pub fn body(self, body: Vec<u8>) -> (r: Self)
        ensures
            r.draft().body@ == body@,
            r.draft().status == self.draft().status,
            r.draft().http_version == self.draft().http_version,
            r.draft().header@ == self.draft().header@,
    {
        let mut s = self;
        s.0.body = Body::new(body);
        s
    }

    /// Adds a header field, under the rules of `Header::add`.
    pub fn header(self, key: &str, val: &str) -> (r: Self)
        ensures
            r.draft().header@ == add_spec(self.draft().header@, key@, val@),
            r.draft().status == self.draft().status,
            r.draft().http_version == self.draft().http_version,
            r.draft().body@ == self.draft().body@,
    {
        let mut s = self;
        s.0.header.add(key, val);
        s
    }

    /// Sets the body, with `Content-Type` guessed from the extension of `path`
    /// (`text/plain` where nothing is known for it) and `Content-Length` the number
    /// of bytes.
    pub fn body_with_content_type_and_length(self, path: &str, body: Vec<u8>) -> (r: Self)
        ensures
            r.draft().header@ == add_spec(
                add_spec(self.draft().header@, "Content-Type"@, content_type_for(path@)),
                "Content-Length"@,
                decimal(body@.len()),
            ),
            r.draft().body@ == body@,
            r.draft().status == self.draft().status,
            r.draft().http_version == self.draft().http_version,
    {
        let content_type = match guess_mime(path) {
            Some(m) => m,
            None => "text/plain",
        };
        self.body_with_type_and_length(content_type, body)
    }

    /// Sets the body, with `Content-Type` set to `content_type` and `Content-Length`
    /// the number of bytes.
    pub fn body_with_type_and_length(self, content_type: &str, body: Vec<u8>) -> (r: Self)
        ensures
            r.draft().header@ == add_spec(
                add_spec(self.draft().header@, "Content-Type"@, content_type@),
                "Content-Length"@,
                decimal(body@.len()),
            ),
            r.draft().body@ == body@,
            r.draft().status == self.draft().status,
            r.draft().http_version == self.draft().http_version,
    {
        let len = decimal_string(body.len() as u64);
        let mut s = self;
        s.0.header.add("Content-Type", content_type);
        s.0.header.add("Content-Length", len.as_str());
        s.0.body = Body::new(body);
        s
    }
}

/// The media type that `mime_guess` gives first for a path, by its extension.
pub uninterp spec fn guessed_mime(path: Seq<char>) -> Option<Seq<char>>;

/// The `Content-Type` sent for a file at `path`.
pub open spec fn content_type_for(path: Seq<char>) -> Seq<char> {
    match guessed_mime(path) {
        Some(m) => m,
        None => "text/plain"@,
    }
}

/// Relies on `mime_guess::from_path` and `MimeGuess::first_raw`: the first media type
/// known for the extension of `path`, which depends on the path alone; a path with no
/// dot has no extension, and gets none.
#[verifier::external_body]
fn guess_mime(path: &str) -> (r: Option<&'static str>)
    ensures
        match r {
            Some(m) => guessed_mime(path@) == Some(m@),
            None => guessed_mime(path@) is None,
        },
        !path@.contains('.') ==> r is None,
{
    mime_guess::from_path(path).first_raw()
}

impl From<ResponseBuilder> for Response {
    fn from(rb: ResponseBuilder) -> (r: Response)
        ensures
            r == rb.draft(),
    {
        rb.0
    }
}

impl vstd::std_specs::convert::FromSpecImpl<ResponseBuilder> for Response {
    open spec fn obeys_from_spec() -> bool {
        true
    }

    open spec fn from_spec(rb: ResponseBuilder) -> Response {
        rb.draft()
    }
}

} // verus!
