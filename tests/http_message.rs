use server_from_scratch::http::body::Body;
use server_from_scratch::http::error::{ErrorKind, ParseError};
use server_from_scratch::http::header::Header;
use server_from_scratch::http::method::Method;
use server_from_scratch::http::request::{InvalidHttpRequestError, Request};
use server_from_scratch::http::response::{Response, ResponseBuilder};
use server_from_scratch::http::server::{response_bytes, serve_bytes, Handler, ServeError};
use server_from_scratch::http::status::Status;
use server_from_scratch::http::url::URL;
use server_from_scratch::http::version::Version;

#[derive(Clone)]
struct Hello;

impl Handler for Hello {
    fn serve_http(&self, _req: Request) -> std::io::Result<Response> {
        Ok(Response::builder().status(Status::OK).body(b"hi".to_vec()).into())
    }
}

#[derive(Clone)]
struct Failing;

impl Handler for Failing {
    fn serve_http(&self, _req: Request) -> std::io::Result<Response> {
        Err(std::io::Error::new(std::io::ErrorKind::Other, "handler failed"))
    }
}

#[test]
fn add_then_get_returns_the_value() {
    let mut header = Header::new();
    header.add("X-Request-Id", "42");
    assert_eq!(Some(String::from("42")), header.get("X-Request-Id"));
}

#[test]
fn values_come_back_in_insertion_order() {
    let mut header = Header::new();
    header.add("Accept", "c");
    header.add("Accept", "a");
    header.add("Accept", "b");
    assert_eq!(
        Some(vec![String::from("c"), String::from("a"), String::from("b")]),
        header.values("Accept")
    );
    assert_eq!(Some(String::from("c")), header.get("Accept"));
}

#[test]
fn add_refuses_bad_names_and_blank_values() {
    let mut header = Header::new();
    header.add("Bad Key", "v");
    header.add("Bad:Key", "v");
    header.add("Good", "   ");
    header.add("Good", "");
    header.add("", "v");
    assert_eq!(None, header.get("Bad Key"));
    assert_eq!(None, header.get("BadKey"));
    assert_eq!(None, header.get("Bad:Key"));
    assert_eq!(None, header.get("Good"));
    assert_eq!("\r\n", header.to_string());
}

#[test]
fn del_forgets_the_name_when_written() {
    let mut header = Header::new();
    header.add("A", "1");
    header.add("B", "2");
    header.del("A");
    assert_eq!(None, header.values("A"));
    assert_eq!("B: 2\r\n\r\n", header.to_string());
    header.add("A", "3");
    assert_eq!("B: 2\r\nA: 3\r\n\r\n", header.to_string());
}

#[test]
fn round_trip_of_a_parsed_header_block() {
    let lines = vec!["Host: a.com", "Accept: x/y,  z/w ,q", "Empty-Values: ,", "X-Num: 1"];
    let header = Header::from_lines(lines).unwrap();
    let text = header.to_string();
    assert_eq!("Host: a.com\r\nAccept: x/y, z/w, q\r\nX-Num: 1\r\n\r\n", text);
    let written: Vec<&str> = text.trim_end_matches("\r\n").split("\r\n").collect();
    let again = Header::from_lines(written).unwrap();
    for key in ["Host", "Accept", "X-Num", "Empty-Values"] {
        assert_eq!(header.values(key), again.values(key));
    }
    assert_eq!(text, again.to_string());
}

#[test]
fn header_line_without_colon_fails_the_block() {
    let r = Header::from_lines(vec!["Host: a.com", "Bad-Header-Line"]);
    assert_eq!(ParseError::InvalidHeaderLine, r.unwrap_err());
    let r = Header::from_lines(vec!["NoSpace:here"]);
    assert_eq!(ParseError::InvalidHeaderLine, r.unwrap_err());
    let r = Header::from_lines(vec![": value"]);
    assert_eq!(ParseError::InvalidHeaderLine, r.unwrap_err());
}

#[test]
fn header_line_with_space_before_colon_is_skipped() {
    let header = Header::from_lines(vec!["User-Agent Mozilla (rv:81.0)"]).unwrap();
    assert_eq!("\r\n", header.to_string());
}

#[test]
fn parse_error_messages() {
    assert_eq!(ErrorKind::InvalidInput, ParseError::InvalidUrl.kind());
    assert_eq!("Invalid url!", ParseError::InvalidUrl.to_string());
    assert_eq!("Invalid headers line!", ParseError::InvalidHeaderLine.to_string());
    assert_eq!("Invalid Http Request!", InvalidHttpRequestError().to_string());
}

#[test]
fn request_with_host_header_parses() {
    let req = Request::from_str("GET /x HTTP/1.1\r\nHost: a.com\r\n\r\n").unwrap();
    assert_eq!(Method::GET, req.method);
    assert_eq!("/x", req.url.path);
    assert_eq!(Version::V1P1, req.http_version);
    assert_eq!(Some(vec![String::from("a.com")]), req.header.values("Host"));
    assert_eq!(Vec::<u8>::new(), req.body.get());
}

#[test]
fn request_body_is_the_text_after_the_blank_line() {
    let req = Request::from_str("POST /form HTTP/1.1\r\nContent-Length: 7\r\n\r\na=1\r\n\r\nb").unwrap();
    assert_eq!(Method::POST, req.method);
    assert_eq!(b"a=1\r\n\r\nb".to_vec(), req.body.get());
}

#[test]
fn request_with_other_version_fails() {
    assert!(Request::from_str("GET / HTTP/1.0\r\n\r\n").is_err());
    assert_eq!(
        ParseError::UnsupportedVersion,
        Header::from_str("GET / HTTP/1.0\r\n\r\n").unwrap_err()
    );
}

#[test]
fn request_failures() {
    assert!(Request::from_str("").is_err());
    assert!(Request::from_str("GET /\r\n\r\n").is_err());
    assert!(Request::from_str("FETCH / HTTP/1.1\r\n\r\n").is_err());
    assert!(Request::from_str("GET x HTTP/1.1\r\n\r\n").is_err());
    assert!(Request::from_str("GET / HTTP/1.1\r\nBad-Header-Line\r\n\r\n").is_err());
}

#[test]
fn request_from_bytes_replaces_invalid_utf8() {
    let mut buf = b"GET /a HTTP/1.1\r\nX: ".to_vec();
    buf.push(0xff);
    buf.extend_from_slice(b"\r\n\r\n");
    let req = Request::from_bytes(&buf).unwrap();
    assert_eq!("/a", req.url.path);
    assert_eq!(Some(String::from("\u{fffd}")), req.header.get("X"));
}

#[test]
fn methods_parse_by_exact_name() {
    assert_eq!(Method::PATCH, Method::from_str("PATCH").unwrap());
    assert_eq!(Method::OPTIONS, Method::from_str("OPTIONS").unwrap());
    assert_eq!(ParseError::InvalidMethod, Method::from_str("get").unwrap_err());
    assert_eq!(Method::GET, Method::default());
}

#[test]
fn urls_and_versions() {
    assert_eq!("/a/b", URL::from_str("/a/b").unwrap().path);
    assert_eq!(ParseError::InvalidUrl, URL::from_str("a/b").unwrap_err());
    assert_eq!("/", URL::default().path);
    assert_eq!("HTTP/1.1", Version::V1P1.to_string());
    assert_eq!(ParseError::UnsupportedVersion, Version::from_str("HTTP/2").unwrap_err());
}

#[test]
fn body_holds_utf8_bytes() {
    assert_eq!("é".as_bytes().to_vec(), Body::from_str("é").get());
    assert_eq!(Vec::<u8>::new(), Body::default().get());
}

#[test]
fn status_codes_and_reasons() {
    assert_eq!((404, "Not Found"), Status::NotFound.get_code_and_string());
    assert_eq!(511, Status::NetworkAuthenticationRequired.get_code());
    assert_eq!("I'm a teapot".len() > 0, true);
    assert_eq!("Teapot", Status::Teapot.get_string());
    assert_eq!("OK", Status::default().to_string());
}

#[test]
fn response_to_bytes_with_body_hi() {
    let res: Response = Response::builder().status(Status::OK).body(b"hi".to_vec()).into();
    assert_eq!(b"HTTP/1.1 200 OK\r\n\r\nhi".to_vec(), res.to_bytes());
}

#[test]
fn response_head_with_headers_and_status() {
    let res: Response = Response::builder()
        .status(Status::NotFound)
        .header("Content-Type", "text/html")
        .header("Content-Length", "0")
        .into();
    assert_eq!(
        "HTTP/1.1 404 Not Found\r\nContent-Type: text/html\r\nContent-Length: 0\r\n\r\n",
        res.build_headers_string()
    );
}

#[test]
fn response_body_with_content_type_and_length() {
    let rb: ResponseBuilder = Response::builder().body_with_content_type_and_length("/site/index.html", b"<p>x</p>".to_vec());
    let res: Response = rb.into();
    assert_eq!(Some(String::from("text/html")), res.header.get("Content-Type"));
    assert_eq!(Some(String::from("8")), res.header.get("Content-Length"));
    let res: Response = Response::builder().body_with_content_type_and_length("README", vec![0; 1234]).into();
    assert_eq!(Some(String::from("text/plain")), res.header.get("Content-Type"));
    assert_eq!(Some(String::from("1234")), res.header.get("Content-Length"));
}

#[test]
fn serving_a_request_gives_the_handler_response_bytes() {
    let out = serve_bytes(&Hello, b"GET / HTTP/1.1\r\nHost: x\r\n\r\n").unwrap();
    assert_eq!(b"HTTP/1.1 200 OK\r\n\r\nhi".to_vec(), out);
}

#[test]
fn serving_a_malformed_request_sends_nothing() {
    let out = serve_bytes(&Hello, b"GET / HTTP/1.0\r\n\r\n");
    assert!(matches!(out, Err(ServeError::InvalidRequest(_))));
}

#[test]
fn serving_with_a_failing_handler_sends_nothing() {
    let out = serve_bytes(&Failing, b"GET / HTTP/1.1\r\n\r\n");
    assert!(matches!(out, Err(ServeError::Handler(_))));
    let out = response_bytes(Err(std::io::Error::new(std::io::ErrorKind::Other, "x")));
    assert!(matches!(out, Err(ServeError::Handler(_))));
}

#[test]
fn request_in_a_full_read_buffer() {
    let mut buf = vec![0u8; 30000];
    let text = b"GET /big HTTP/1.1\r\nHost: x\r\n\r\n";
    buf[..text.len()].copy_from_slice(text);
    let req = Request::from_bytes(&buf[..text.len()]).unwrap();
    assert_eq!("/big", req.url.path);
    assert_eq!(Vec::<u8>::new(), req.body.get());
    let whole = Request::from_bytes(&buf).unwrap();
    assert_eq!(30000 - text.len(), whole.body.get().len());
    assert!(Request::from_bytes(&vec![0u8; 30000]).is_err());
}

#[test]
fn names_may_hold_unicode_letters_and_digits() {
    let mut header = Header::new();
    header.add("Größe", "42");
    header.add("é", "v");
    header.add("٣-x", "w");
    header.add("a\u{a0}b", "refused");
    assert_eq!(Some(String::from("42")), header.get("Größe"));
    assert_eq!(Some(String::from("v")), header.get("é"));
    assert_eq!(Some(String::from("w")), header.get("٣-x"));
    assert_eq!(None, header.get("a\u{a0}b"));
    let parsed = Header::from_lines(vec!["Größe: 1, 2"]).unwrap();
    assert_eq!(Some(vec![String::from("1"), String::from("2")]), parsed.values("Größe"));
}

#[test]
fn body_with_a_given_content_type() {
    let res: Response = Response::builder()
        .body_with_type_and_length("application/json", b"{}".to_vec())
        .into();
    assert_eq!(
        "HTTP/1.1 200 OK\r\nContent-Type: application/json\r\nContent-Length: 2\r\n\r\n",
        res.build_headers_string()
    );
}
