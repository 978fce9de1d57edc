use server_from_scratch::common::header::Header;
use server_from_scratch::http_request::{Method, Request};

#[test]
fn simple_request_reads_line_and_headers() {
    let req = Request::from_str("PUT /upload HTTP/1.1\r\nHost: a.com\r\nAccept: a, b\r\n").unwrap();
    assert_eq!(Method::PUT, req.method);
    assert_eq!("/upload", req.url.path);
    assert_eq!(Some(vec![String::from("a"), String::from("b")]), req.header.values("Accept"));
}

#[test]
fn simple_request_refuses_a_bad_line() {
    assert!(Request::from_str("PUT /upload\r\n").is_err());
    assert!(Request::from_str("PUT upload HTTP/1.1\r\n").is_err());
    assert_eq!(Method::GET, Request::new().method);
}

#[test]
fn lenient_header_cleans_names() {
    let mut header = Header::new();
    header.add("Con tent:Type", "x");
    assert_eq!(Some(String::from("x")), header.get("ContentType"));
    assert_eq!(Some(String::from("x")), header.get("  ContentType "));
    header.del(" ContentType");
    assert_eq!(None, header.get("ContentType"));
}

#[test]
fn lenient_header_keeps_unicode_letters() {
    let mut header = Header::new();
    header.add("Grö ße", "x");
    assert_eq!(Some(String::from("x")), header.get("Größe"));
}
