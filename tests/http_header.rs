use server_from_scratch::http::error::ErrorKind;
use server_from_scratch::http::header::Header;

#[test]
fn header_test_get_non_existing_key_should_return_none() {
    let header = Header::new();
    assert_eq!(None, header.get("Host"));
}

#[test]
fn test_add_should_only_add_alphanumeric_keys() {
    let mut header = Header::new();
    let key_val_expected = vec![
        ("", "", None),
        (" ", " ", None),
        ("\n\t\r\n\t", "\n\t\r\n\t", None),
        ("&*@@$^^!", "invalid", None),
        ("still&*@@$invalid^^!", "invalid", None),
        ("valid", "valid", Some(String::from("valid"))),
        (
            "Host",
            "docs.apigee.com",
            Some(String::from("docs.apigee.com")),
        ),
    ];

    key_val_expected
        .iter()
        .for_each(|(key, val, _)| header.add(key, val));
    key_val_expected
        .iter()
        .for_each(|(key, _, expected)| assert_eq!(*expected, header.get(key)));
}

#[test]
fn test_get_with_multiple_values_should_return_first() {
    let mut header = Header::new();
    let (key, vals, expected) = (
        "Accept",
        vec![
            "text/html",
            "application/xhtml+xml",
            "application/xml;q=0.9",
            "image/webp",
            "*/*;q=0.8",
        ],
        String::from("text/html"),
    );

    vals.iter().for_each(|val| header.add(key, val));
    assert_eq!(expected, header.get(key).unwrap());
}

#[test]
fn header_test_del_key_should_delete_asociated_value() {
    let mut header = Header::new();
    let (key, val, expected) = ("Host", "docs.apigee.com", None);
    header.add(key, val);
    header.del(key);
    assert_eq!(expected, header.get(key));
}

#[test]
fn test_del_key_should_delete_all_asociated_values() {
    let mut header = Header::new();
    let (key, vals, expected) = (
        "Accept",
        vec![
            "text/html",
            "application/xhtml+xml",
            "application/xml;q=0.9",
            "image/webp",
            "*/*;q=0.8",
        ],
        None,
    );

    vals.iter().for_each(|val| header.add(key, val));
    header.del(key);
    assert_eq!(expected, header.get(key));
}

#[test]
fn header_test_values_for_non_existing_entry_should_return_none() {
    let header = Header::new();
    let (key, expected) = ("Host", None);
    assert_eq!(expected, header.values(key));
}

#[test]
fn header_test_values_for_existing_key_should_return_vec_with_single_value() {
    let mut header = Header::new();
    let (key, vals, expected) = (
        "Host",
        vec!["docs.apigee.com"],
        Some(vec![String::from("docs.apigee.com")]),
    );

    vals.iter().for_each(|val| header.add(key, val));
    assert_eq!(expected, header.values(key));
}

#[test]
fn header_test_values_for_existing_key_should_return_vec_for_multiple_values() {
    let mut header = Header::new();
    let (key, vals, expected) = (
        "Accept",
        vec![
            "text/html",
            "application/xhtml+xml",
            "application/xml;q=0.9",
            "image/webp",
            "*/*;q=0.8",
        ],
        Some(vec![
            String::from("text/html"),
            String::from("application/xhtml+xml"),
            String::from("application/xml;q=0.9"),
            String::from("image/webp"),
            String::from("*/*;q=0.8"),
        ]),
    );

    vals.iter().for_each(|val| header.add(key, val));
    assert_eq!(expected, header.values(key));
}

#[test]
fn test_from_str_should_return_io_error_on_invalid_input() {
    let vals = vec![
        "",
        "     ",
        "1232392asdljas",
        "\r\n\r\n",
        "     \r\n\r\n",
        "     \r\n\r\nwhatever",
        "1232392asdljas\r\n\r\n",
        "1232392asdljas\r\n\r\nwhatever",
    ];
    let headers = vals.iter().map(|v| Header::from_str(v));
    let expected_err = std::io::Error::new(std::io::ErrorKind::InvalidInput, "Couldn't parse headers!");

    headers.for_each(|h| match h {
        Ok(_) => panic!("Header shouldn't be retrievable!"),
        Err(e) => {
            assert_eq!(e.kind(), ErrorKind::InvalidInput);
            assert_eq!(expected_err.kind(), std::io::ErrorKind::InvalidInput);
            assert_eq!(e.to_string(), expected_err.to_string());
        }
    });
}

#[test]
fn test_from_str_should_return_io_error_on_invalid_method() {
    let header = Header::from_str("UNKNOWN / HTTP/1.1\r\n\r\n");
    let expected_err = std::io::Error::new(std::io::ErrorKind::InvalidInput, "Invalid HTTP method!");

    match header {
        Ok(_) => panic!("Header shouldn't be retrievable!"),
        Err(e) => {
            assert_eq!(e.kind(), ErrorKind::InvalidInput);
            assert_eq!(expected_err.kind(), std::io::ErrorKind::InvalidInput);
            assert_eq!(e.to_string(), expected_err.to_string());
        }
    };
}

#[test]
fn test_from_str_should_return_io_error_on_invalid_url() {
    let header = Header::from_str("GET invalid/ HTTP/1.1\r\n\r\n");
    let expected_err = std::io::Error::new(std::io::ErrorKind::InvalidInput, "Invalid url!");

    match header {
        Ok(_) => panic!("Header shouldn't be retrievable!"),
        Err(e) => {
            assert_eq!(e.kind(), ErrorKind::InvalidInput);
            assert_eq!(expected_err.kind(), std::io::ErrorKind::InvalidInput);
            assert_eq!(e.to_string(), expected_err.to_string());
        }
    };
}

#[test]
fn test_from_str_should_return_io_error_on_unsupported_http_version() {
    let vals = vec![
        "GET / HTTP/1.0\r\n\r\n",
        "POST /valid HTTP/2\r\n\r\n",
        "PUT /valid HTTP/3\r\n\r\n",
    ];
    let headers = vals.iter().map(|v| Header::from_str(v));
    let expected_err = std::io::Error::new(std::io::ErrorKind::InvalidInput, "HTTP version not supported!");

    headers.for_each(|h| match h {
        Ok(_) => panic!("Header shouldn't be retrievable!"),
        Err(e) => {
            assert_eq!(e.kind(), ErrorKind::InvalidInput);
            assert_eq!(expected_err.kind(), std::io::ErrorKind::InvalidInput);
            assert_eq!(e.to_string(), expected_err.to_string());
        }
    });
}

#[test]
fn header_test_from_str_should_skip_first_line() {
    let string = "GET /api-platform/antipatterns/multi-value-http-headers HTTP/1.1\r\n\r\n";
    let header = Header::from_str(string).unwrap();

    assert_eq!(None, header.values("GET"));
}

#[test]
fn header_test_from_str_should_store_header_key_value() {
    let header = Header::from_str(
            "GET /api-platform/antipatterns/multi-value-http-headers HTTP/1.1\r\n\
            Host: docs.apigee.com\r\n\
            User-Agent: Mozilla/5.0 (Macintosh; Intel Mac OS X 10.15; rv:81.0) Gecko/20100101 Firefox/81.0\r\n\r\n"
        ).unwrap();

    let expected = vec![
            ("Host", vec!["docs.apigee.com"]),
            ("User-Agent", vec!["Mozilla/5.0 (Macintosh; Intel Mac OS X 10.15; rv:81.0) Gecko/20100101 Firefox/81.0"]),
        ];

    for (key, values) in expected.iter() {
        let values: Vec<_> = values.iter().map(|s| s.to_string()).collect();
        assert_eq!(values, header.values(key).unwrap());
    }
}

#[test]
fn test_from_str_should_split_add_all_header_values() {
    let header = Header::from_str(
            "GET /api-platform/antipatterns/multi-value-http-headers HTTP/1.1\r\n\
            Host: docs.apigee.com\r\n\
            User-Agent: Mozilla/5.0 (Macintosh; Intel Mac OS X 10.15; rv:81.0) Gecko/20100101 Firefox/81.0\r\n\
            Accept: text/html,application/xhtml+xml,application/xml;q=0.9,image/webp,*/*;q=0.8\r\n\r\n"
        ).unwrap();

    let expected = vec![
            ("Host", Some(vec![String::from("docs.apigee.com")])),
            ("User-Agent", Some(vec![String::from("Mozilla/5.0 (Macintosh; Intel Mac OS X 10.15; rv:81.0) Gecko/20100101 Firefox/81.0")])),
            ("Accept", Some(vec![
                String::from("text/html"),
                String::from("application/xhtml+xml"),
                String::from("application/xml;q=0.9"),
                String::from("image/webp"),
                String::from("*/*;q=0.8")
            ])),
        ];

    expected
        .iter()
        .for_each(|(key, values)| assert_eq!(*values, header.values(key)));
}

#[test]
fn test_to_string_should_return_io_error_on_invalid_line() {
    let header = Header::from_str(
        "GET /api-platform/antipatterns/multi-value-http-headers HTTP/1.1\r\n\
        Host docs.apigee.com\r\n\
        User-Agent Mozilla/5.0 (Macintosh; Intel Mac OS X 10.15; rv:81.0) Gecko/20100101 Firefox/81.0\r\n\
        Accept > text/html, application/xhtml+xml, application/xml;q=0.9, image/webp, */*;q=0.8\r\n\
        Accept-Language< en-US, en;q=0.5\r\n\
        Accept-Encoding: gzip, deflate, br\r\n\
        Referer: https://duckduckgo.com/\r\n\
        Upgrade-Insecure-Requests: 1\r\n\
        Connection: keep-alive\r\n\
        Cookie: django_language=en\r\n\r\n"
    );
    let expected_err = std::io::Error::new(std::io::ErrorKind::InvalidInput, "Invalid headers line!");

    match header {
        Ok(_) => panic!("Header shouldn't be retrievable!"),
        Err(e) => {
            assert_eq!(e.kind(), ErrorKind::InvalidInput);
            assert_eq!(expected_err.kind(), std::io::ErrorKind::InvalidInput);
            assert_eq!(e.to_string(), expected_err.to_string());
        }
    };
}

#[test]
fn header_test_to_string_with_multiple_values() {
    let header = Header::from_str(
        "GET /api-platform/antipatterns/multi-value-http-headers HTTP/1.1\r\n\
        Host: docs.apigee.com\r\n\
        User-Agent: Mozilla/5.0 (Macintosh; Intel Mac OS X 10.15; rv:81.0) Gecko/20100101 Firefox/81.0\r\n\
        Accept: text/html, application/xhtml+xml, application/xml;q=0.9, image/webp, */*;q=0.8\r\n\
        Accept-Language: en-US, en;q=0.5\r\n\
        Accept-Encoding: gzip, deflate, br\r\n\
        Referer: https://duckduckgo.com/\r\n\
        Upgrade-Insecure-Requests: 1\r\n\
        Connection: keep-alive\r\n\
        Cookie: django_language=en\r\n\r\n"
    ).unwrap();

    let expected = "\
        Host: docs.apigee.com\r\n\
        User-Agent: Mozilla/5.0 (Macintosh; Intel Mac OS X 10.15; rv:81.0) Gecko/20100101 Firefox/81.0\r\n\
        Accept: text/html, application/xhtml+xml, application/xml;q=0.9, image/webp, */*;q=0.8\r\n\
        Accept-Language: en-US, en;q=0.5\r\n\
        Accept-Encoding: gzip, deflate, br\r\n\
        Referer: https://duckduckgo.com/\r\n\
        Upgrade-Insecure-Requests: 1\r\n\
        Connection: keep-alive\r\n\
        Cookie: django_language=en\r\n\r\n";

    let header_string = header.to_string();
    assert_eq!(expected, header_string);
}
