use server_from_scratch::http::file_server::FileServer;
use server_from_scratch::net::file_server::FileServer as ListingServer;

#[test]
fn template_wraps_the_body() {
    let site = FileServer::new("/srv");
    let page = site.html_template(String::from("<p>x</p>"));
    assert!(page.starts_with("<!DOCTYPE html><html lang=\"en\"><head>"));
    assert!(page.ends_with("<body><p>x</p></body></html>"));
}

#[test]
fn listing_of_the_root_has_no_back_link() {
    let site = FileServer::new("/srv");
    let body = site.build_body(
        String::from("/"),
        String::from("/"),
        vec![String::from("/a.txt"), String::from("/b")],
    );
    assert_eq!(
        "<h3>/srv</h3><ul><li><a href=\"/a.txt\">/a.txt</a></li><li><a href=\"/b\">/b</a></li></ul>",
        body
    );
}

#[test]
fn listing_of_a_subdirectory_links_back() {
    let site = FileServer::new("/srv");
    let body = site.build_body(String::from("/docs"), String::from("/"), vec![String::from("/x")]);
    assert_eq!(
        "<h3>/srv/docs</h3><a href=\"/\">Back</a><ul><li><a href=\"/docs/x\">/x</a></li></ul>",
        body
    );
}

#[test]
fn parent_path_below_the_root() {
    let site = FileServer::new("/srv");
    assert_eq!("/docs", site.get_parent_path("/srv/docs"));
    assert_eq!("/", site.get_parent_path("/srv"));
    assert_eq!("/", site.get_parent_path("/other/place"));
}

#[test]
fn listing_page_is_a_whole_response() {
    let page = ListingServer::build_page(String::from("/d"), vec![String::from("f")]);
    assert_eq!(
        "HTTP/1.1 200 OK\r\nContent-Type: text/html; charset=UTF-8\r\n\r\n<!DOCTYPE html><html><head><title>Hello</title></head><body><ul><li><a href=\"/d/f\">f</a></li></ul>\n    </body></html>\r\n\r\n",
        page
    );
    let list = ListingServer::build_ul_list(String::from("/"), vec![String::from("f")]);
    assert_eq!(vec!["<ul>", "<li><a href=\"/f\">f</a></li>", "</ul>"], list);
    assert_eq!("/srv", ListingServer::new("/srv").path());
}

#[test]
fn not_found_page_response() {
    let site = FileServer::new("/srv");
    let res = site.not_found_response();
    assert_eq!(404, res.status.get_code());
    let body = res.body.get();
    assert!(String::from_utf8(body.clone()).unwrap().contains("<h1>404 Content Not Found</h1>"));
    assert_eq!(Some(body.len().to_string()), res.header.get("Content-Length"));
    assert_eq!(Some(String::from("text/html; charset=utf-8")), res.header.get("Content-Type"));
}

#[test]
fn listing_page_response() {
    let site = FileServer::new("/srv");
    let res = site.listing_response(String::from("/"), String::from("/"), vec![String::from("/a")]);
    assert_eq!(200, res.status.get_code());
    let text = String::from_utf8(res.body.get()).unwrap();
    assert!(text.contains("<h3>/srv</h3><ul><li><a href=\"/a\">/a</a></li></ul>"));
    assert_eq!(Some(text.len().to_string()), res.header.get("Content-Length"));
}
