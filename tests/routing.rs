use tiny_http_pool::connection::respond_basic;
use tiny_http_pool::request::HttpRequest;
use tiny_http_pool::response::format_response;
use tiny_http_pool::router::{file_path, handle_api_request, handle_basic_request, handle_request, target, Target};

#[test]
fn home_page_scenario() {
    let raw = b"GET / HTTP/1.1\r\n\r\n";
    let r = respond_basic(raw, raw.len());
    assert!(r.starts_with("HTTP/1.1 200 Ok"));
    assert!(r.ends_with("\r\n\r\nWelcome to the Home Page!"));
    assert_eq!(
        r,
        "HTTP/1.1 200 Ok\r\nContent-Length: 25\r\nContent-Type: text/plain\r\n\r\nWelcome to the Home Page!"
    );
}

#[test]
fn missing_page_scenario() {
    let raw = b"GET /missing HTTP/1.1\r\n\r\n";
    let r = respond_basic(raw, raw.len());
    assert!(r.starts_with("HTTP/1.1 404 Not Found"));
    assert!(r.ends_with("\r\n\r\n404 - Page Not Found"));
}

#[test]
fn other_basic_pages() {
    let about = handle_basic_request(&HttpRequest::from_raw("GET /about HTTP/1.1\r\n\r\n"));
    assert!(about.starts_with("HTTP/1.1 200 Ok\r\n"));
    assert!(about.ends_with("This is the About Page."));
    let hello = handle_basic_request(&HttpRequest::from_raw("GET /hello HTTP/1.1\r\n\r\n"));
    assert!(hello.ends_with("\r\n\r\nHello, World!"));
}

#[test]
fn api_hello_scenario() {
    let req = HttpRequest::from_raw("GET /api/hello HTTP/1.1\r\n\r\n");
    assert!(matches!(target(&req), Target::Api));
    let r = handle_request(&req, None);
    assert!(r.contains("Content-Type: application/json"));
    assert!(r.ends_with("\r\n\r\n{\"message\":\"Hello ,Api\"}"));
    assert!(r.starts_with("HTTP/1.1 200 Ok\r\nContent-Length: 24\r\n"));
}

#[test]
fn unknown_api_path_gets_json_not_found() {
    let req = HttpRequest::from_raw("GET /api/nothing HTTP/1.1\r\n\r\n");
    let r = handle_api_request(&req);
    assert_eq!(
        r,
        "HTTP/1.1 404 Not Found\r\nContent-Length: 21\r\nContent-Type: application/json\r\n\r\n{\"error\":\"Not found\"}"
    );
    assert_eq!(handle_request(&req, Some("ignored")), r);
}

#[test]
fn routing_is_repeatable_and_reads_only_the_path() {
    let a = HttpRequest::from_raw("GET /about HTTP/1.1\r\n\r\n");
    let b = HttpRequest::from_raw("POST /about HTTP/1.0\r\nX: y\r\n\r\nbody");
    let first = handle_basic_request(&a);
    assert_eq!(first, handle_basic_request(&a));
    assert_eq!(first, handle_basic_request(&b));
    assert_eq!(handle_request(&a, Some("<p>x</p>")), handle_request(&b, Some("<p>x</p>")));
}

#[test]
fn site_serves_file_contents_as_html() {
    let req = HttpRequest::from_raw("GET /page.html HTTP/1.1\r\n\r\n");
    match target(&req) {
        Target::File(p) => assert_eq!(p, "public/page.html"),
        Target::Api => panic!("expected a file"),
    }
    let r = handle_request(&req, Some("<p>hi</p>"));
    assert_eq!(r, "HTTP/1.1 200 Ok\r\nContent-Length: 9\r\nContent-Type: text/html\r\n\r\n<p>hi</p>");
}

#[test]
fn site_missing_file_gets_html_not_found() {
    let req = HttpRequest::from_raw("GET /nope HTTP/1.1\r\n\r\n");
    let r = handle_request(&req, None);
    assert!(r.starts_with("HTTP/1.1 404 Not Found\r\nContent-Length: 30\r\n"));
    assert!(r.ends_with("\r\n\r\n<h1>404 - Page Not Found </h1>"));
}

#[test]
fn root_is_served_by_index() {
    assert_eq!(file_path("/"), "public/index.html");
    assert_eq!(file_path("/a/b.css"), "public/a/b.css");
    assert_eq!(file_path(""), "public");
}

#[test]
fn api_prefix_needs_trailing_slash() {
    let req = HttpRequest::from_raw("GET /api HTTP/1.1\r\n\r\n");
    match target(&req) {
        Target::File(p) => assert_eq!(p, "public/api"),
        Target::Api => panic!("expected a file"),
    }
}

#[test]
fn content_length_counts_bytes_and_precedes_content_type() {
    let r = format_response("200 Ok", "h\u{e9}llo", "text/plain");
    assert_eq!(r, "HTTP/1.1 200 Ok\r\nContent-Length: 6\r\nContent-Type: text/plain\r\n\r\nh\u{e9}llo");
    let empty = format_response("204 No Content", "", "text/plain");
    assert_eq!(empty, "HTTP/1.1 204 No Content\r\nContent-Length: 0\r\nContent-Type: text/plain\r\n\r\n");
    let long = "a".repeat(12345);
    let r = format_response("200 Ok", &long, "x/y");
    assert!(r.starts_with("HTTP/1.1 200 Ok\r\nContent-Length: 12345\r\nContent-Type: x/y\r\n\r\n"));
}
