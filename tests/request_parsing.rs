use tiny_http_pool::connection::request_from_buffer;
use tiny_http_pool::request::HttpRequest;

#[test]
fn parses_request_line_headers_and_body() {
    let r = HttpRequest::from_raw("POST /submit HTTP/1.1\r\nHost: localhost\r\nX-Id: 7\r\n\r\nhello");
    assert_eq!(r.method(), "POST");
    assert_eq!(r.path(), "/submit");
    assert_eq!(r.version(), "HTTP/1.1");
    assert_eq!(r.header("Host"), Some("localhost"));
    assert_eq!(r.header("X-Id"), Some("7"));
    assert_eq!(r.header("host"), None);
    assert_eq!(r.body(), "hello");
}

#[test]
fn later_header_overrides_earlier() {
    let r = HttpRequest::from_raw("GET / HTTP/1.1\r\nA: 1\r\nB: 2\r\nA: 3\r\n\r\n");
    assert_eq!(r.header("A"), Some("3"));
    assert_eq!(r.header("B"), Some("2"));
}

#[test]
fn header_value_keeps_later_separators() {
    let r = HttpRequest::from_raw("GET / HTTP/1.1\r\nKey: a: b\r\n\r\n");
    assert_eq!(r.header("Key"), Some("a: b"));
}

#[test]
fn line_without_separator_is_skipped() {
    let r = HttpRequest::from_raw("GET / HTTP/1.1\r\nnot a header\r\nKey:value\r\nOk: yes\r\n\r\n");
    assert_eq!(r.header("not a header"), None);
    assert_eq!(r.header("Key"), None);
    assert_eq!(r.header("Ok"), Some("yes"));
}

#[test]
fn missing_tokens_are_empty() {
    let r = HttpRequest::from_raw("GET");
    assert_eq!(r.method(), "GET");
    assert_eq!(r.path(), "");
    assert_eq!(r.version(), "");
    assert_eq!(r.body(), "");
}

#[test]
fn extra_tokens_and_runs_of_whitespace_are_ignored() {
    let r = HttpRequest::from_raw("  GET \t /x   HTTP/1.0 extra more\r\n\r\n");
    assert_eq!(r.method(), "GET");
    assert_eq!(r.path(), "/x");
    assert_eq!(r.version(), "HTTP/1.0");
}

#[test]
fn empty_input_gives_empty_request() {
    let r = HttpRequest::from_raw("");
    assert_eq!(r.method(), "");
    assert_eq!(r.path(), "");
    assert_eq!(r.version(), "");
    assert_eq!(r.header("Host"), None);
    assert_eq!(r.body(), "");
}

#[test]
fn body_lines_are_joined_with_newline() {
    let r = HttpRequest::from_raw("POST / HTTP/1.1\r\n\r\nline one\r\nline two\n\nline four\n");
    assert_eq!(r.body(), "line one\nline two\n\nline four");
}

#[test]
fn no_blank_line_means_empty_body() {
    let r = HttpRequest::from_raw("POST / HTTP/1.1\r\nHost: h\r\nsome content\r\nmore");
    assert_eq!(r.body(), "");
    assert_eq!(r.header("Host"), Some("h"));
}

#[test]
fn well_formed_request_round_trips() {
    let raw = format!("{} {} {}\r\n{}: {}\r\n\r\n{}", "DELETE", "/items/3", "HTTP/1.1", "Accept", "text/plain", "payload: 1");
    let r = HttpRequest::from_raw(&raw);
    assert_eq!(r.method(), "DELETE");
    assert_eq!(r.path(), "/items/3");
    assert_eq!(r.version(), "HTTP/1.1");
    assert_eq!(r.header("Accept"), Some("text/plain"));
    assert_eq!(r.body(), "payload: 1");
}

#[test]
fn bare_carriage_return_at_end_of_body_is_kept() {
    let r = HttpRequest::from_raw("GET / HTTP/1.1\r\n\r\nabc\r");
    assert_eq!(r.body(), "abc\r");
}

#[test]
fn only_the_bytes_read_are_parsed() {
    let mut buffer = [0u8; 1024];
    let text = b"GET /a HTTP/1.1\r\nHost: x\r\n\r\nbody";
    buffer[..text.len()].copy_from_slice(text);
    let r = request_from_buffer(&buffer, text.len());
    assert_eq!(r.path(), "/a");
    assert_eq!(r.header("Host"), Some("x"));
    assert_eq!(r.body(), "body");
}

#[test]
fn request_longer_than_buffer_is_cut_without_error() {
    let body = "x".repeat(2000);
    let raw = format!("POST /upload HTTP/1.1\r\nLength: 2000\r\n\r\n{}", body);
    let bytes = raw.as_bytes();
    let mut buffer = [0u8; 1024];
    buffer.copy_from_slice(&bytes[..1024]);
    let r = request_from_buffer(&buffer, 1024);
    assert_eq!(r.method(), "POST");
    assert_eq!(r.path(), "/upload");
    assert_eq!(r.header("Length"), Some("2000"));
    let head = "POST /upload HTTP/1.1\r\nLength: 2000\r\n\r\n".len();
    assert_eq!(r.body().len(), 1024 - head);
    assert!(r.body().len() < body.len());
}

#[test]
fn invalid_utf8_is_replaced_not_rejected() {
    let bytes = [b'G', b'E', b'T', b' ', b'/', 0xff, b' ', b'H'];
    let r = request_from_buffer(&bytes, bytes.len());
    assert_eq!(r.method(), "GET");
    assert_eq!(r.path(), "/\u{fffd}");
    assert_eq!(r.version(), "H");
}

#[test]
fn zero_bytes_read_gives_empty_request() {
    let buffer = [b'G'; 16];
    let r = request_from_buffer(&buffer, 0);
    assert_eq!(r.method(), "");
    assert_eq!(r.path(), "");
}
