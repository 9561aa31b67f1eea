use http_router::http::HttpMethod;
use http_router::parser::parse_http;

#[test]
fn parses_request_line_and_headers() {
    let r = parse_http("GET /user-agent HTTP/1.1\r\nHost: localhost\r\nUser-Agent: curl/8\r\n\r\n");
    assert_eq!(r.method, HttpMethod::Get);
    assert_eq!(r.path, "/user-agent");
    assert_eq!(r.headers.get("user-agent"), Some(&"curl/8".to_owned()));
    assert!(r.params.is_empty());
    assert_eq!(r.body, "");
}

#[test]
fn header_lookup_ignores_case_of_sent_name() {
    let r = parse_http("GET / HTTP/1.1\r\nHost: x\r\n\r\n");
    assert_eq!(r.headers.get("host"), Some(&"x".to_owned()));
    assert!(r.headers.get("Host").is_none());
}

#[test]
fn later_duplicate_header_wins() {
    let r = parse_http("GET / HTTP/1.1\r\nX-A: 1\r\nx-a: 2\r\n\r\n");
    assert_eq!(r.headers.get("x-a"), Some(&"2".to_owned()));
}

#[test]
fn post_body_is_last_line_without_nul_padding() {
    let mut data = "POST /files/a HTTP/1.1\r\nContent-Length: 5\r\n\r\nhello".to_owned();
    data.push_str("\0\0\0\0");
    let r = parse_http(&data);
    assert_eq!(r.method, HttpMethod::Post);
    assert_eq!(r.path, "/files/a");
    assert_eq!(r.body, "hello");
    assert_eq!(r.headers.get("content-length"), Some(&"5".to_owned()));
}

#[test]
fn lines_after_blank_line_are_not_headers() {
    let r = parse_http("POST /x HTTP/1.1\r\n\r\nkey: value");
    assert!(r.headers.get("key").is_none());
    assert_eq!(r.body, "key: value");
}

#[test]
fn malformed_input_degrades() {
    let empty = parse_http("");
    assert_eq!(empty.method, HttpMethod::Unimplemented);
    assert_eq!(empty.path, "");
    assert!(empty.headers.is_empty());
    let odd = parse_http("DELETE");
    assert_eq!(odd.method, HttpMethod::Unimplemented);
    assert_eq!(odd.path, "");
    assert_eq!(odd.body, "");
    let no_colon = parse_http("GET / HTTP/1.1\r\nbroken line\r\n\r\n");
    assert!(no_colon.headers.is_empty());
}

#[test]
fn lone_carriage_return_at_end_is_kept() {
    let r = parse_http(" \r");
    assert_eq!(r.path, "\r");
    let two = parse_http("\n\r");
    assert_eq!(two.body, "\r");
    let crlf = parse_http("GET /a HTTP/1.1\r\nX: y\r\n\r\nbody\r");
    assert_eq!(crlf.headers.get("x"), Some(&"y".to_owned()));
    assert_eq!(crlf.body, "body\r");
}
