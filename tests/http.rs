use http_router::http::{construct_response, status_code_of, Header, HttpResponse, HttpStatusCode};

#[test]
fn status_lines() {
    assert_eq!(HttpStatusCode::Success.header(), "HTTP/1.1 200 OK");
    assert_eq!(HttpStatusCode::Created.header(), "HTTP/1.1 201 OK");
    assert_eq!(HttpStatusCode::NotFound.header(), "HTTP/1.1 404 Not Found");
    assert_eq!(HttpStatusCode::ServerError.header(), "HTTP/1.1 500 Server Error");
    assert_eq!(HttpStatusCode::BadRequest.header(), "HTTP/1.1 400 Bad Request");
}

#[test]
fn serialise_without_headers() {
    let res = HttpResponse { code: HttpStatusCode::NotFound, body: Vec::new(), headers: vec![] };
    assert_eq!(construct_response(res), b"HTTP/1.1 404 Not Found\r\n\r\n".to_vec());
}

#[test]
fn serialise_headers_in_order_then_body() {
    let res = HttpResponse {
        code: HttpStatusCode::Success,
        body: b"hi".to_vec(),
        headers: vec![
            Header { name: "B".to_owned(), value: "2".to_owned() },
            Header { name: "A".to_owned(), value: "1".to_owned() },
        ],
    };
    assert_eq!(construct_response(res), b"HTTP/1.1 200 OK\r\nB: 2\r\nA: 1\r\n\r\nhi".to_vec());
}

#[test]
fn status_code_round_trip() {
    let codes = [
        (HttpStatusCode::Success, 200u16),
        (HttpStatusCode::Created, 201),
        (HttpStatusCode::BadRequest, 400),
        (HttpStatusCode::NotFound, 404),
        (HttpStatusCode::ServerError, 500),
    ];
    for (code, number) in codes {
        let res = HttpResponse { code, body: vec![0xff, 0x00], headers: vec![] };
        let bytes = construct_response(res);
        assert_eq!(status_code_of(&bytes), Some(number));
    }
}

#[test]
fn status_code_of_rejects_other_text() {
    assert_eq!(status_code_of(b"HTTP/1.0 200 OK"), None);
    assert_eq!(status_code_of(b"HTTP/1.1 2x0 OK"), None);
    assert_eq!(status_code_of(b"HTTP/1.1 200"), None);
    assert_eq!(status_code_of(b"HTTP/1.1 302 Found"), Some(302));
}
