use http_router::config::Config;
use http_router::handlers::{
    decimal_string, echo, file_operation, file_target, get_file_response, headers, ok, post_file_response,
    route_request, strip_prefix_str, FileOp, FileRead, FileWrite,
};
use http_router::http::{construct_response, HttpRequest, HttpResponse, HttpStatusCode};
use http_router::parser::parse_http;
use http_router::router::Router;

type Handler = fn(HttpRequest, &Config) -> HttpResponse;

fn no_dir() -> Config {
    Config { directory: None }
}

fn header_pairs(r: &HttpResponse) -> Vec<(String, String)> {
    r.headers.iter().map(|h| (h.name.clone(), h.value.clone())).collect()
}

#[test]
fn echo_scenario() {
    let router = Router::<Handler>::new().add("/", ok).add("/echo/*", echo);
    let request = parse_http("GET /echo/hello HTTP/1.1\r\n\r\n");
    let (request, handler) = route_request(router, request).ok().unwrap();
    let response = handler(request, &no_dir());
    assert_eq!(response.code, HttpStatusCode::Success);
    let wire = construct_response(HttpResponse {
        code: response.code,
        body: response.body.clone(),
        headers: response.headers.clone(),
    });
    assert_eq!(
        wire,
        b"HTTP/1.1 200 OK\r\nContent-Length: 5\r\nContent-Type: text/plain\r\n\r\nhello".to_vec()
    );
    assert_eq!(response.body, "hello".as_bytes());
    assert_eq!(
        header_pairs(&response),
        vec![
            ("Content-Length".to_owned(), "5".to_owned()),
            ("Content-Type".to_owned(), "text/plain".to_owned()),
        ]
    );
}

#[test]
fn unrouted_request_is_not_found() {
    let router = Router::<Handler>::new().add("/", ok);
    let request = parse_http("GET /a/b HTTP/1.1\r\n\r\n");
    let response = route_request(router, request).err().unwrap();
    assert_eq!(response.code, HttpStatusCode::NotFound);
    assert!(response.headers.is_empty());
    assert_eq!(construct_response(response), b"HTTP/1.1 404 Not Found\r\n\r\n".to_vec());
}

#[test]
fn routing_fills_params() {
    let router: Router<u8> = Router::new().add("/files/:file", 7);
    let request = parse_http("GET /files/notes.txt HTTP/1.1\r\n\r\n");
    let (request, handler) = route_request(router, request).ok().unwrap();
    assert_eq!(handler, 7);
    assert_eq!(request.params.get("file"), Some(&"notes.txt".to_owned()));
}

#[test]
fn missing_file_is_not_found_with_empty_body() {
    let response = get_file_response(FileRead::Missing);
    assert_eq!(response.code, HttpStatusCode::NotFound);
    assert_eq!(response.body, "".as_bytes());
    assert!(response.headers.is_empty());
}

#[test]
fn file_contents_are_an_octet_stream() {
    let response = get_file_response(FileRead::Contents("héllo".to_owned()));
    assert_eq!(response.code, HttpStatusCode::Success);
    assert_eq!(response.body, "héllo".as_bytes());
    assert_eq!(
        header_pairs(&response),
        vec![
            ("Content-Length".to_owned(), "6".to_owned()),
            ("Content-Type".to_owned(), "application/octet-stream".to_owned()),
        ]
    );
}

#[test]
fn file_errors_are_server_errors() {
    let read = get_file_response(FileRead::Failed("bad".to_owned()));
    assert_eq!(read.code, HttpStatusCode::ServerError);
    assert_eq!(read.body, "Error reading file: bad".as_bytes());
    assert_eq!(header_pairs(&read), vec![("Content-Length".to_owned(), "23".to_owned())]);
    let create = post_file_response(FileWrite::CreateFailed("denied".to_owned()));
    assert_eq!(create.code, HttpStatusCode::ServerError);
    assert_eq!(create.body, "Error creating file: denied".as_bytes());
    let write = post_file_response(FileWrite::WriteFailed("full".to_owned()));
    assert_eq!(write.body, "Error writing to file: full".as_bytes());
    assert_eq!(header_pairs(&write), vec![("Content-Length".to_owned(), "27".to_owned())]);
    let done = post_file_response(FileWrite::Written);
    assert_eq!(done.code, HttpStatusCode::Created);
    assert!(done.headers.is_empty());
    assert_eq!(done.body, "".as_bytes());
}

#[test]
fn header_route_echoes_header_value() {
    let request = parse_http("GET /User-Agent HTTP/1.1\r\nuser-agent: foo/1\r\n\r\n");
    let response = headers(request, &no_dir());
    assert_eq!(response.code, HttpStatusCode::Success);
    assert_eq!(response.body, "foo/1".as_bytes());
    let missing = parse_http("GET /accept HTTP/1.1\r\n\r\n");
    let response = headers(missing, &no_dir());
    assert_eq!(response.code, HttpStatusCode::NotFound);
    assert_eq!(response.body, "".as_bytes());
}

#[test]
fn root_route_is_empty_success() {
    let response = ok(parse_http("GET / HTTP/1.1\r\n\r\n"), &no_dir());
    assert_eq!(construct_response(response), b"HTTP/1.1 200 OK\r\n\r\n".to_vec());
}

#[test]
fn file_target_joins_directory_and_name() {
    let config = Config { directory: Some("/tmp/data".to_owned()) };
    assert_eq!(file_target(&config, "/files/a/b.txt"), "/tmp/data/a/b.txt");
}

#[test]
fn decimal_forms() {
    assert_eq!(decimal_string(0), "0");
    assert_eq!(decimal_string(7), "7");
    assert_eq!(decimal_string(10), "10");
    assert_eq!(decimal_string(1024), "1024");
    assert_eq!(decimal_string(usize::MAX), usize::MAX.to_string());
}

#[test]
fn strip_prefix_cases() {
    assert_eq!(strip_prefix_str("/echo/x", "/echo/"), Some("x".to_owned()));
    assert_eq!(strip_prefix_str("/echo", "/echo/"), None);
    assert_eq!(strip_prefix_str("abc", ""), Some("abc".to_owned()));
}

#[test]
fn config_takes_last_directory_with_value() {
    let args: Vec<String> = ["prog", "--directory", "/a", "--directory", "/b", "--directory"]
        .iter()
        .map(|s| s.to_string())
        .collect();
    assert_eq!(Config::parse_config(&args).directory, Some("/b".to_owned()));
    let none: Vec<String> = vec!["--directory".to_owned(), "/x".to_owned()];
    assert_eq!(Config::parse_config(&none).directory, None);
}

#[test]
fn file_operation_by_method() {
    let config = Config { directory: Some("/srv".to_owned()) };
    let post = parse_http("POST /files/n.txt HTTP/1.1\r\n\r\ncontent");
    match file_operation(post, &config) {
        FileOp::Write { target, body } => {
            assert_eq!(target, "/srv/n.txt");
            assert_eq!(body, "content");
        }
        FileOp::Read { .. } => panic!("a POST writes"),
    }
    let get = parse_http("GET /files/n.txt HTTP/1.1\r\n\r\n");
    match file_operation(get, &config) {
        FileOp::Read { target } => assert_eq!(target, "/srv/n.txt"),
        FileOp::Write { .. } => panic!("a GET reads"),
    }
}
