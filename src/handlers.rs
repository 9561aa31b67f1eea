//! What each route answers, and the routing of a parsed request. File
//! routes take the outcome of the file operation as a value: the operation
//! itself happens outside the library.
use crate::config::Config;
use crate::http::{Header, HttpMethod, HttpRequest, HttpResponse, HttpStatusCode, RequestView, ResponseView};
use crate::matcher::match_spec;
use crate::parser::{lower_of, lowercase};
use crate::router::{first_match, Router};
use vstd::prelude::*;
use vstd::string::*;
use vstd::utf8::encode_utf8;

verus! {

/// The decimal digit for `d`, where `d < 10`.
pub open spec fn digit_char(d: nat) -> char {
    "0123456789"@[d as int]
}

/// The decimal form of `n`, without leading zeros.
pub open spec fn decimal(n: nat) -> Seq<char>
    decreases n,
{
    if n < 10 {
        seq![digit_char(n)]
    } else {
        decimal(n / 10).push(digit_char(n % 10))
    }
}

/// Writes `n` in decimal.
pub fn decimal_string(n: usize) -> (r: String)
    ensures
        r@ == decimal(n as nat),
    decreases n,
{
    let digits = "0123456789";
    proof {
        reveal_strlit("0123456789");
    }
    let d = n % 10;
    let last = digits.substring_char(d, d + 1);
    proof {
        assert(last@ =~= seq![digit_char(d as nat)]);
    }
    if n < 10 {
        last.to_owned()
    } else {
        let mut s = decimal_string(n / 10);
        s.append(last);
        s
    }
}

/// `s` without `prefix`, where `s` begins with it.
pub fn strip_prefix_str(s: &str, prefix: &str) -> (r: Option<String>)
    ensures
        r is Some <==> prefix@.is_prefix_of(s@),
        r matches Some(t) ==> t@ == s@.skip(prefix@.len() as int),
{
    let n = s.unicode_len();
    let m = prefix.unicode_len();
    if m > n {
        return None;
    }
    let mut i: usize = 0;
    while i < m
        invariant
            n == s@.len(),
            m == prefix@.len(),
            m <= n,
            i <= m,
            forall|j: int| 0 <= j < i ==> prefix@[j] == s@[j],
        decreases m - i,
    {
        if s.get_char(i) != prefix.get_char(i) {
            return None;
        }
        i = i + 1;
    }
    Some(s.substring_char(m, n).to_owned())
}

/// The length header of a body: its length in bytes, in decimal.
pub open spec fn content_length(body: Seq<u8>) -> Seq<char> {
    decimal(body.len())
}

/// A success carrying `body`, with its length, as the given content type.
pub open spec fn body_response(body: Seq<u8>, content_type: Seq<char>) -> ResponseView {
    ResponseView {
        code: HttpStatusCode::Success,
        headers: seq![
            ("Content-Length"@, content_length(body)),
            ("Content-Type"@, content_type),
        ],
        body,
    }
}

/// A response with no headers and no body.
pub open spec fn bare_response(code: HttpStatusCode) -> ResponseView {
    ResponseView { code, headers: Seq::empty(), body: Seq::empty() }
}

/// A server error whose body is `message` in UTF-8, with its length.
pub open spec fn error_response(message: Seq<char>) -> ResponseView {
    ResponseView {
        code: HttpStatusCode::ServerError,
        headers: seq![("Content-Length"@, content_length(encode_utf8(message)))],
        body: encode_utf8(message),
    }
}

fn bare(code: HttpStatusCode) -> (r: HttpResponse)
    ensures
        r@ == bare_response(code),
{
    let r = HttpResponse { code, body: Vec::new(), headers: Vec::new() };
    proof {
        assert(r@.headers =~= Seq::<(Seq<char>, Seq<char>)>::empty());
        assert(r@.body =~= Seq::<u8>::empty());
    }
    r
}

fn with_body(body: Vec<u8>, content_type: &str) -> (r: HttpResponse)
    ensures
        r@ == body_response(body@, content_type@),
{
    let length = decimal_string(body.len());
    let headers = vec![
        Header { name: "Content-Length".to_owned(), value: length },
        Header { name: "Content-Type".to_owned(), value: content_type.to_owned() },
    ];
    let r = HttpResponse { code: HttpStatusCode::Success, body, headers };
    proof {
        assert(r@.headers =~= body_response(body@, content_type@).headers);
    }
    r
}

fn server_error(message: String) -> (r: HttpResponse)
    ensures
        r@ == error_response(message@),
{
    let body = message.as_str().as_bytes_vec();
    let length = decimal_string(body.len());
    let headers = vec![Header { name: "Content-Length".to_owned(), value: length }];
    let r = HttpResponse { code: HttpStatusCode::ServerError, body, headers };
    proof {
        assert(r@.headers =~= error_response(message@).headers);
    }
    r
}

/// The answer to `/`: a success with nothing in it.
pub fn ok(_request: HttpRequest, _config: &Config) -> (r: HttpResponse)
    ensures
        r@ == bare_response(HttpStatusCode::Success),
{
    bare(HttpStatusCode::Success)
}

/// The answer to `/echo/*`: what follows `/echo/` in the path, as plain text.
pub fn echo(request: HttpRequest, _config: &Config) -> (r: HttpResponse)
    requires
        "/echo/"@.is_prefix_of(request.path@),
    ensures
        r@ == body_response(encode_utf8(request.path@.skip("/echo/"@.len() as int)), "text/plain"@),
{
    let body = match strip_prefix_str(request.path.as_str(), "/echo/") {
        Some(b) => b,
        None => String::new(),
    };
    with_body(body.as_str().as_bytes_vec(), "text/plain")
}

/// The answer to `/:header`: the value of the request header that the path
/// names, looked up by its lower-case name, as plain text; not found where
/// the request has no such header.
pub fn headers(request: HttpRequest, _config: &Config) -> (r: HttpResponse)
    requires
        "/"@.is_prefix_of(request.path@),
    ensures
        ({
            let key = lower_of(request.path@.skip(1));
            if request.headers@.contains_key(key) {
                r@ == body_response(encode_utf8(request.headers@[key]), "text/plain"@)
            } else {
                r@ == bare_response(HttpStatusCode::NotFound)
            }
        }),
{
    proof {
        reveal_strlit("/");
    }
    let query = match strip_prefix_str(request.path.as_str(), "/") {
        Some(q) => q,
        None => String::new(),
    };
    let key = lowercase(query.as_str());
    match request.headers.get(key.as_str()) {
        Some(value) => with_body(value.as_str().as_bytes_vec(), "text/plain"),
        None => bare(HttpStatusCode::NotFound),
    }
}

/// The file `<directory>/<name>` that a `/files/<name>` path names.
pub open spec fn file_path(directory: Seq<char>, path: Seq<char>) -> Seq<char> {
    directory + "/"@ + path.skip("/files/"@.len() as int)
}

/// The file that a `/files/:name` path names under the configured directory.
pub fn file_target(config: &Config, path: &str) -> (r: String)
    requires
        config.directory is Some,
        "/files/"@.is_prefix_of(path@),
    ensures
        r@ == file_path(config.directory->0@, path@),
{
    let mut r = match &config.directory {
        Some(d) => d.clone(),
        None => String::new(),
    };
    let name = match strip_prefix_str(path, "/files/") {
        Some(n) => n,
        None => String::new(),
    };
    r.append("/");
    r.append(name.as_str());
    r
}

/// What a `/files/:name` request asks of the file system.
pub enum FileOp {
    /// Read the file at `target`.
    Read { target: String },
    /// Write `body` to the file at `target`, replacing what it held.
    Write { target: String, body: String },
}

/// The file operation of a `/files/:name` request: a POST writes the request
/// body to the named file, any other method reads it.
pub fn file_operation(request: HttpRequest, config: &Config) -> (r: FileOp)
    requires
        config.directory is Some,
        "/files/"@.is_prefix_of(request.path@),
    ensures
        request.method == HttpMethod::Post ==> (r matches FileOp::Write { target, body } && target@
            == file_path(config.directory->0@, request.path@) && body@ == request.body@),
        request.method != HttpMethod::Post ==> (r matches FileOp::Read { target } && target@
            == file_path(config.directory->0@, request.path@)),
{
    let target = file_target(config, request.path.as_str());
    match request.method {
        HttpMethod::Post => FileOp::Write { target, body: request.body },
        _ => FileOp::Read { target },
    }
}

/// How reading a file went.
pub enum FileRead {
    /// The file could not be opened.
    Missing,
    /// It was opened, and reading it failed with this description.
    Failed(String),
    /// Its contents.
    Contents(String),
}

/// How writing a file went.
pub enum FileWrite {
    /// The file could not be created; the failure's description.
    CreateFailed(String),
    /// It was created, and writing failed with this description.
    WriteFailed(String),
    /// The body was written.
    Written,
}

/// The answer to a GET of `/files/:name`, from how reading the file went: its
/// contents as an octet stream, not found, or a server error that says why.
pub fn get_file_response(outcome: FileRead) -> (r: HttpResponse)
    ensures
        outcome is Missing ==> r@ == bare_response(HttpStatusCode::NotFound),
        outcome matches FileRead::Failed(e) ==> r@ == error_response(
            "Error reading file: "@ + e@,
        ),
        outcome matches FileRead::Contents(c) ==> r@ == body_response(
            encode_utf8(c@),
            "application/octet-stream"@,
        ),
{
    match outcome {
        FileRead::Missing => bare(HttpStatusCode::NotFound),
        FileRead::Failed(e) => {
            let mut message = "Error reading file: ".to_owned();
            message.append(e.as_str());
            server_error(message)
        },
        FileRead::Contents(c) => with_body(c.as_str().as_bytes_vec(), "application/octet-stream"),
    }
}

/// The answer to a POST to `/files/:name`, from how writing the file went:
/// created, or a server error that says why.
pub fn post_file_response(outcome: FileWrite) -> (r: HttpResponse)
    ensures
        outcome is Written ==> r@ == bare_response(HttpStatusCode::Created),
        outcome matches FileWrite::CreateFailed(e) ==> r@ == error_response(
            "Error creating file: "@ + e@,
        ),
        outcome matches FileWrite::WriteFailed(e) ==> r@ == error_response(
            "Error writing to file: "@ + e@,
        ),
{
    match outcome {
        FileWrite::Written => bare(HttpStatusCode::Created),
        FileWrite::CreateFailed(e) => {
            let mut message = "Error creating file: ".to_owned();
            message.append(e.as_str());
            server_error(message)
        },
        FileWrite::WriteFailed(e) => {
            let mut message = "Error writing to file: ".to_owned();
            message.append(e.as_str());
            server_error(message)
        },
    }
}

/// The answer when no route matches: not found, with no headers and no body.
pub fn not_found() -> (r: HttpResponse)
    ensures
        r@ == bare_response(HttpStatusCode::NotFound),
{
    bare(HttpStatusCode::NotFound)
}

/// Routes a parsed request: the request with the parameters of the first
/// matching route filled in, and that route's handler; or, where no route
/// matches, the not-found response.
pub fn route_request<H>(router: Router<H>, request: HttpRequest) -> (r: Result<
    (HttpRequest, H),
    HttpResponse,
>)
    ensures
        first_match(router@, request.path@) is None ==> (r matches Err(resp) && resp@
            == bare_response(HttpStatusCode::NotFound)),
        first_match(router@, request.path@) matches Some(k) ==> (r matches Ok((req, h)) && h
            == router@[k].1 && req@ == (RequestView {
            params: (match_spec(router@[k].0, request.path@)->0).0,
            ..request@
        })),
{
    let mut request = request;
    match router.match_url(request.path.as_str()) {
        Some((matched, handler)) => {
            request.params = matched.params;
            Ok((request, handler))
        },
        None => Err(not_found()),
    }
}

} // verus!
