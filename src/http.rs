//! The message model: a parsed request, an outgoing response, and the
//! response's wire form.
use crate::strmap::StrMap;
use vstd::prelude::*;
use vstd::string::*;
use vstd::utf8::{encode_utf8, is_ascii_chars, is_ascii_chars_encode_utf8};

verus! {

/// The status of a response.
#[derive(Clone, Copy, Debug, PartialEq, Eq, Structural)]
pub enum HttpStatusCode {
    Success,
    Created,
    NotFound,
    ServerError,
    BadRequest,
}

/// The numeric code of a status.
pub open spec fn code_number(c: HttpStatusCode) -> u16 {
    match c {
        HttpStatusCode::Success => 200,
        HttpStatusCode::Created => 201,
        HttpStatusCode::NotFound => 404,
        HttpStatusCode::ServerError => 500,
        HttpStatusCode::BadRequest => 400,
    }
}

/// The status line of a status, without its line ending.
pub open spec fn status_line(c: HttpStatusCode) -> Seq<char> {
    match c {
        HttpStatusCode::Success => "HTTP/1.1 200 OK"@,
        HttpStatusCode::Created => "HTTP/1.1 201 OK"@,
        HttpStatusCode::NotFound => "HTTP/1.1 404 Not Found"@,
        HttpStatusCode::ServerError => "HTTP/1.1 500 Server Error"@,
        HttpStatusCode::BadRequest => "HTTP/1.1 400 Bad Request"@,
    }
}

impl HttpStatusCode {
    /// The status line, such as `HTTP/1.1 404 Not Found`.
    pub fn header(self) -> (r: String)
        ensures
            r@ == status_line(self),
    {
        match self {
            HttpStatusCode::Success => "HTTP/1.1 200 OK".to_owned(),
            HttpStatusCode::Created => "HTTP/1.1 201 OK".to_owned(),
            HttpStatusCode::NotFound => "HTTP/1.1 404 Not Found".to_owned(),
            HttpStatusCode::ServerError => "HTTP/1.1 500 Server Error".to_owned(),
            HttpStatusCode::BadRequest => "HTTP/1.1 400 Bad Request".to_owned(),
        }
    }
}

/// One response header, emitted as `name: value`.
#[derive(Clone, Debug)]
pub struct Header {
    pub name: String,
    pub value: String,
}

/// An outgoing response: status, headers in the order they are emitted, body.
pub struct HttpResponse {
    pub code: HttpStatusCode,
    pub body: Vec<u8>,
    pub headers: Vec<Header>,
}

impl View for Header {
    type V = (Seq<char>, Seq<char>);

    open spec fn view(&self) -> (Seq<char>, Seq<char>) {
        (self.name@, self.value@)
    }
}

/// The mathematical form of a response.
pub struct ResponseView {
    pub code: HttpStatusCode,
    pub headers: Seq<(Seq<char>, Seq<char>)>,
    pub body: Seq<u8>,
}

impl View for HttpResponse {
    type V = ResponseView;

    open spec fn view(&self) -> ResponseView {
        ResponseView {
            code: self.code,
            headers: self.headers@.map_values(|h: Header| h@),
            body: self.body@,
        }
    }
}

/// The header lines of a response, each ended by `\r\n`.
pub open spec fn header_text(hs: Seq<Header>) -> Seq<char>
    decreases hs.len(),
{
    if hs.len() == 0 {
        Seq::empty()
    } else {
        header_text(hs.drop_last()) + hs.last().name@ + ": "@ + hs.last().value@ + "\r\n"@
    }
}

/// The text that precedes the body of a response: status line, header lines
/// and a blank line.
pub open spec fn response_head(code: HttpStatusCode, headers: Seq<Header>) -> Seq<char> {
    status_line(code) + "\r\n"@ + header_text(headers) + "\r\n"@
}

/// A response on the wire: its head in UTF-8, then the body bytes as they stand.
pub open spec fn response_bytes(code: HttpStatusCode, headers: Seq<Header>, body: Seq<u8>) -> Seq<
    u8,
> {
    encode_utf8(response_head(code, headers)) + body
}

/// Serialises a response into the bytes sent back to the client. No header
/// is added: a `Content-Length` is there only if the response carries one.
pub fn construct_response(res: HttpResponse) -> (r: Vec<u8>)
    ensures
        r@ == response_bytes(res.code, res.headers@, res.body@),
{
    let mut text = res.code.header();
    text.append("\r\n");
    let mut i: usize = 0;
    while i < res.headers.len()
        invariant
            i <= res.headers@.len(),
            text@ == status_line(res.code) + "\r\n"@ + header_text(res.headers@.take(i as int)),
        decreases res.headers@.len() - i,
    {
        let header = &res.headers[i];
        text.append(header.name.as_str());
        text.append(": ");
        text.append(header.value.as_str());
        text.append("\r\n");
        proof {
            let hs = res.headers@.take(i + 1);
            assert(hs.drop_last() =~= res.headers@.take(i as int));
            assert(hs.last() == res.headers@[i as int]);
        }
        i = i + 1;
    }
    text.append("\r\n");
    proof {
        assert(res.headers@.take(res.headers@.len() as int) =~= res.headers@);
    }
    let mut bytes = text.as_str().as_bytes_vec();
    let mut body = res.body;
    bytes.append(&mut body);
    bytes
}

/// The UTF-8 form of two texts one after the other is the two forms one after
/// the other.
pub proof fn lemma_encode_utf8_concat(a: Seq<char>, b: Seq<char>)
    ensures
        encode_utf8(a + b) == encode_utf8(a) + encode_utf8(b),
    decreases a.len(),
{
    if a.len() == 0 {
        assert(a + b =~= b);
        assert(encode_utf8(a) =~= Seq::<u8>::empty());
        assert(encode_utf8(a) + encode_utf8(b) =~= encode_utf8(b));
    } else {
        assert((a + b).drop_first() =~= a.drop_first() + b);
        lemma_encode_utf8_concat(a.drop_first(), b);
        assert((a + b)[0] == a[0]);
        assert(encode_utf8(a + b) =~= encode_utf8(a) + encode_utf8(b));
    }
}

/// The status code that response bytes begin with: `HTTP/1.1 `, three ASCII
/// digits, then a space.
pub open spec fn status_code_spec(t: Seq<u8>) -> Option<u16> {
    if t.len() >= 13 && t.take(9) == encode_utf8("HTTP/1.1 "@) && 48 <= t[9] <= 57 && 48 <= t[10]
        <= 57 && 48 <= t[11] <= 57 && t[12] == 32 {
        Some(((t[9] - 48) * 100 + (t[10] - 48) * 10 + (t[11] - 48)) as u16)
    } else {
        None
    }
}

/// Reads the status code back from the start of a response.
pub fn status_code_of(t: &[u8]) -> (r: Option<u16>)
    ensures
        r == status_code_spec(t@),
{
    let n = t.len();
    if n < 13 {
        return None;
    }
    let prefix = "HTTP/1.1 ".as_bytes();
    proof {
        reveal_strlit("HTTP/1.1 ");
        is_ascii_chars_encode_utf8("HTTP/1.1 "@);
    }
    assert(prefix@.len() == 9);
    let mut i: usize = 0;
    while i < 9
        invariant
            n == t@.len() >= 13,
            prefix@ == encode_utf8("HTTP/1.1 "@),
            prefix@.len() == 9,
            i <= 9,
            forall|j: int| 0 <= j < i ==> t@[j] == prefix@[j],
        decreases 9 - i,
    {
        if t[i] != prefix[i] {
            proof {
                assert(t@.take(9)[i as int] != prefix@[i as int]);
            }
            return None;
        }
        i = i + 1;
    }
    proof {
        assert(t@.take(9) =~= prefix@);
    }
    let a = t[9];
    let b = t[10];
    let c = t[11];
    if !(48 <= a && a <= 57 && 48 <= b && b <= 57 && 48 <= c && c <= 57) || t[12] != 32 {
        return None;
    }
    let code = (a as u16 - 48) * 100 + (b as u16 - 48) * 10 + (c as u16 - 48);
    Some(code)
}

/// Serialising a response and reading the status code back from the bytes
/// gives the response's own status code.
pub proof fn lemma_status_round_trip(res: HttpResponse)
    ensures
        status_code_spec(response_bytes(res.code, res.headers@, res.body@)) == Some(
            code_number(res.code),
        ),
{
    let s = status_line(res.code);
    let rest = "\r\n"@ + header_text(res.headers@) + "\r\n"@;
    assert(response_head(res.code, res.headers@) =~= s + rest);
    lemma_encode_utf8_concat(s, rest);
    reveal_strlit("HTTP/1.1 ");
    reveal_strlit("HTTP/1.1 200 OK");
    reveal_strlit("HTTP/1.1 201 OK");
    reveal_strlit("HTTP/1.1 404 Not Found");
    reveal_strlit("HTTP/1.1 500 Server Error");
    reveal_strlit("HTTP/1.1 400 Bad Request");
    let p = "HTTP/1.1 "@;
    assert(is_ascii_chars(p));
    assert(is_ascii_chars(s));
    is_ascii_chars_encode_utf8(p);
    is_ascii_chars_encode_utf8(s);
    let t = response_bytes(res.code, res.headers@, res.body@);
    let es = encode_utf8(s);
    assert(t =~= es + (encode_utf8(rest) + res.body@));
    assert forall|i: int| 0 <= i < 13 implies t[i] == s[i] as u8 by {
        assert(t[i] == es[i]);
    }
    assert(t.take(9) =~= encode_utf8(p)) by {
        assert forall|i: int| 0 <= i < 9 implies t.take(9)[i] == encode_utf8(p)[i] by {
            assert(t[i] == s[i] as u8);
            assert(p[i] == s[i]);
        }
    }
}

/// The method of a request.
#[derive(Clone, Copy, Debug, PartialEq, Eq, Structural)]
pub enum HttpMethod {
    Unimplemented,
    Get,
    Post,
}

/// A parsed request. `headers` are keyed by lower-cased name; `params` stay
/// empty until routing fills them.
pub struct HttpRequest {
    pub method: HttpMethod,
    pub path: String,
    pub headers: StrMap,
    pub params: StrMap,
    pub body: String,
}

/// The mathematical form of a request.
pub struct RequestView {
    pub method: HttpMethod,
    pub path: Seq<char>,
    pub headers: Map<Seq<char>, Seq<char>>,
    pub params: Map<Seq<char>, Seq<char>>,
    pub body: Seq<char>,
}

impl View for HttpRequest {
    type V = RequestView;

    open spec fn view(&self) -> RequestView {
        RequestView {
            method: self.method,
            path: self.path@,
            headers: self.headers@,
            params: self.params@,
            body: self.body@,
        }
    }
}

} // verus!
