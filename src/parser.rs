//! Parsing a raw request into an [`HttpRequest`]. Parsing never fails: what
//! cannot be read is left empty or unrecognised.
use crate::http::{HttpMethod, HttpRequest, RequestView};
use crate::strmap::StrMap;
use crate::text::{components, lemma_components_split, split_all};
use vstd::prelude::*;
use vstd::string::*;

verus! {

/// What `str::to_lowercase` makes of a text.
pub uninterp spec fn lower_of(s: Seq<char>) -> Seq<char>;

/// Relies on `str::to_lowercase`: the lower-case form, which depends on the
/// characters alone.
#[verifier::external_body]
pub(crate) fn lowercase(s: &str) -> (r: String)
    ensures
        r@ == lower_of(s@),
{
    s.to_lowercase()
}

/// A line without the `\r` of a `\r\n` ending.
pub open spec fn strip_cr(l: Seq<char>) -> Seq<char> {
    if l.len() > 0 && l.last() == '\r' {
        l.drop_last()
    } else {
        l
    }
}

/// The lines of a request: split on `\n`, each piece that a `\n` ends
/// without a final `\r` (so `\r\n` ends a line too, a lone `\r` does not);
/// an empty piece after a final `\n` is no line.
pub open spec fn request_lines(data: Seq<char>) -> Seq<Seq<char>> {
    let cs = components(data, '\n');
    let kept = if cs.last().len() == 0 {
        cs.drop_last()
    } else {
        cs
    };
    kept.map(
        |i: int, l: Seq<char>|
            if i + 1 < cs.len() {
                strip_cr(l)
            } else {
                l
            },
    )
}

/// A header line split at its first `": "` into name and value.
pub open spec fn header_split(l: Seq<char>) -> Option<(Seq<char>, Seq<char>)>
    decreases l.len(),
{
    if l.len() < 2 {
        None
    } else if l[0] == ':' && l[1] == ' ' {
        Some((Seq::empty(), l.skip(2)))
    } else {
        match header_split(l.drop_first()) {
            Some(p) => Some((seq![l[0]] + p.0, p.1)),
            None => None,
        }
    }
}

/// The index of the first blank line from `k` on, or the number of lines.
pub open spec fn header_end_from(lines: Seq<Seq<char>>, k: int) -> int
    decreases lines.len() - k,
{
    if k < 0 || k >= lines.len() {
        lines.len() as int
    } else if lines[k].len() == 0 {
        k
    } else {
        header_end_from(lines, k + 1)
    }
}

/// The headers that lines `1 .. k` give, keyed by lower-cased name, a later
/// line winning; a line without `": "` gives none.
pub open spec fn headers_upto(lines: Seq<Seq<char>>, k: int) -> Map<Seq<char>, Seq<char>>
    decreases k,
{
    if k <= 1 {
        Map::empty()
    } else {
        let m = headers_upto(lines, k - 1);
        match header_split(lines[k - 1]) {
            Some(p) => m.insert(lower_of(p.0), p.1),
            None => m,
        }
    }
}

/// A text without its trailing NUL characters.
pub open spec fn trim_nul(s: Seq<char>) -> Seq<char>
    decreases s.len(),
{
    if s.len() > 0 && s.last() == '\0' {
        trim_nul(s.drop_last())
    } else {
        s
    }
}

/// The method that a request line's first word names.
pub open spec fn method_of(tok: Seq<char>) -> HttpMethod {
    if tok == "GET"@ {
        HttpMethod::Get
    } else if tok == "POST"@ {
        HttpMethod::Post
    } else {
        HttpMethod::Unimplemented
    }
}

/// The request that a raw text stands for. The request line gives the method
/// and the path (its first and second space-separated words); the lines after
/// it up to the first blank one are headers; the last line, without trailing
/// NULs, is the body.
pub open spec fn parse_spec(data: Seq<char>) -> RequestView {
    let lines = request_lines(data);
    if lines.len() == 0 {
        RequestView {
            method: HttpMethod::Unimplemented,
            path: Seq::empty(),
            headers: Map::empty(),
            params: Map::empty(),
            body: Seq::empty(),
        }
    } else {
        let words = components(lines[0], ' ');
        RequestView {
            method: method_of(words[0]),
            path: if words.len() > 1 {
                words[1]
            } else {
                Seq::empty()
            },
            headers: headers_upto(lines, header_end_from(lines, 1)),
            params: Map::empty(),
            body: if lines.len() > 1 {
                trim_nul(lines.last())
            } else {
                Seq::empty()
            },
        }
    }
}

proof fn lemma_header_end_bounds(lines: Seq<Seq<char>>, k: int)
    requires
        0 <= k <= lines.len(),
    ensures
        k <= header_end_from(lines, k) <= lines.len(),
    decreases lines.len() - k,
{
    if k < lines.len() && lines[k].len() != 0 {
        lemma_header_end_bounds(lines, k + 1);
    }
}

proof fn lemma_headers_upto_value(
    lines: Seq<Seq<char>>,
    k: int,
    m: int,
    name: Seq<char>,
    value: Seq<char>,
)
    requires
        1 <= k < m,
        header_split(lines[k]) == Some((name, value)),
        forall|j: int|
            k < j < m ==> (#[trigger] header_split(lines[j]) matches Some(p) ==> lower_of(p.0)
                != lower_of(name)),
    ensures
        headers_upto(lines, m).contains_key(lower_of(name)),
        headers_upto(lines, m)[lower_of(name)] == value,
    decreases m,
{
    if m > k + 1 {
        lemma_headers_upto_value(lines, k, m - 1, name, value);
    }
}

/// A header line before the first blank line gives its value under the
/// lower-cased form of its name, whatever the case it was sent in, unless a
/// later header line has a name with the same lower-cased form.
pub proof fn lemma_header_lookup(data: Seq<char>, k: int, name: Seq<char>, value: Seq<char>)
    requires
        1 <= k < header_end_from(request_lines(data), 1),
        header_split(request_lines(data)[k]) == Some((name, value)),
        forall|j: int|
            k < j < header_end_from(request_lines(data), 1) ==> (#[trigger] header_split(
                request_lines(data)[j],
            ) matches Some(p) ==> lower_of(p.0) != lower_of(name)),
    ensures
        parse_spec(data).headers.contains_key(lower_of(name)),
        parse_spec(data).headers[lower_of(name)] == value,
{
    let lines = request_lines(data);
    if lines.len() == 0 {
        assert(header_end_from(lines, 1) == 0);
    } else {
        lemma_header_end_bounds(lines, 1);
        lemma_headers_upto_value(lines, k, header_end_from(lines, 1), name, value);
    }
}

proof fn lemma_header_split_at(l: Seq<char>, i: int)
    requires
        0 <= i,
        i + 1 < l.len(),
        l[i] == ':' && l[i + 1] == ' ',
        forall|j: int| 0 <= j < i ==> !(#[trigger] l[j] == ':' && l[j + 1] == ' '),
    ensures
        header_split(l) == Some((l.take(i), l.skip(i + 2))),
    decreases i,
{
    if i == 0 {
        assert(l.take(0) =~= Seq::<char>::empty());
    } else {
        let t = l.drop_first();
        assert forall|j: int| 0 <= j < i - 1 implies !(#[trigger] t[j] == ':' && t[j + 1] == ' ') by {
            assert(l[j + 1] == t[j] && l[j + 2] == t[j + 1]);
        }
        assert(!(l[0] == ':' && l[1] == ' '));
        lemma_header_split_at(t, i - 1);
        assert(seq![l[0]] + t.take(i - 1) =~= l.take(i));
        assert(t.skip(i + 1) =~= l.skip(i + 2));
    }
}

proof fn lemma_header_split_none(l: Seq<char>)
    requires
        forall|j: int| 0 <= j && j + 1 < l.len() ==> !(#[trigger] l[j] == ':' && l[j + 1] == ' '),
    ensures
        header_split(l) is None,
    decreases l.len(),
{
    if l.len() >= 2 {
        let t = l.drop_first();
        assert forall|j: int| 0 <= j && j + 1 < t.len() implies !(#[trigger] t[j] == ':' && t[j + 1]
            == ' ') by {
            assert(l[j + 1] == t[j] && l[j + 2] == t[j + 1]);
        }
        assert(!(l[0] == ':' && l[1] == ' '));
        lemma_header_split_none(t);
    }
}

/// Splits a header line at its first `": "`.
fn split_header(l: &str) -> (r: Option<(String, String)>)
    ensures
        r is None <==> header_split(l@) is None,
        r matches Some((a, b)) ==> header_split(l@) == Some((a@, b@)),
{
    let n = l.unicode_len();
    let mut i: usize = 0;
    while n > 0 && i < n - 1
        invariant
            n == l@.len(),
            i <= n,
            forall|j: int| 0 <= j < i && j + 1 < n ==> !(#[trigger] l@[j] == ':' && l@[j + 1] == ' '),
        decreases n - i,
    {
        if l.get_char(i) == ':' && l.get_char(i + 1) == ' ' {
            proof {
                lemma_header_split_at(l@, i as int);
            }
            let name = l.substring_char(0, i).to_owned();
            let value = l.substring_char(i + 2, n).to_owned();
            return Some((name, value));
        }
        i = i + 1;
    }
    proof {
        lemma_header_split_none(l@);
    }
    None
}

fn strip_line_end(l: &str) -> (r: String)
    ensures
        r@ == strip_cr(l@),
{
    let n = l.unicode_len();
    if n > 0 && l.get_char(n - 1) == '\r' {
        l.substring_char(0, n - 1).to_owned()
    } else {
        l.to_owned()
    }
}

fn trim_trailing_nul(l: &str) -> (r: String)
    ensures
        r@ == trim_nul(l@),
{
    let n = l.unicode_len();
    let mut j: usize = n;
    proof {
        assert(l@.take(n as int) =~= l@);
    }
    while j > 0 && l.get_char(j - 1) == '\0'
        invariant
            j <= n == l@.len(),
            trim_nul(l@) == trim_nul(l@.take(j as int)),
        decreases j,
    {
        proof {
            assert(l@.take(j as int).drop_last() =~= l@.take(j - 1));
        }
        j = j - 1;
    }
    l.substring_char(0, j).to_owned()
}

/// The lines of a request text.
fn split_lines(data: &str) -> (r: Vec<String>)
    ensures
        r@.map_values(|l: String| l@) == request_lines(data@),
{
    let pieces = split_all(data, '\n');
    proof {
        lemma_components_split(data@, '\n');
    }
    let ghost cs = components(data@, '\n');
    let mut n = pieces.len();
    if pieces[n - 1].as_str().unicode_len() == 0 {
        n = n - 1;
    }
    let ghost kept = if cs.last().len() == 0 {
        cs.drop_last()
    } else {
        cs
    };
    let mut out: Vec<String> = Vec::new();
    let mut i: usize = 0;
    while i < n
        invariant
            n == kept.len(),
            kept.len() <= cs.len() == pieces@.len(),
            forall|j: int| 0 <= j < kept.len() ==> kept[j] == cs[j],
            forall|j: int| 0 <= j < pieces@.len() ==> pieces@[j]@ == cs[j],
            i <= n,
            out@.len() == i,
            forall|j: int|
                0 <= j < i ==> out@[j]@ == if j + 1 < cs.len() {
                    strip_cr(kept[j])
                } else {
                    kept[j]
                },
        decreases n - i,
    {
        let line = if i + 1 < pieces.len() {
            strip_line_end(pieces[i].as_str())
        } else {
            pieces[i].clone()
        };
        out.push(line);
        i = i + 1;
    }
    proof {
        assert(out@.map_values(|l: String| l@) =~= request_lines(data@));
    }
    out
}

fn method_from(tok: &str) -> (r: HttpMethod)
    ensures
        r == method_of(tok@),
{
    let t = tok.to_owned();
    if t == "GET".to_owned() {
        HttpMethod::Get
    } else if t == "POST".to_owned() {
        HttpMethod::Post
    } else {
        HttpMethod::Unimplemented
    }
}

/// Parses a raw request. Header names are lower-cased, so that looking a
/// header up by its lower-case name finds it whatever case it was sent in.
pub fn parse_http(data: &str) -> (r: HttpRequest)
    ensures
        r@ == parse_spec(data@),
{
    let lines = split_lines(data);
    let ghost ls = request_lines(data@);
    assert(lines@.len() == ls.len());
    if lines.len() == 0 {
        return HttpRequest {
            method: HttpMethod::Unimplemented,
            path: String::new(),
            headers: StrMap::new(),
            params: StrMap::new(),
            body: String::new(),
        };
    }
    assert(lines@[0]@ == ls[0]);
    let words = split_all(lines[0].as_str(), ' ');
    proof {
        lemma_components_split(ls[0], ' ');
    }
    let method = method_from(words[0].as_str());
    let path = if words.len() > 1 {
        words[1].clone()
    } else {
        String::new()
    };
    let n = lines.len();
    let mut headers = StrMap::new();
    let mut k: usize = 1;
    while k < n && lines[k].as_str().unicode_len() > 0
        invariant
            n == lines@.len() == ls.len(),
            forall|j: int| 0 <= j < n ==> lines@[j]@ == ls[j],
            1 <= k <= n,
            header_end_from(ls, 1) == header_end_from(ls, k as int),
            headers@ == headers_upto(ls, k as int),
        decreases n - k,
    {
        if let Some((name, value)) = split_header(lines[k].as_str()) {
            headers.insert(lowercase(name.as_str()), value);
        }
        k = k + 1;
    }
    let body = if n > 1 {
        trim_trailing_nul(lines[n - 1].as_str())
    } else {
        String::new()
    };
    HttpRequest { method, path, headers, params: StrMap::new(), body }
}

} // verus!
