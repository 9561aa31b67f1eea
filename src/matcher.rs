//! Route patterns: compiling a pattern string into segments, and matching a
//! request path against the compiled form.
use crate::strmap::StrMap;
use crate::text::{
    components, lemma_components_split, lemma_split_first_concat, split_all, split_first,
    split_once_char,
};
use vstd::prelude::*;
use vstd::string::*;

verus! {

/// One `/`-separated piece of a pattern.
#[derive(Debug, PartialEq, Clone)]
pub enum Segment {
    /// Captures the path component under this name.
    Param(String),
    /// Must equal the path component exactly.
    Literal(String),
}

/// The mathematical form of a [`Segment`].
pub enum SegmentView {
    Param(Seq<char>),
    Literal(Seq<char>),
}

impl View for Segment {
    type V = SegmentView;

    open spec fn view(&self) -> SegmentView {
        match self {
            Segment::Param(n) => SegmentView::Param(n@),
            Segment::Literal(l) => SegmentView::Literal(l@),
        }
    }
}

/// A compiled route pattern: its segments, and whether it ends in a `*` that
/// takes whatever is left of the path.
#[derive(Clone)]
pub struct Path {
    pub segments: Vec<Segment>,
    pub trailing: bool,
}

impl View for Path {
    type V = (Seq<SegmentView>, bool);

    open spec fn view(&self) -> (Seq<SegmentView>, bool) {
        (self.segments@.map_values(|s: Segment| s@), self.trailing)
    }
}

/// What a successful match captured: the parameters by name, and the text
/// that a trailing wildcard took (empty for a pattern without one).
pub struct Match {
    pub params: StrMap,
    pub trailing: String,
}

impl View for Match {
    type V = (Map<Seq<char>, Seq<char>>, Seq<char>);

    open spec fn view(&self) -> (Map<Seq<char>, Seq<char>>, Seq<char>) {
        (self.params@, self.trailing@)
    }
}

/// A pattern component `:name` is a parameter; any other is a literal.
pub open spec fn compile_segment(c: Seq<char>) -> SegmentView {
    if c.len() > 0 && c[0] == ':' {
        SegmentView::Param(c.drop_first())
    } else {
        SegmentView::Literal(c)
    }
}

/// The compiled form of a pattern: a last component of exactly `*` sets the
/// trailing flag and is left out; every other component becomes a segment.
pub open spec fn compile(p: Seq<char>) -> (Seq<SegmentView>, bool) {
    let cs = components(p, '/');
    let t = cs.last() == seq!['*'];
    let kept = if t {
        cs.drop_last()
    } else {
        cs
    };
    (kept.map_values(|c: Seq<char>| compile_segment(c)), t)
}

/// Comparing one segment with one path component.
pub open spec fn step(seg: SegmentView, cur: Seq<char>, params: Map<Seq<char>, Seq<char>>) -> Option<
    Map<Seq<char>, Seq<char>>,
> {
    match seg {
        SegmentView::Param(n) => Some(params.insert(n, cur)),
        SegmentView::Literal(l) => if l == cur {
            Some(params)
        } else {
            None
        },
    }
}

/// Matching the rest `s` of a path against the segments from `i` on, with
/// `params` captured so far.
pub open spec fn match_from(
    segs: Seq<SegmentView>,
    trailing: bool,
    i: int,
    s: Seq<char>,
    params: Map<Seq<char>, Seq<char>>,
) -> Option<(Map<Seq<char>, Seq<char>>, Seq<char>)>
    decreases segs.len() - i,
{
    if i >= segs.len() {
        Some(
            (
                params,
                if trailing {
                    s
                } else {
                    Seq::empty()
                },
            ),
        )
    } else if s.contains('/') {
        if i == segs.len() - 1 && !trailing {
            None
        } else {
            match step(segs[i], split_first(s, '/').0, params) {
                Some(p) => match_from(segs, trailing, i + 1, split_first(s, '/').1, p),
                None => None,
            }
        }
    } else if i == segs.len() - 1 && !trailing {
        match step(segs[i], s, params) {
            Some(p) => Some((p, Seq::empty())),
            None => None,
        }
    } else {
        None
    }
}

/// The result of matching path `s` against compiled pattern `p`.
pub open spec fn match_spec(p: (Seq<SegmentView>, bool), s: Seq<char>) -> Option<
    (Map<Seq<char>, Seq<char>>, Seq<char>),
> {
    match_from(p.0, p.1, 0, s, Map::empty())
}

/// Every literal among the first segments equals the path component at the same place.
pub open spec fn literals_agree(segs: Seq<SegmentView>, cs: Seq<Seq<char>>) -> bool {
    forall|j: int|
        0 <= j < segs.len() && j < cs.len() ==> (#[trigger] segs[j] matches SegmentView::Literal(
            l,
        ) ==> l == cs[j])
}

/// Matching from segment `i` on succeeds exactly when the rest of the path has
/// as many components as there are segments left (more, with a trailing
/// wildcard) and the literals agree.
proof fn lemma_match_from_shape(
    segs: Seq<SegmentView>,
    t: bool,
    i: int,
    s: Seq<char>,
    params: Map<Seq<char>, Seq<char>>,
)
    requires
        0 <= i <= segs.len(),
        !t ==> i < segs.len(),
    ensures
        match_from(segs, t, i, s, params) is Some <==> ((if t {
            components(s, '/').len() > segs.len() - i
        } else {
            components(s, '/').len() == segs.len() - i
        }) && literals_agree(segs.subrange(i, segs.len() as int), components(s, '/'))),
    decreases segs.len() - i,
{
    lemma_components_split(s, '/');
    let cs = components(s, '/');
    let rest = segs.subrange(i, segs.len() as int);
    if i < segs.len() {
        if s.contains('/') {
            let p = split_first(s, '/');
            let cs2 = components(p.1, '/');
            lemma_components_split(p.1, '/');
            assert(cs.len() == cs2.len() + 1);
            if i == segs.len() - 1 && !t {
            } else {
                match step(segs[i], p.0, params) {
                    Some(q) => {
                        lemma_match_from_shape(segs, t, i + 1, p.1, q);
                        let rest2 = segs.subrange(i + 1, segs.len() as int);
                        assert(rest[0] == segs[i]);
                        assert(cs[0] == p.0);
                        if literals_agree(rest2, cs2) {
                            assert forall|j: int|
                                0 <= j < rest.len() && j < cs.len() implies (#[trigger] rest[j] matches SegmentView::Literal(l)
                                ==> l == cs[j]) by {
                                if j > 0 {
                                    assert(rest[j] == rest2[j - 1]);
                                    assert(cs[j] == cs2[j - 1]);
                                }
                            }
                        }
                        if literals_agree(rest, cs) {
                            assert forall|j: int|
                                0 <= j < rest2.len() && j < cs2.len() implies (#[trigger] rest2[j] matches SegmentView::Literal(l)
                                ==> l == cs2[j]) by {
                                assert(rest[j + 1] == rest2[j]);
                                assert(cs[j + 1] == cs2[j]);
                            }
                        }
                    },
                    None => {
                        assert(rest[0] == segs[i]);
                        assert(cs[0] == p.0);
                    },
                }
            }
        } else {
            assert(rest[0] == segs[i]);
            assert(cs[0] == s);
        }
    }
}

/// For a pattern without a trailing wildcard, a path matches exactly when it
/// has as many `/`-separated components as the pattern has segments and every
/// literal segment equals the component at its place.
pub proof fn lemma_exact_pattern_matches(pattern: Seq<char>, path: Seq<char>)
    requires
        !compile(pattern).1,
    ensures
        match_spec(compile(pattern), path) is Some <==> (components(path, '/').len()
            == compile(pattern).0.len() && literals_agree(compile(pattern).0, components(path, '/'))),
{
    let segs = compile(pattern).0;
    lemma_components_split(pattern, '/');
    lemma_match_from_shape(segs, false, 0, path, Map::empty());
    assert(segs.subrange(0, segs.len() as int) =~= segs);
}

/// For a pattern with a trailing wildcard, a path matches exactly when it has
/// more `/`-separated components than the pattern has segments and every
/// literal segment equals the component at its place: whatever the wildcard
/// takes, empty or holding further `/`s, plays no part.
pub proof fn lemma_wildcard_pattern_matches(pattern: Seq<char>, path: Seq<char>)
    requires
        compile(pattern).1,
    ensures
        match_spec(compile(pattern), path) is Some <==> (components(path, '/').len()
            > compile(pattern).0.len() && literals_agree(compile(pattern).0, components(path, '/'))),
{
    let segs = compile(pattern).0;
    lemma_match_from_shape(segs, true, 0, path, Map::empty());
    assert(segs.subrange(0, segs.len() as int) =~= segs);
}

/// The path text that components `cs` make, each followed by a `/`.
pub open spec fn slash_terminated(cs: Seq<Seq<char>>) -> Seq<char>
    decreases cs.len(),
{
    if cs.len() == 0 {
        Seq::empty()
    } else {
        cs[0] + seq!['/'] + slash_terminated(cs.drop_first())
    }
}

proof fn lemma_wildcard_remainder_from(
    segs: Seq<SegmentView>,
    i: int,
    cs: Seq<Seq<char>>,
    r: Seq<char>,
    params: Map<Seq<char>, Seq<char>>,
)
    requires
        0 <= i <= segs.len(),
        cs.len() == segs.len() - i,
        forall|j: int| 0 <= j < cs.len() ==> !(#[trigger] cs[j]).contains('/'),
        literals_agree(segs.subrange(i, segs.len() as int), cs),
    ensures
        match_from(segs, true, i, slash_terminated(cs) + r, params) matches Some(m) && m.1 == r,
    decreases segs.len() - i,
{
    if i < segs.len() {
        let rest = cs.drop_first();
        let tail = slash_terminated(rest) + r;
        assert(slash_terminated(cs) + r =~= cs[0] + seq!['/'] + tail);
        assert(!cs[0].contains('/'));
        lemma_split_first_concat(cs[0], '/', tail);
        let sub = segs.subrange(i, segs.len() as int);
        let sub2 = segs.subrange(i + 1, segs.len() as int);
        assert(sub[0] == segs[i]);
        let p = step(segs[i], cs[0], params);
        assert(p is Some);
        assert forall|j: int| 0 <= j < rest.len() implies !(#[trigger] rest[j]).contains('/') by {
            assert(rest[j] == cs[j + 1]);
        }
        assert forall|j: int|
            0 <= j < sub2.len() && j < rest.len() implies (#[trigger] sub2[j] matches SegmentView::Literal(
            l,
        ) ==> l == rest[j]) by {
            assert(sub[j + 1] == sub2[j]);
            assert(rest[j] == cs[j + 1]);
        }
        lemma_wildcard_remainder_from(segs, i + 1, rest, r, p->0);
    } else {
        assert(slash_terminated(cs) + r =~= r);
    }
}

/// With a trailing wildcard, a path that gives each segment one component
/// ended by `/`, the literals agreeing, matches whatever text `r` follows,
/// empty or holding further `/`s, and the wildcard takes exactly `r`.
pub proof fn lemma_wildcard_takes_remainder(pattern: Seq<char>, cs: Seq<Seq<char>>, r: Seq<char>)
    requires
        compile(pattern).1,
        cs.len() == compile(pattern).0.len(),
        forall|j: int| 0 <= j < cs.len() ==> !(#[trigger] cs[j]).contains('/'),
        literals_agree(compile(pattern).0, cs),
    ensures
        match_spec(compile(pattern), slash_terminated(cs) + r) matches Some(m) && m.1 == r,
{
    let segs = compile(pattern).0;
    assert(segs.subrange(0, segs.len() as int) =~= segs);
    lemma_wildcard_remainder_from(segs, 0, cs, r, Map::empty());
}

fn is_wildcard(c: &str) -> (r: bool)
    ensures
        r == (c@ == seq!['*']),
{
    if c.unicode_len() == 1 {
        let ch = c.get_char(0);
        proof {
            if ch == '*' {
                assert(c@ =~= seq!['*']);
            }
        }
        ch == '*'
    } else {
        false
    }
}

fn compile_component(c: &str) -> (r: Segment)
    ensures
        r@ == compile_segment(c@),
{
    let n = c.unicode_len();
    if n > 0 && c.get_char(0) == ':' {
        let name = c.substring_char(1, n).to_owned();
        proof {
            assert(name@ =~= c@.drop_first());
        }
        Segment::Param(name)
    } else {
        Segment::Literal(c.to_owned())
    }
}

fn apply_segment(segment: &Segment, current: String, params: &mut StrMap) -> (ok: bool)
    ensures
        match step(segment@, current@, old(params)@) {
            Some(p) => ok && final(params)@ == p,
            None => !ok,
        },
{
    match segment {
        Segment::Param(name) => {
            params.insert(name.clone(), current);
            true
        },
        Segment::Literal(literal) => *literal == current,
    }
}

impl Path {
    /// Compiles a pattern: split on `/`, a last component `*` marks a trailing
    /// wildcard, `:name` components become parameters and the rest literals.
    pub fn new(path: String) -> (r: Path)
        ensures
            r@ == compile(path@),
    {
        let parts = split_all(path.as_str(), '/');
        proof {
            lemma_components_split(path@, '/');
        }
        let ghost cs = components(path@, '/');
        let trailing = is_wildcard(parts[parts.len() - 1].as_str());
        let mut num_segments = parts.len();
        if trailing {
            num_segments = num_segments - 1;
        }
        let mut out_segments: Vec<Segment> = Vec::with_capacity(num_segments);
        let mut n: usize = 0;
        while n < num_segments
            invariant
                num_segments <= parts@.len(),
                parts@.len() == cs.len(),
                forall|j: int| 0 <= j < parts@.len() ==> parts@[j]@ == cs[j],
                n <= num_segments,
                out_segments@.len() == n,
                forall|j: int| 0 <= j < n ==> out_segments@[j]@ == compile_segment(cs[j]),
            decreases num_segments - n,
        {
            let segment = compile_component(parts[n].as_str());
            out_segments.push(segment);
            n = n + 1;
        }
        let r = Path { segments: out_segments, trailing: trailing };
        proof {
            let kept = if trailing {
                cs.drop_last()
            } else {
                cs
            };
            assert(r@.0 =~= kept.map_values(|c: Seq<char>| compile_segment(c)));
        }
        r
    }

    /// Matches a request path against this pattern, component by component.
    pub fn match_path(&self, s: String) -> (r: Option<Match>)
        ensures
            r is None <==> match_spec(self@, s@) is None,
            r matches Some(m) ==> m@ == match_spec(self@, s@)->0,
    {
        let ghost segs = self@.0;
        let mut params = StrMap::new();
        let mut rest = s;
        let n = self.segments.len();
        let mut i: usize = 0;
        while i < n
            invariant
                n == self.segments@.len(),
                segs == self@.0,
                i <= n,
                match_spec(self@, s@) == match_from(segs, self.trailing, i as int, rest@, params@),
            decreases n - i,
        {
            assert(segs[i as int] == self.segments@[i as int]@);
            match split_once_char(rest.as_str(), '/') {
                Some((current, next)) => {
                    if i + 1 == n && !self.trailing {
                        return None;
                    }
                    if !apply_segment(&self.segments[i], current, &mut params) {
                        return None;
                    }
                    rest = next;
                },
                None => {
                    if i + 1 != n || self.trailing {
                        return None;
                    }
                    if !apply_segment(&self.segments[i], rest, &mut params) {
                        return None;
                    }
                    return Some(Match { params, trailing: String::new() });
                },
            }
            i = i + 1;
        }
        if self.trailing {
            Some(Match { params, trailing: rest })
        } else {
            Some(Match { params, trailing: String::new() })
        }
    }
}

} // verus!
