//! An ordered table of route patterns and their handlers; the first pattern
//! that matches a path decides.
use crate::matcher::{compile, match_spec, Match, Path, SegmentView};
use vstd::prelude::*;

verus! {

/// The index of the first route, from `i` on, whose pattern matches `s`.
pub open spec fn first_match_from<H>(
    routes: Seq<((Seq<SegmentView>, bool), H)>,
    s: Seq<char>,
    i: int,
) -> Option<int>
    decreases routes.len() - i,
{
    if i < 0 || i >= routes.len() {
        None
    } else if match_spec(routes[i].0, s) is Some {
        Some(i)
    } else {
        first_match_from(routes, s, i + 1)
    }
}

/// The index of the first route whose pattern matches `s`.
pub open spec fn first_match<H>(routes: Seq<((Seq<SegmentView>, bool), H)>, s: Seq<char>) -> Option<
    int,
> {
    first_match_from(routes, s, 0)
}

/// The search finds a matching route and none before it, or finds that none
/// matches.
pub proof fn lemma_first_match_from<H>(
    routes: Seq<((Seq<SegmentView>, bool), H)>,
    s: Seq<char>,
    i: int,
)
    requires
        0 <= i,
    ensures
        first_match_from(routes, s, i) matches Some(k) ==> i <= k < routes.len() && match_spec(
            routes[k].0,
            s,
        ) is Some && forall|l: int| i <= l < k ==> match_spec(#[trigger] routes[l].0, s) is None,
        first_match_from(routes, s, i) is None ==> forall|l: int|
            i <= l < routes.len() ==> match_spec(#[trigger] routes[l].0, s) is None,
    decreases routes.len() - i,
{
    if i < routes.len() && match_spec(routes[i].0, s) is None {
        lemma_first_match_from(routes, s, i + 1);
    }
}

/// Where two registered patterns both match a path, the one registered
/// earlier is chosen over the later one.
pub proof fn lemma_first_registered_wins<H>(
    routes: Seq<((Seq<SegmentView>, bool), H)>,
    s: Seq<char>,
    i: int,
    j: int,
)
    requires
        0 <= i < j < routes.len(),
        match_spec(routes[i].0, s) is Some,
        match_spec(routes[j].0, s) is Some,
    ensures
        first_match(routes, s) matches Some(k) && k <= i && k != j,
{
    lemma_first_match_from(routes, s, 0);
    if first_match(routes, s) is None {
        assert(match_spec(routes[i].0, s) is None);
    }
}

/// Routes in the order they were added, each a compiled pattern and a handler.
#[derive(Clone)]
pub struct Router<H> {
    handlers: Vec<(Path, H)>,
}

impl<H> View for Router<H> {
    type V = Seq<((Seq<SegmentView>, bool), H)>;

    closed spec fn view(&self) -> Seq<((Seq<SegmentView>, bool), H)> {
        self.handlers@.map_values(|r: (Path, H)| (r.0@, r.1))
    }
}

impl<H> Router<H> {
    /// A router with no routes.
    pub fn new() -> (r: Self)
        ensures
            r@ == Seq::<((Seq<SegmentView>, bool), H)>::empty(),
    {
        let r = Self { handlers: Vec::new() };
        proof {
            assert(r@ =~= Seq::<((Seq<SegmentView>, bool), H)>::empty());
        }
        r
    }

    /// Adds a route after all earlier ones: `path` compiled, with its handler.
    pub fn add(self, path: &str, handler: H) -> (r: Self)
        ensures
            r@ == self@.push((compile(path@), handler)),
    {
        let mut handlers = self.handlers;
        let compiled = Path::new(path.to_owned());
        handlers.push((compiled, handler));
        let r = Self { handlers };
        proof {
            assert(r@ =~= self@.push((compile(path@), handler)));
        }
        r
    }

    /// The match and the handler of the first route whose pattern matches
    /// `path`, or `None` where no route matches.
    pub fn match_url(self, path: &str) -> (r: Option<(Match, H)>)
        ensures
            first_match(self@, path@) is None ==> r is None,
            first_match(self@, path@) matches Some(k) ==> r matches Some((m, h)) && m@ == match_spec(
                self@[k].0,
                path@,
            )->0 && h == self@[k].1,
    {
        let n = self.handlers.len();
        let mut i: usize = 0;
        while i < n
            invariant
                n == self.handlers@.len(),
                n == self@.len(),
                i <= n,
                first_match(self@, path@) == first_match_from(self@, path@, i as int),
            decreases n - i,
        {
            assert(self@[i as int].0 == self.handlers@[i as int].0@);
            if let Some(matches) = self.handlers[i].0.match_path(path.to_owned()) {
                let ghost routes = self@;
                let mut handlers = self.handlers;
                let route = handlers.remove(i);
                assert(route.1 == routes[i as int].1);
                return Some((matches, route.1));
            }
            i = i + 1;
        }
        None
    }
}

} // verus!
