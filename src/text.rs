//! Splitting text on a delimiter character, in spec and in exec code.
use itertools::Itertools;
use vstd::prelude::*;
use vstd::string::*;

verus! {

/// The text before the first `d` in `s`, and the text after it.
/// Where `s` holds no `d`, the first part is all of `s` and the second is empty.
pub open spec fn split_first(s: Seq<char>, d: char) -> (Seq<char>, Seq<char>)
    decreases s.len(),
{
    if s.len() == 0 {
        (s, s)
    } else if s[0] == d {
        (Seq::empty(), s.drop_first())
    } else {
        let p = split_first(s.drop_first(), d);
        (seq![s[0]] + p.0, p.1)
    }
}

/// The pieces of `s` between occurrences of `d`, in order: one more piece than
/// there are `d`s, empty pieces included.
pub open spec fn components(s: Seq<char>, d: char) -> Seq<Seq<char>>
    decreases s.len(),
{
    if s.len() == 0 {
        seq![Seq::empty()]
    } else {
        let rest = components(s.drop_first(), d);
        if s[0] == d {
            seq![Seq::<char>::empty()] + rest
        } else {
            rest.update(0, seq![s[0]] + rest[0])
        }
    }
}

/// Splitting at the first `d` peels the first component off.
pub proof fn lemma_components_split(s: Seq<char>, d: char)
    ensures
        components(s, d).len() >= 1,
        s.contains(d) ==> components(s, d) == seq![split_first(s, d).0] + components(
            split_first(s, d).1,
            d,
        ),
        s.contains(d) ==> split_first(s, d).1.len() < s.len(),
        s.contains(d) ==> s == split_first(s, d).0 + seq![d] + split_first(s, d).1,
        s.contains(d) ==> !split_first(s, d).0.contains(d),
        !s.contains(d) ==> components(s, d) == seq![s],
        !s.contains(d) ==> split_first(s, d) == (s, Seq::<char>::empty()),
    decreases s.len(),
{
    if s.len() == 0 {
        assert(s =~= Seq::<char>::empty());
    } else {
        let t = s.drop_first();
        lemma_components_split(t, d);
        if s[0] == d {
            assert(s.contains(d)) by {
                assert(s[0] == d);
            }
            assert(s =~= Seq::<char>::empty() + seq![d] + t);
        } else {
            assert(s =~= seq![s[0]] + t);
            if s.contains(d) {
                let k = choose|k: int| 0 <= k < s.len() && s[k] == d;
                assert(t[k - 1] == d);
                assert(t.contains(d));
                let p = split_first(t, d);
                assert(components(s, d) =~= seq![seq![s[0]] + p.0] + components(p.1, d));
                assert(s =~= (seq![s[0]] + p.0) + seq![d] + p.1);
                assert forall|j: int| 0 <= j < p.0.len() + 1 implies (seq![s[0]] + p.0)[j] != d by {
                    if j > 0 {
                        assert((seq![s[0]] + p.0)[j] == p.0[j - 1]);
                    }
                }
            } else {
                assert forall|j: int| 0 <= j < t.len() implies t[j] != d by {
                    assert(s[j + 1] == t[j]);
                }
                assert(components(s, d) =~= seq![s]);
            }
        }
    }
}

/// Where the first `d` of `s` stands at `i`, the split is at `i`.
pub proof fn lemma_split_at(s: Seq<char>, d: char, i: int)
    requires
        0 <= i < s.len(),
        s[i] == d,
        forall|j: int| 0 <= j < i ==> s[j] != d,
    ensures
        s.contains(d),
        split_first(s, d) == (s.subrange(0, i), s.subrange(i + 1, s.len() as int)),
    decreases i,
{
    if i == 0 {
        assert(s.drop_first() =~= s.subrange(1, s.len() as int));
        assert(s.subrange(0, 0) =~= Seq::<char>::empty());
    } else {
        let t = s.drop_first();
        assert forall|j: int| 0 <= j < i - 1 implies t[j] != d by {
            assert(s[j + 1] == t[j]);
        }
        lemma_split_at(t, d, i - 1);
        assert(seq![s[0]] + t.subrange(0, i - 1) =~= s.subrange(0, i));
        assert(t.subrange(i, t.len() as int) =~= s.subrange(i + 1, s.len() as int));
    }
}

/// Where `a` holds no `d`, the first `d` of `a`, `d`, `b` is the one after `a`.
pub proof fn lemma_split_first_concat(a: Seq<char>, d: char, b: Seq<char>)
    requires
        !a.contains(d),
    ensures
        (a + seq![d] + b).contains(d),
        split_first(a + seq![d] + b, d) == (a, b),
    decreases a.len(),
{
    let s = a + seq![d] + b;
    assert(s[a.len() as int] == d);
    if a.len() == 0 {
        assert(s.drop_first() =~= b);
        assert(a =~= Seq::<char>::empty());
    } else {
        assert(a[0] != d);
        let t = a.drop_first();
        assert(!t.contains(d)) by {
            if t.contains(d) {
                let k = choose|k: int| 0 <= k < t.len() && t[k] == d;
                assert(a[k + 1] == d);
            }
        }
        assert(s.drop_first() =~= t + seq![d] + b);
        lemma_split_first_concat(t, d, b);
        assert(seq![a[0]] + t =~= a);
    }
}

/// Splits `s` at its first `d`; `None` where `s` holds none.
pub fn split_once_char(s: &str, d: char) -> (r: Option<(String, String)>)
    ensures
        r is None <==> !s@.contains(d),
        r matches Some((a, b)) ==> (a@, b@) == split_first(s@, d),
{
    let n = s.unicode_len();
    let mut i: usize = 0;
    while i < n
        invariant
            n == s@.len(),
            i <= n,
            forall|j: int| 0 <= j < i ==> s@[j] != d,
        decreases n - i,
    {
        if s.get_char(i) == d {
            proof {
                lemma_split_at(s@, d, i as int);
            }
            let a = s.substring_char(0, i).to_owned();
            let b = s.substring_char(i + 1, n).to_owned();
            return Some((a, b));
        }
        i = i + 1;
    }
    None
}

/// Relies on `str::split` with a `char` pattern, collected by itertools'
/// `collect_vec`: the pieces between the occurrences of `d`, in order, with an
/// empty piece before a leading `d`, between two adjacent ones and after a
/// trailing one.
#[verifier::external_body]
pub(crate) fn split_all(s: &str, d: char) -> (r: Vec<String>)
    ensures
        r@.len() == components(s@, d).len(),
        forall|i: int| 0 <= i < r@.len() ==> r@[i]@ == components(s@, d)[i],
{
    s.split(d).map(String::from).collect_vec()
}

} // verus!
