//! A map from strings to strings, where a later insertion of a key replaces
//! the earlier value.
use vstd::prelude::*;

verus! {

/// The map that a sequence of insertions leaves, the last one of a key winning.
pub open spec fn map_of(e: Seq<(String, String)>) -> Map<Seq<char>, Seq<char>>
    decreases e.len(),
{
    if e.len() == 0 {
        Map::empty()
    } else {
        map_of(e.drop_last()).insert(e.last().0@, e.last().1@)
    }
}

/// A key has a value exactly when it was inserted.
pub proof fn lemma_map_of_contains(e: Seq<(String, String)>, k: Seq<char>)
    ensures
        map_of(e).contains_key(k) <==> exists|j: int| 0 <= j < e.len() && (#[trigger] e[j]).0@ == k,
    decreases e.len(),
{
    if e.len() > 0 {
        let f = e.drop_last();
        lemma_map_of_contains(f, k);
        if map_of(e).contains_key(k) {
            if e.last().0@ == k {
                assert(e[e.len() - 1].0@ == k);
            } else {
                let j = choose|j: int| 0 <= j < f.len() && (#[trigger] f[j]).0@ == k;
                assert(e[j] == f[j]);
            }
        }
        if exists|j: int| 0 <= j < e.len() && (#[trigger] e[j]).0@ == k {
            let j = choose|j: int| 0 <= j < e.len() && (#[trigger] e[j]).0@ == k;
            if j < e.len() - 1 {
                assert(f[j] == e[j]);
            }
        }
    }
}

/// The value of a key is that of its last insertion.
pub proof fn lemma_map_of_value(e: Seq<(String, String)>, k: Seq<char>, j: int)
    requires
        0 <= j < e.len(),
        e[j].0@ == k,
        forall|l: int| j < l < e.len() ==> (#[trigger] e[l]).0@ != k,
    ensures
        map_of(e).contains_key(k),
        map_of(e)[k] == e[j].1@,
    decreases e.len(),
{
    if j < e.len() - 1 {
        let f = e.drop_last();
        assert(e[e.len() - 1].0@ != k);
        assert forall|l: int| j < l < f.len() implies (#[trigger] f[l]).0@ != k by {
            assert(e[l] == f[l]);
        }
        assert(f[j] == e[j]);
        lemma_map_of_value(f, k, j);
    }
}

/// Strings keyed by strings.
pub struct StrMap {
    entries: Vec<(String, String)>,
}

impl View for StrMap {
    type V = Map<Seq<char>, Seq<char>>;

    closed spec fn view(&self) -> Map<Seq<char>, Seq<char>> {
        map_of(self.entries@)
    }
}

impl StrMap {
    /// The empty map.
    pub fn new() -> (r: StrMap)
        ensures
            r@ == Map::<Seq<char>, Seq<char>>::empty(),
    {
        StrMap { entries: Vec::new() }
    }

    /// Sets `key` to `value`, replacing any earlier value of `key`.
    pub fn insert(&mut self, key: String, value: String)
        ensures
            final(self)@ == old(self)@.insert(key@, value@),
    {
        self.entries.push((key, value));
        proof {
            assert(self.entries@.drop_last() =~= old(self).entries@);
        }
    }

    /// The value of `key`, if it has one.
    pub fn get(&self, key: &str) -> (r: Option<&String>)
        ensures
            r is None <==> !self@.contains_key(key@),
            r matches Some(v) ==> v@ == self@[key@],
    {
        let k = key.to_owned();
        let mut i: usize = self.entries.len();
        while i > 0
            invariant
                i <= self.entries@.len(),
                k@ == key@,
                forall|l: int| i <= l < self.entries@.len() ==> (#[trigger] self.entries@[l]).0@ != key@,
            decreases i,
        {
            i = i - 1;
            if self.entries[i].0 == k {
                proof {
                    lemma_map_of_value(self.entries@, key@, i as int);
                }
                return Some(&self.entries[i].1);
            }
        }
        proof {
            lemma_map_of_contains(self.entries@, key@);
        }
        None
    }

    /// Whether no key has a value.
    pub fn is_empty(&self) -> (r: bool)
        ensures
            r == (self@ == Map::<Seq<char>, Seq<char>>::empty()),
    {
        proof {
            if self.entries@.len() > 0 {
                let e = self.entries@;
                assert(map_of(e).contains_key(e.last().0@));
                assert(!Map::<Seq<char>, Seq<char>>::empty().contains_key(e.last().0@));
            } else {
                assert(map_of(self.entries@) =~= Map::<Seq<char>, Seq<char>>::empty());
            }
        }
        self.entries.len() == 0
    }
}

} // verus!
