//! The structured context of a diagnostic report: a map from keys to
//! values, each key at most once.
use vstd::prelude::*;

use crate::text::{chars_equal_str, chars_of};

verus! {

/// The characters of each key and value.
pub open spec fn pair_views(s: Seq<(String, String)>) -> Seq<(Seq<char>, Seq<char>)> {
    Seq::new(s.len(), |i: int| (s[i].0@, s[i].1@))
}

/// No key occurs twice.
pub open spec fn keys_distinct(s: Seq<(Seq<char>, Seq<char>)>) -> bool {
    forall|i: int, j: int| 0 <= i < j < s.len() ==> (#[trigger] s[i]).0 != (#[trigger] s[j]).0
}

/// The map a sequence of pairs describes.
pub open spec fn pairs_map(s: Seq<(Seq<char>, Seq<char>)>) -> Map<Seq<char>, Seq<char>>
    decreases s.len(),
{
    if s.len() == 0 {
        Map::empty()
    } else {
        pairs_map(s.drop_last()).insert(s.last().0, s.last().1)
    }
}

proof fn lemma_pairs_contains(s: Seq<(Seq<char>, Seq<char>)>, k: Seq<char>)
    ensures
        pairs_map(s).contains_key(k) <==> exists|i: int| 0 <= i < s.len() && (#[trigger] s[i]).0 == k,
    decreases s.len(),
{
    if s.len() > 0 {
        let t = s.drop_last();
        lemma_pairs_contains(t, k);
        if pairs_map(s).contains_key(k) && s.last().0 != k {
            let i = choose|i: int| 0 <= i < t.len() && (#[trigger] t[i]).0 == k;
            assert(s[i] == t[i]);
        }
        if pairs_map(s).contains_key(k) && s.last().0 == k {
            assert(s[s.len() - 1].0 == k);
        }
        if exists|i: int| 0 <= i < s.len() && (#[trigger] s[i]).0 == k {
            let i = choose|i: int| 0 <= i < s.len() && (#[trigger] s[i]).0 == k;
            if i < s.len() - 1 {
                assert(t[i] == s[i]);
            }
        }
    }
}

proof fn lemma_distinct_prefix(s: Seq<(Seq<char>, Seq<char>)>)
    requires
        keys_distinct(s),
        s.len() > 0,
    ensures
        keys_distinct(s.drop_last()),
{
    let t = s.drop_last();
    assert forall|a: int, b: int| 0 <= a < b < t.len() implies (#[trigger] t[a]).0 != (#[trigger] t[b]).0 by {
        assert(t[a] == s[a] && t[b] == s[b]);
    }
}

proof fn lemma_pairs_index(s: Seq<(Seq<char>, Seq<char>)>, i: int)
    requires
        keys_distinct(s),
        0 <= i < s.len(),
    ensures
        pairs_map(s).contains_key(s[i].0),
        pairs_map(s)[s[i].0] == s[i].1,
    decreases s.len(),
{
    let t = s.drop_last();
    if i < s.len() - 1 {
        assert(t[i] == s[i]);
        lemma_distinct_prefix(s);
        lemma_pairs_index(t, i);
        assert(s[i].0 != s[s.len() - 1].0);
    }
}

proof fn lemma_pairs_update(s: Seq<(Seq<char>, Seq<char>)>, i: int, x: (Seq<char>, Seq<char>))
    requires
        keys_distinct(s),
        0 <= i < s.len(),
        x.0 == s[i].0,
    ensures
        pairs_map(s.update(i, x)) == pairs_map(s).insert(x.0, x.1),
        keys_distinct(s.update(i, x)),
    decreases s.len(),
{
    let u = s.update(i, x);
    assert forall|a: int, b: int| 0 <= a < b < u.len() implies (#[trigger] u[a]).0 != (#[trigger] u[b]).0 by {
        assert(u[a].0 == s[a].0 && u[b].0 == s[b].0);
    }
    lemma_distinct_prefix(s);
    if i == s.len() - 1 {
        assert(u.drop_last() =~= s.drop_last());
        assert(pairs_map(u) =~= pairs_map(s).insert(x.0, x.1));
    } else {
        let t = s.drop_last();
        assert(t[i] == s[i]);
        lemma_pairs_update(t, i, x);
        assert(u.drop_last() =~= t.update(i, x));
        assert(u.last() == s.last());
        assert(s.last().0 != x.0);
        assert(pairs_map(u) =~= pairs_map(s).insert(x.0, x.1));
    }
}

proof fn lemma_pairs_push(s: Seq<(Seq<char>, Seq<char>)>, x: (Seq<char>, Seq<char>))
    requires
        keys_distinct(s),
        forall|i: int| 0 <= i < s.len() ==> (#[trigger] s[i]).0 != x.0,
    ensures
        pairs_map(s.push(x)) == pairs_map(s).insert(x.0, x.1),
        keys_distinct(s.push(x)),
{
    let p = s.push(x);
    assert(p.drop_last() =~= s);
    assert forall|a: int, b: int| 0 <= a < b < p.len() implies (#[trigger] p[a]).0 != (#[trigger] p[b]).0 by {
        assert(p[a] == s[a]);
        if b < s.len() {
            assert(p[b] == s[b]);
        }
    }
}

proof fn lemma_pairs_len(s: Seq<(Seq<char>, Seq<char>)>)
    requires
        keys_distinct(s),
    ensures
        pairs_map(s).dom().finite(),
        pairs_map(s).len() == s.len(),
    decreases s.len(),
{
    if s.len() > 0 {
        let t = s.drop_last();
        lemma_distinct_prefix(s);
        lemma_pairs_len(t);
        lemma_pairs_contains(t, s.last().0);
        if pairs_map(t).contains_key(s.last().0) {
            let j = choose|j: int| 0 <= j < t.len() && (#[trigger] t[j]).0 == s.last().0;
            assert(s[j] == t[j]);
            assert(false);
        }
    }
}

/// Key/value context attached to a report; each key occurs once.
#[derive(Debug, PartialEq, Eq)]
pub struct Context {
    entries: Vec<(String, String)>,
}

impl Clone for Context {
    /// A copy with the same keys and values, in the same order.
    fn clone(&self) -> (c: Context)
        ensures
            c.view() == self.view(),
    {
        proof {
            use_type_invariant(self);
        }
        let ghost pv = pair_views(self.entries@);
        let mut entries: Vec<(String, String)> = Vec::new();
        let mut i: usize = 0;
        while i < self.entries.len()
            invariant
                i <= self.entries@.len(),
                pv == pair_views(self.entries@),
                pair_views(entries@) =~= pv.take(i as int),
            decreases self.entries@.len() - i,
        {
            let k = self.entries[i].0.clone();
            let v = self.entries[i].1.clone();
            entries.push((k, v));
            proof {
                assert(pv.take(i + 1) =~= pv.take(i as int).push(pv[i as int]));
            }
            i = i + 1;
        }
        proof {
            assert(pv.take(pv.len() as int) =~= pv);
        }
        Context { entries }
    }
}

impl Context {
    #[verifier::type_invariant]
    spec fn keys_unique(self) -> bool {
        keys_distinct(pair_views(self.entries@))
    }

    /// The context as a map from key to value.
    pub closed spec fn view(&self) -> Map<Seq<char>, Seq<char>> {
        pairs_map(pair_views(self.entries@))
    }

    /// An empty context.
    pub fn new() -> (c: Context)
        ensures
            c.view() == Map::<Seq<char>, Seq<char>>::empty(),
    {
        let c = Context { entries: Vec::new() };
        proof {
            assert(pair_views(c.entries@) =~= Seq::<(Seq<char>, Seq<char>)>::empty());
        }
        c
    }

    /// The position of `key`, if present.
    fn position(&self, key: &str) -> (r: Option<usize>)
        ensures
            match r {
                Some(i) => i < self.entries@.len() && pair_views(self.entries@)[i as int].0 == key@,
                None => !self.view().contains_key(key@),
            },
    {
        let ghost pv = pair_views(self.entries@);
        let mut i: usize = 0;
        while i < self.entries.len()
            invariant
                i <= self.entries@.len(),
                pv == pair_views(self.entries@),
                forall|j: int| 0 <= j < i ==> (#[trigger] pv[j]).0 != key@,
            decreases self.entries@.len() - i,
        {
            let c = chars_of(self.entries[i].0.as_str());
            if chars_equal_str(&c, key) {
                return Some(i);
            }
            i = i + 1;
        }
        proof {
            lemma_pairs_contains(pv, key@);
        }
        None
    }

    /// Set `key` to `value`, replacing any earlier value of `key`.
    pub fn insert(&mut self, key: &str, value: &str)
        ensures
            final(self).view() == old(self).view().insert(key@, value@),
    {
        proof {
            use_type_invariant(&*self);
        }
        let ghost pv = pair_views(self.entries@);
        let pair = (key.to_owned(), value.to_owned());
        let found = self.position(key);
        let mut entries: Vec<(String, String)> = Vec::new();
        proof {
            assert(pair_views(entries@) =~= Seq::<(Seq<char>, Seq<char>)>::empty());
        }
        std::mem::swap(&mut entries, &mut self.entries);
        match found {
            Some(i) => {
                proof {
                    lemma_pairs_update(pv, i as int, (key@, value@));
                    assert(pair_views(entries@.update(i as int, pair)) =~= pv.update(
                        i as int,
                        (key@, value@),
                    ));
                }
                entries.set(i, pair);
            },
            None => {
                proof {
                    lemma_pairs_contains(pv, key@);
                    assert forall|j: int| 0 <= j < pv.len() implies (#[trigger] pv[j]).0 != key@ by {
                        if pv[j].0 == key@ {
                            assert(pairs_map(pv).contains_key(key@));
                        }
                    }
                    lemma_pairs_push(pv, (key@, value@));
                    assert(pair_views(entries@.push(pair)) =~= pv.push((key@, value@)));
                }
                entries.push(pair);
            },
        }
        self.entries = entries;
    }

    /// The value of `key`, if present.
    pub fn get(&self, key: &str) -> (r: Option<&String>)
        ensures
            match r {
                Some(v) => self.view().contains_key(key@) && v@ == self.view()[key@],
                None => !self.view().contains_key(key@),
            },
    {
        proof {
            use_type_invariant(self);
        }
        match self.position(key) {
            Some(i) => {
                proof {
                    lemma_pairs_index(pair_views(self.entries@), i as int);
                }
                Some(&self.entries[i].1)
            },
            None => None,
        }
    }

    /// Number of keys.
    pub fn len(&self) -> (n: usize)
        ensures
            self.view().dom().finite(),
            n == self.view().len(),
    {
        proof {
            use_type_invariant(self);
            lemma_pairs_len(pair_views(self.entries@));
        }
        self.entries.len()
    }

    /// Whether there is no key.
    pub fn is_empty(&self) -> (b: bool)
        ensures
            b == (self.view().len() == 0),
    {
        self.len() == 0
    }

    /// The key/value pairs, each key once, in the order they were first set.
    pub fn pairs(&self) -> (p: &Vec<(String, String)>)
        ensures
            keys_distinct(pair_views(p@)),
            pairs_map(pair_views(p@)) == self.view(),
    {
        proof {
            use_type_invariant(self);
        }
        &self.entries
    }
}

} // verus!
