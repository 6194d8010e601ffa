//! A map from texts to texts that keeps the order in which keys came in.
use crate::text::{owned, same};
use vstd::prelude::*;

verus! {

/// A map from texts to texts. No key occurs twice; keys keep the order in
/// which they were first inserted.
#[derive(Debug, PartialEq)]
pub struct TextMap {
    entries: Vec<(String, String)>,
}

/// The entries of a map, as pairs of key and value.
pub type Pairs = Seq<(Seq<char>, Seq<char>)>;

/// The entry of a key, from entry `i` on.
pub open spec fn lookup_from(p: Pairs, key: Seq<char>, i: int) -> Option<Seq<char>>
    decreases p.len() - i,
{
    if i < 0 || i >= p.len() {
        None
    } else if p[i].0 == key {
        Some(p[i].1)
    } else {
        lookup_from(p, key, i + 1)
    }
}

/// The value of a key.
pub open spec fn lookup(p: Pairs, key: Seq<char>) -> Option<Seq<char>> {
    lookup_from(p, key, 0)
}

/// The entries with the value of a key put in: in its place where the key is
/// there, from entry `i` on, and at the end where it is not.
pub open spec fn put_from(p: Pairs, key: Seq<char>, value: Seq<char>, i: int) -> Pairs
    decreases p.len() - i,
{
    if i < 0 || i >= p.len() {
        p.push((key, value))
    } else if p[i].0 == key {
        p.update(i, (key, value))
    } else {
        put_from(p, key, value, i + 1)
    }
}

/// The entries with the value of a key put in.
pub open spec fn put(p: Pairs, key: Seq<char>, value: Seq<char>) -> Pairs {
    put_from(p, key, value, 0)
}

/// No key occurs twice.
pub open spec fn distinct_keys(p: Pairs) -> bool {
    forall|i: int, j: int| 0 <= i < j < p.len() ==> (#[trigger] p[i]).0 != (#[trigger] p[j]).0
}

proof fn lemma_put_from(p: Pairs, key: Seq<char>, value: Seq<char>, other: Seq<char>, i: int)
    requires
        0 <= i <= p.len(),
        forall|k: int| 0 <= k < i ==> (#[trigger] p[k]).0 != key,
    ensures
        forall|k: int| 0 <= k < i ==> #[trigger] put_from(p, key, value, i)[k] == p[k],
        put_from(p, key, value, i).len() >= p.len(),
        lookup_from(put_from(p, key, value, i), other, i) == (if other == key {
            Some(value)
        } else {
            lookup_from(p, other, i)
        }),
    decreases p.len() - i,
{
    let q = put_from(p, key, value, i);
    if i >= p.len() {
        assert(q[i] == (key, value));
        reveal_with_fuel(lookup_from, 2);
    } else if p[i].0 == key {
        assert(q[i] == (key, value));
        if other != key {
            lemma_lookup_same(p, q, other, i + 1);
        }
    } else {
        lemma_put_from(p, key, value, other, i + 1);
        assert(q[i] == p[i]);
    }
}

proof fn lemma_lookup_same(p: Pairs, q: Pairs, key: Seq<char>, i: int)
    requires
        0 <= i,
        p.len() == q.len(),
        forall|k: int| i <= k < p.len() ==> #[trigger] p[k] == q[k],
    ensures
        lookup_from(p, key, i) == lookup_from(q, key, i),
    decreases p.len() - i,
{
    if i < p.len() {
        assert(p[i] == q[i]);
        lemma_lookup_same(p, q, key, i + 1);
    }
}

/// Looking up a key after a put: the new value for the key that was put, and
/// what was there before for every other key.
pub proof fn lemma_lookup_put(p: Pairs, key: Seq<char>, value: Seq<char>, other: Seq<char>)
    ensures
        lookup(put(p, key, value), other) == (if other == key {
            Some(value)
        } else {
            lookup(p, other)
        }),
{
    lemma_put_from(p, key, value, other, 0);
}

proof fn lemma_put_from_distinct(p: Pairs, key: Seq<char>, value: Seq<char>, i: int)
    requires
        distinct_keys(p),
        0 <= i <= p.len(),
        forall|k: int| 0 <= k < i ==> (#[trigger] p[k]).0 != key,
    ensures
        distinct_keys(put_from(p, key, value, i)),
    decreases p.len() - i,
{
    if i < p.len() && p[i].0 != key {
        lemma_put_from_distinct(p, key, value, i + 1);
    }
}

/// Putting keeps the keys distinct.
pub proof fn lemma_put_distinct(p: Pairs, key: Seq<char>, value: Seq<char>)
    requires
        distinct_keys(p),
    ensures
        distinct_keys(put(p, key, value)),
{
    lemma_put_from_distinct(p, key, value, 0);
}

/// The meanings of pairs of texts.
pub open spec fn pairs_view(v: Seq<(String, String)>) -> Pairs {
    Seq::new(v.len(), |i: int| (v[i].0@, v[i].1@))
}

impl View for TextMap {
    type V = Pairs;

    closed spec fn view(&self) -> Pairs {
        pairs_view(self.entries@)
    }
}

/// The meaning of an optional reference to a text.
pub open spec fn ref_text(o: Option<&String>) -> Option<Seq<char>> {
    match o {
        Some(s) => Some(s@),
        None => None,
    }
}

impl TextMap {
    #[verifier::type_invariant]
    spec fn keys_are_distinct(self) -> bool {
        distinct_keys(pairs_view(self.entries@))
    }

    /// The empty map.
    pub fn new() -> (r: Self)
        ensures
            r@ == Pairs::empty(),
    {
        let r = TextMap { entries: Vec::new() };
        assert(r@ =~= Pairs::empty());
        r
    }

    /// The number of keys. No key occurs twice.
    pub fn len(&self) -> (r: usize)
        ensures
            r == self@.len(),
            distinct_keys(self@),
    {
        proof {
            use_type_invariant(self);
        }
        self.entries.len()
    }

    /// Whether there is no key.
    pub fn is_empty(&self) -> (r: bool)
        ensures
            r == (self@.len() == 0),
    {
        self.entries.len() == 0
    }

    /// The key of entry `i`.
    pub fn key_at(&self, i: usize) -> (r: &str)
        requires
            i < self@.len(),
        ensures
            r@ == self@[i as int].0,
    {
        self.entries[i].0.as_str()
    }

    /// The value of entry `i`.
    pub fn value_at(&self, i: usize) -> (r: &str)
        requires
            i < self@.len(),
        ensures
            r@ == self@[i as int].1,
    {
        self.entries[i].1.as_str()
    }

    /// The value of a key.
    pub fn get(&self, key: &str) -> (r: Option<&String>)
        ensures
            ref_text(r) == lookup(self@, key@),
    {
        let mut i: usize = 0;
        while i < self.entries.len()
            invariant
                i <= self.entries.len(),
                lookup_from(self@, key@, i as int) == lookup(self@, key@),
            decreases self.entries.len() - i,
        {
            if same(self.entries[i].0.as_str(), key) {
                return Some(&self.entries[i].1);
            }
            i += 1;
        }
        None
    }

    /// Whether the key is there.
    pub fn contains_key(&self, key: &str) -> (r: bool)
        ensures
            r == (lookup(self@, key@) is Some),
    {
        self.get(key).is_some()
    }

    /// Puts the value of a key in.
    pub fn insert(&mut self, key: &str, value: String)
        ensures
            final(self)@ == put(old(self)@, key@, value@),
    {
        let mut i: usize = 0;
        let ghost p = self@;
        proof {
            use_type_invariant(&*self);
            lemma_put_distinct(p, key@, value@);
        }
        let mut entries: Vec<(String, String)> = Vec::new();
        std::mem::swap(&mut entries, &mut self.entries);
        let ghost e0 = entries@;
        while i < entries.len()
            invariant
                i <= entries.len(),
                p == pairs_view(entries@),
                p == old(self)@,
                entries@ == e0,
                put_from(p, key@, value@, i as int) == put(p, key@, value@),
                distinct_keys(put(p, key@, value@)),
            decreases entries.len() - i,
        {
            if same(entries[i].0.as_str(), key) {
                entries[i] = (owned(key), value);
                assert(pairs_view(entries@) =~= p.update(i as int, (key@, value@)));
                self.entries = entries;
                return;
            }
            i += 1;
        }
        entries.push((owned(key), value));
        assert(pairs_view(entries@) =~= p.push((key@, value@)));
        self.entries = entries;
    }

    /// A copy of the map.
    pub fn copy(&self) -> (r: Self)
        ensures
            r@ == self@,
    {
        let mut entries: Vec<(String, String)> = Vec::new();
        let mut i: usize = 0;
        while i < self.entries.len()
            invariant
                i <= self.entries.len(),
                entries@.len() == i,
                forall|k: int|
                    0 <= k < i ==> (#[trigger] entries@[k]).0@ == self.entries@[k].0@
                        && entries@[k].1@ == self.entries@[k].1@,
            decreases self.entries.len() - i,
        {
            entries.push(
                (owned(self.entries[i].0.as_str()), owned(self.entries[i].1.as_str())),
            );
            i += 1;
        }
        proof {
            use_type_invariant(self);
            assert(pairs_view(entries@) =~= pairs_view(self.entries@));
        }
        TextMap { entries }
    }

    /// The map of these pairs; a later value of a key takes the place of an
    /// earlier one.
    pub fn from_pairs(pairs: &[(&str, &str)]) -> (r: Self)
        ensures
            r@ == put_all(Pairs::empty(), pairs@, 0),
    {
        let mut r = TextMap::new();
        let mut i: usize = 0;
        while i < pairs.len()
            invariant
                i <= pairs.len(),
                put_all(r@, pairs@, i as int) == put_all(Pairs::empty(), pairs@, 0),
            decreases pairs.len() - i,
        {
            r.insert(pairs[i].0, owned(pairs[i].1));
            i += 1;
        }
        r
    }
}

/// The entries with the pairs from number `i` on put in.
pub open spec fn put_all(p: Pairs, pairs: Seq<(&str, &str)>, i: int) -> Pairs
    decreases pairs.len() - i,
{
    if i < 0 || i >= pairs.len() {
        p
    } else {
        put_all(put(p, pairs[i].0@, pairs[i].1@), pairs, i + 1)
    }
}

} // verus!
