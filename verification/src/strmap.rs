use vstd::prelude::*;

use crate::text::str_eq;

verus! {

/// A string-keyed map that keeps its entries in insertion order. The resolver
/// builds every catalog index with it; a key may be bound at most once, and
/// the guarded insert refuses a duplicate instead of overwriting.
#[derive(Debug)]
pub struct StrMap<V> {
    entries: Vec<(String, V)>,
}

impl<V> View for StrMap<V> {
    type V = Seq<(Seq<char>, V)>;

    closed spec fn view(&self) -> Seq<(Seq<char>, V)> {
        Seq::new(self.entries@.len(), |i: int| (self.entries@[i].0@, self.entries@[i].1))
    }
}

pub open spec fn map_keys<V>(s: Seq<(Seq<char>, V)>) -> Seq<Seq<char>> {
    Seq::new(s.len(), |i: int| s[i].0)
}

/// Every key is bound at most once.
pub open spec fn unique_keys<V>(s: Seq<(Seq<char>, V)>) -> bool {
    forall|i: int, j: int| 0 <= i < j < s.len() ==> s[i].0 != s[j].0
}

pub open spec fn map_contains_key<V>(s: Seq<(Seq<char>, V)>, k: Seq<char>) -> bool {
    exists|i: int| 0 <= i < s.len() && s[i].0 == k
}

/// The position of `k` among the entries.
pub open spec fn map_index_of<V>(s: Seq<(Seq<char>, V)>, k: Seq<char>) -> int {
    choose|i: int| 0 <= i < s.len() && s[i].0 == k
}

/// The value bound to `k`.
pub open spec fn map_value_of<V>(s: Seq<(Seq<char>, V)>, k: Seq<char>) -> V {
    s[map_index_of(s, k)].1
}

impl<V> StrMap<V> {
    pub fn new() -> (r: StrMap<V>)
        ensures
            r@ == Seq::<(Seq<char>, V)>::empty(),
            unique_keys(r@),
    {
        let r = StrMap { entries: Vec::new() };
        proof {
            assert(r@ =~= Seq::<(Seq<char>, V)>::empty());
        }
        r
    }

    pub fn len(&self) -> (r: usize)
        ensures
            r == self@.len(),
    {
        self.entries.len()
    }

    /// The position of `k`, or `None` when `k` is not bound.
    pub fn index_of(&self, k: &str) -> (r: Option<usize>)
        ensures
            match r {
                Some(i) => i < self@.len() && self@[i as int].0 == k@ && map_contains_key(
                    self@,
                    k@,
                ),
                None => !map_contains_key(self@, k@),
            },
    {
        let mut i: usize = 0;
        while i < self.entries.len()
            invariant
                i <= self.entries@.len(),
                self@.len() == self.entries@.len(),
                forall|j: int| 0 <= j < i ==> self@[j].0 != k@,
            decreases self.entries@.len() - i,
        {
            if str_eq(self.entries[i].0.as_str(), k) {
                proof {
                    assert(self@[i as int].0 == k@);
                }
                return Some(i);
            }
            i += 1;
        }
        None
    }

    pub fn contains_key(&self, k: &str) -> (r: bool)
        ensures
            r == map_contains_key(self@, k@),
    {
        self.index_of(k).is_some()
    }

    /// Inserts a fresh key at the end; refuses a key that is already bound.
    pub fn first_insert(&mut self, k: String, v: V) -> (ok: bool)
        ensures
            ok == !map_contains_key(old(self)@, k@),
            ok ==> final(self)@ == old(self)@.push((k@, v)),
            !ok ==> final(self)@ == old(self)@,
            unique_keys(old(self)@) ==> unique_keys(final(self)@),
    {
        if self.contains_key(k.as_str()) {
            false
        } else {
            self.entries.push((k, v));
            proof {
                assert(self@ =~= old(self)@.push((k@, v)));
            }
            true
        }
    }

    pub fn key_at(&self, i: usize) -> (r: &String)
        requires
            i < self@.len(),
        ensures
            r@ == self@[i as int].0,
    {
        &self.entries[i].0
    }

    pub fn value_at(&self, i: usize) -> (r: &V)
        requires
            i < self@.len(),
        ensures
            *r == self@[i as int].1,
    {
        &self.entries[i].1
    }

    pub fn get(&self, k: &str) -> (r: Option<&V>)
        ensures
            match r {
                Some(v) => map_contains_key(self@, k@) && exists|i: int|
                    0 <= i < self@.len() && self@[i].0 == k@ && self@[i].1 == *v,
                None => !map_contains_key(self@, k@),
            },
    {
        match self.index_of(k) {
            Some(i) => Some(&self.entries[i].1),
            None => None,
        }
    }

    /// Looks a key up when it is known to be bound.
    pub fn must_get(&self, k: &str) -> (r: &V)
        requires
            unique_keys(self@),
            map_contains_key(self@, k@),
        ensures
            *r == map_value_of(self@, k@),
    {
        match self.get(k) {
            Some(v) => {
                proof {
                    let i = choose|i: int|
                        0 <= i < self@.len() && self@[i].0 == k@ && self@[i].1 == *v;
                    lemma_unique_key_at(self@, i);
                }
                v
            },
            None => vstd::pervasive::unreached(),
        }
    }

    /// Removes and returns the entry at position `i`.
    pub fn remove_at(&mut self, i: usize) -> (kv: (String, V))
        requires
            i < old(self)@.len(),
        ensures
            kv.0@ == old(self)@[i as int].0,
            kv.1 == old(self)@[i as int].1,
            final(self)@ == old(self)@.remove(i as int),
    {
        let kv = self.entries.remove(i);
        proof {
            assert(self@ =~= old(self)@.remove(i as int));
        }
        kv
    }

    /// Puts an entry back at position `i`.
    pub fn insert_at(&mut self, i: usize, k: String, v: V)
        requires
            i <= old(self)@.len(),
        ensures
            final(self)@ == old(self)@.insert(i as int, (k@, v)),
    {
        self.entries.insert(i, (k, v));
        proof {
            assert(self@ =~= old(self)@.insert(i as int, (k@, v)));
        }
    }
}

/// With unique keys, the entry found for `k` is the only one, so its position
/// and value are exactly `map_index_of` and `map_value_of`.
pub proof fn lemma_unique_key_at<V>(s: Seq<(Seq<char>, V)>, i: int)
    requires
        unique_keys(s),
        0 <= i < s.len(),
    ensures
        map_contains_key(s, s[i].0),
        map_index_of(s, s[i].0) == i,
        map_value_of(s, s[i].0) == s[i].1,
{
    assert(map_contains_key(s, s[i].0));
    let j = map_index_of(s, s[i].0);
    assert(0 <= j < s.len() && s[j].0 == s[i].0);
    if i != j {
        assert(false);
    }
}

} // verus!
