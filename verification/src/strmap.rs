//! A small map keyed by strings, kept as a list of distinct keys, whose view
//! is a `Map` from the keys' characters to the values' views.
use vstd::prelude::*;

use crate::text::str_equal;

verus! {

/// A map keyed by strings. Lookups, inserts and removals compare keys by
/// their characters.
#[derive(Debug)]
pub struct StrMap<V> {
    entries: Vec<(String, V)>,
}

/// The map that a list of entries stands for; a later entry for a key wins.
pub open spec fn map_of<V: View>(e: Seq<(String, V)>) -> Map<Seq<char>, V::V>
    decreases e.len(),
{
    if e.len() == 0 {
        Map::empty()
    } else {
        map_of(e.drop_last()).insert(e.last().0@, e.last().1@)
    }
}

/// No two entries share a key.
pub open spec fn distinct_keys<V>(e: Seq<(String, V)>) -> bool {
    forall|i: int, j: int|
        0 <= i < e.len() && 0 <= j < e.len() && i != j ==> #[trigger] e[i].0@ != #[trigger] e[j].0@
}

proof fn lemma_map_of_present<V: View>(e: Seq<(String, V)>, i: int)
    requires
        distinct_keys(e),
        0 <= i < e.len(),
    ensures
        map_of(e).contains_key(e[i].0@),
        map_of(e)[e[i].0@] == e[i].1@,
    decreases e.len(),
{
    if i < e.len() - 1 {
        let p = e.drop_last();
        assert(distinct_keys(p));
        assert(p[i] == e[i]);
        lemma_map_of_present(p, i);
        assert(e.last().0@ != e[i].0@);
    }
}

proof fn lemma_map_of_absent<V: View>(e: Seq<(String, V)>, k: Seq<char>)
    requires
        forall|i: int| 0 <= i < e.len() ==> #[trigger] e[i].0@ != k,
    ensures
        !map_of(e).contains_key(k),
    decreases e.len(),
{
    if e.len() > 0 {
        let p = e.drop_last();
        assert forall|i: int| 0 <= i < p.len() implies #[trigger] p[i].0@ != k by {
            assert(p[i] == e[i]);
        }
        lemma_map_of_absent(p, k);
        assert(e[e.len() - 1].0@ != k);
    }
}

proof fn lemma_map_of_update<V: View>(e: Seq<(String, V)>, i: int, entry: (String, V))
    requires
        distinct_keys(e),
        0 <= i < e.len(),
        entry.0@ == e[i].0@,
    ensures
        map_of(e.update(i, entry)) =~= map_of(e).insert(entry.0@, entry.1@),
        distinct_keys(e.update(i, entry)),
    decreases e.len(),
{
    let u = e.update(i, entry);
    assert(distinct_keys(u)) by {
        assert forall|a: int, b: int|
            0 <= a < u.len() && 0 <= b < u.len() && a != b implies #[trigger] u[a].0@
            != #[trigger] u[b].0@ by {
            assert(e[a].0@ != e[b].0@);
        }
    }
    if i == e.len() - 1 {
        assert(u.drop_last() =~= e.drop_last());
    } else {
        let p = e.drop_last();
        assert(distinct_keys(p));
        lemma_map_of_update(p, i, entry);
        assert(u.drop_last() =~= p.update(i, entry));
        assert(e.last().0@ != e[i].0@);
    }
}

proof fn lemma_map_of_remove<V: View>(e: Seq<(String, V)>, i: int)
    requires
        distinct_keys(e),
        0 <= i < e.len(),
    ensures
        map_of(e.remove(i)) =~= map_of(e).remove(e[i].0@),
        distinct_keys(e.remove(i)),
    decreases e.len(),
{
    let r = e.remove(i);
    assert(distinct_keys(r)) by {
        assert forall|a: int, b: int|
            0 <= a < r.len() && 0 <= b < r.len() && a != b implies #[trigger] r[a].0@
            != #[trigger] r[b].0@ by {
            let a2 = if a < i {
                a
            } else {
                a + 1
            };
            let b2 = if b < i {
                b
            } else {
                b + 1
            };
            assert(r[a] == e[a2]);
            assert(r[b] == e[b2]);
        }
    }
    if i == e.len() - 1 {
        assert(r =~= e.drop_last());
        assert forall|j: int| 0 <= j < r.len() implies #[trigger] r[j].0@ != e[i].0@ by {
            assert(r[j] == e[j]);
        }
        lemma_map_of_absent(r, e[i].0@);
    } else {
        let p = e.drop_last();
        assert(distinct_keys(p));
        lemma_map_of_remove(p, i);
        assert(r.drop_last() =~= p.remove(i));
        assert(r.last() == e.last());
        assert(e.last().0@ != e[i].0@);
    }
}

proof fn lemma_map_of_push<V: View>(e: Seq<(String, V)>, entry: (String, V))
    requires
        distinct_keys(e),
        forall|i: int| 0 <= i < e.len() ==> #[trigger] e[i].0@ != entry.0@,
    ensures
        map_of(e.push(entry)) =~= map_of(e).insert(entry.0@, entry.1@),
        distinct_keys(e.push(entry)),
{
    let u = e.push(entry);
    assert(u.drop_last() =~= e);
    assert(distinct_keys(u)) by {
        assert forall|a: int, b: int|
            0 <= a < u.len() && 0 <= b < u.len() && a != b implies #[trigger] u[a].0@
            != #[trigger] u[b].0@ by {
            if a < e.len() && b < e.len() {
                assert(e[a].0@ != e[b].0@);
            } else if a < e.len() {
                assert(e[a].0@ != entry.0@);
            } else {
                assert(e[b].0@ != entry.0@);
            }
        }
    }
}

proof fn lemma_map_of_dom_len<V: View>(e: Seq<(String, V)>)
    requires
        distinct_keys(e),
    ensures
        map_of(e).dom().finite(),
        map_of(e).dom().len() == e.len(),
    decreases e.len(),
{
    if e.len() > 0 {
        let p = e.drop_last();
        assert(distinct_keys(p));
        lemma_map_of_dom_len(p);
        assert forall|j: int| 0 <= j < p.len() implies #[trigger] p[j].0@ != e.last().0@ by {
            assert(p[j] == e[j]);
            assert(e[j].0@ != e[e.len() - 1].0@);
        }
        lemma_map_of_absent(p, e.last().0@);
    }
}

impl<V: View> View for StrMap<V> {
    type V = Map<Seq<char>, V::V>;

    closed spec fn view(&self) -> Map<Seq<char>, V::V> {
        map_of(self.entries@)
    }
}

impl<V> StrMap<V> {
    #[verifier::type_invariant]
    closed spec fn keys_distinct(self) -> bool {
        distinct_keys(self.entries@)
    }
}

impl<V: View> StrMap<V> {
    /// The keys in storage order.
    pub closed spec fn key_seq(self) -> Seq<Seq<char>> {
        Seq::new(self.entries@.len(), |i: int| self.entries@[i].0@)
    }

    /// An empty map.
    pub fn new() -> (m: Self)
        ensures
            m@ == Map::<Seq<char>, V::V>::empty(),
    {
        StrMap { entries: Vec::new() }
    }

    /// The position of key `k`, if present.
    fn position(&self, k: &str) -> (r: Option<usize>)
        ensures
            match r {
                Some(i) => i < self.entries@.len() && self.entries@[i as int].0@ == k@,
                None => forall|i: int|
                    0 <= i < self.entries@.len() ==> #[trigger] self.entries@[i].0@ != k@,
            },
    {
        let mut i: usize = 0;
        while i < self.entries.len()
            invariant
                i <= self.entries@.len(),
                forall|j: int| 0 <= j < i ==> #[trigger] self.entries@[j].0@ != k@,
            decreases self.entries@.len() - i,
        {
            if str_equal(self.entries[i].0.as_str(), k) {
                return Some(i);
            }
            i = i + 1;
        }
        None
    }

    /// The number of keys; every key sits at exactly one position below it.
    pub fn len(&self) -> (n: usize)
        ensures
            n == self@.dom().len(),
            n == self.key_seq().len(),
            self@.dom().finite(),
            forall|i: int| 0 <= i < n ==> self@.contains_key(#[trigger] self.key_seq()[i]),
            forall|k: Seq<char>| #[trigger]
                self@.contains_key(k) ==> exists|i: int| 0 <= i < n && self.key_seq()[i] == k,
            forall|i: int, j: int|
                0 <= i < n && 0 <= j < n && i != j ==> #[trigger] self.key_seq()[i]
                    != #[trigger] self.key_seq()[j],
    {
        proof {
            use_type_invariant(self);
            let e = self.entries@;
            lemma_map_of_dom_len(e);
            assert forall|i: int| 0 <= i < e.len() implies self@.contains_key(
                #[trigger] self.key_seq()[i],
            ) by {
                lemma_map_of_present(e, i);
            }
            assert forall|k: Seq<char>| #[trigger]
                self@.contains_key(k) implies exists|i: int|
                0 <= i < e.len() && self.key_seq()[i] == k by {
                if forall|i: int| 0 <= i < e.len() ==> #[trigger] e[i].0@ != k {
                    lemma_map_of_absent(e, k);
                }
                let i = choose|i: int| 0 <= i < e.len() && #[trigger] e[i].0@ == k;
                assert(self.key_seq()[i] == k);
            }
        }
        self.entries.len()
    }

    /// True when `k` is a key.
    pub fn contains_key(&self, k: &str) -> (b: bool)
        ensures
            b == self@.contains_key(k@),
    {
        proof {
            use_type_invariant(self);
        }
        match self.position(k) {
            Some(i) => {
                proof {
                    lemma_map_of_present(self.entries@, i as int);
                }
                true
            },
            None => {
                proof {
                    lemma_map_of_absent(self.entries@, k@);
                }
                false
            },
        }
    }

    /// The value stored under `k`, if any.
    pub fn get(&self, k: &str) -> (r: Option<&V>)
        ensures
            match r {
                Some(v) => self@.contains_key(k@) && v@ == self@[k@],
                None => !self@.contains_key(k@),
            },
    {
        proof {
            use_type_invariant(self);
        }
        match self.position(k) {
            Some(i) => {
                proof {
                    lemma_map_of_present(self.entries@, i as int);
                }
                Some(&self.entries[i].1)
            },
            None => {
                proof {
                    lemma_map_of_absent(self.entries@, k@);
                }
                None
            },
        }
    }

    /// Stores `v` under `k`, replacing what was there.
    pub fn insert(&mut self, k: String, v: V)
        ensures
            final(self)@ == old(self)@.insert(k@, v@),
    {
        proof {
            use_type_invariant(&*self);
        }
        let ghost e = self.entries@;
        match self.position(k.as_str()) {
            Some(i) => {
                proof {
                    lemma_map_of_update(e, i as int, (k, v));
                }
                let mut entries: Vec<(String, V)> = Vec::new();
                std::mem::swap(&mut entries, &mut self.entries);
                entries.set(i, (k, v));
                self.entries = entries;
            },
            None => {
                proof {
                    lemma_map_of_push(e, (k, v));
                }
                let mut entries: Vec<(String, V)> = Vec::new();
                std::mem::swap(&mut entries, &mut self.entries);
                entries.push((k, v));
                self.entries = entries;
            },
        }
    }

    /// Removes the entry for `k`, if any, and returns its value.
    pub fn remove(&mut self, k: &str) -> (r: Option<V>)
        ensures
            final(self)@ == old(self)@.remove(k@),
            match r {
                Some(v) => old(self)@.contains_key(k@) && v@ == old(self)@[k@],
                None => !old(self)@.contains_key(k@),
            },
    {
        proof {
            use_type_invariant(&*self);
        }
        let ghost e = self.entries@;
        match self.position(k) {
            Some(i) => {
                proof {
                    lemma_map_of_remove(e, i as int);
                    lemma_map_of_present(e, i as int);
                }
                let mut entries: Vec<(String, V)> = Vec::new();
                std::mem::swap(&mut entries, &mut self.entries);
                let (_key, value) = entries.remove(i);
                self.entries = entries;
                Some(value)
            },
            None => {
                proof {
                    lemma_map_of_absent(e, k@);
                    assert(map_of(e).remove(k@) =~= map_of(e));
                }
                None
            },
        }
    }

    /// The key stored at position `i`.
    pub fn key_at(&self, i: usize) -> (k: &String)
        requires
            i < self.key_seq().len(),
        ensures
            k@ == self.key_seq()[i as int],
    {
        &self.entries[i].0
    }

    /// The value stored at position `i`, which is the value of the key there.
    pub fn value_at(&self, i: usize) -> (v: &V)
        requires
            i < self.key_seq().len(),
        ensures
            self@.contains_key(self.key_seq()[i as int]),
            v@ == self@[self.key_seq()[i as int]],
    {
        proof {
            use_type_invariant(self);
            lemma_map_of_present(self.entries@, i as int);
        }
        &self.entries[i].1
    }
}

} // verus!
