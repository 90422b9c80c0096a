//! A small associative table keyed by fixed-size identifiers (32-byte
//! hashes or node numbers), with insertion order kept. It stands for the
//! hash maps and hash sets of the protocol's registries.

use vstd::prelude::*;

verus! {

broadcast use vstd::array::axiom_array_ext_equal;

/// Keys that can be compared for equality in executable code.
pub trait TableKey: Sized + Copy {
    fn same_key(&self, other: &Self) -> (r: bool)
        ensures
            r == (*self == *other),
    ;
}

impl TableKey for u64 {
    fn same_key(&self, other: &Self) -> (r: bool) {
        *self == *other
    }
}

impl TableKey for [u8; 32] {
    fn same_key(&self, other: &Self) -> (r: bool) {
        let r = crate::bytes::bytes32_eq(self, other);
        proof {
            if self@ == other@ {
                assert(*self =~= *other);
            }
        }
        r
    }
}

/// The map that a list of entries denotes (a later entry wins).
pub open spec fn map_of<K, V>(s: Seq<(K, V)>) -> Map<K, V>
    decreases s.len(),
{
    if s.len() == 0 {
        Map::empty()
    } else {
        map_of(s.drop_last()).insert(s.last().0, s.last().1)
    }
}

/// No key occurs twice in a list of entries.
pub open spec fn keys_unique<K, V>(s: Seq<(K, V)>) -> bool {
    forall|i: int, j: int| 0 <= i < s.len() && 0 <= j < s.len() && i != j ==> s[i].0 != s[j].0
}

/// The entry index of a key, if the key occurs.
pub open spec fn has_key_at<K, V>(s: Seq<(K, V)>, k: K, i: int) -> bool {
    0 <= i < s.len() && s[i].0 == k
}

pub proof fn lemma_map_of_dom<K, V>(s: Seq<(K, V)>, k: K)
    ensures
        map_of(s).contains_key(k) <==> exists|i: int| has_key_at(s, k, i),
    decreases s.len(),
{
    if s.len() > 0 {
        lemma_map_of_dom(s.drop_last(), k);
        if map_of(s).contains_key(k) {
            if k != s.last().0 {
                let i = choose|i: int| has_key_at(s.drop_last(), k, i);
                assert(has_key_at(s, k, i));
            } else {
                assert(has_key_at(s, k, s.len() - 1));
            }
        }
        if exists|i: int| has_key_at(s, k, i) {
            let i = choose|i: int| has_key_at(s, k, i);
            if i < s.len() - 1 {
                assert(has_key_at(s.drop_last(), k, i));
            }
        }
    }
}

pub proof fn lemma_map_of_index<K, V>(s: Seq<(K, V)>, i: int)
    requires
        keys_unique(s),
        0 <= i < s.len(),
    ensures
        map_of(s).contains_key(s[i].0),
        map_of(s)[s[i].0] == s[i].1,
    decreases s.len(),
{
    if i < s.len() - 1 {
        lemma_map_of_index(s.drop_last(), i);
        assert(s.drop_last()[i] == s[i]);
    }
}

pub proof fn lemma_map_of_update<K, V>(s: Seq<(K, V)>, i: int, v: V)
    requires
        keys_unique(s),
        0 <= i < s.len(),
    ensures
        keys_unique(s.update(i, (s[i].0, v))),
        map_of(s.update(i, (s[i].0, v))) == map_of(s).insert(s[i].0, v),
    decreases s.len(),
{
    let t = s.update(i, (s[i].0, v));
    if i == s.len() - 1 {
        assert(t.drop_last() =~= s.drop_last());
        lemma_map_of_dom(s.drop_last(), s[i].0);
        assert(map_of(t) =~= map_of(s).insert(s[i].0, v));
    } else {
        lemma_map_of_update(s.drop_last(), i, v);
        assert(t.drop_last() =~= s.drop_last().update(i, (s[i].0, v)));
        assert(map_of(t) =~= map_of(s).insert(s[i].0, v));
    }
}

pub proof fn lemma_map_of_remove<K, V>(s: Seq<(K, V)>, i: int)
    requires
        keys_unique(s),
        0 <= i < s.len(),
    ensures
        keys_unique(s.remove(i)),
        map_of(s.remove(i)) == map_of(s).remove(s[i].0),
    decreases s.len(),
{
    let t = s.remove(i);
    assert forall|a: int, b: int| 0 <= a < t.len() && 0 <= b < t.len() && a != b implies t[a].0 != t[b].0 by {
        let a2 = if a < i { a } else { a + 1 };
        let b2 = if b < i { b } else { b + 1 };
        assert(t[a] == s[a2]);
        assert(t[b] == s[b2]);
    }
    if i == s.len() - 1 {
        assert(t =~= s.drop_last());
        lemma_map_of_dom(s.drop_last(), s[i].0);
        assert(map_of(t) =~= map_of(s).remove(s[i].0));
    } else {
        lemma_map_of_remove(s.drop_last(), i);
        assert(t.drop_last() =~= s.drop_last().remove(i));
        assert(t.last() == s.last());
        assert(map_of(t) =~= map_of(s).remove(s[i].0));
    }
}

pub proof fn lemma_map_of_finite_len<K, V>(s: Seq<(K, V)>)
    requires
        keys_unique(s),
    ensures
        map_of(s).dom().finite(),
        map_of(s).dom().len() == s.len(),
    decreases s.len(),
{
    if s.len() > 0 {
        let p = s.drop_last();
        assert(keys_unique(p));
        lemma_map_of_finite_len(p);
        lemma_map_of_dom(p, s.last().0);
        assert(!map_of(p).contains_key(s.last().0));
    }
}

/// An insertion-ordered table from keys to values.
pub struct Table<K, V> {
    entries: Vec<(K, V)>,
}

impl<K: TableKey, V> Table<K, V> {
    /// The entries, in insertion order.
    pub closed spec fn entries(&self) -> Seq<(K, V)> {
        self.entries@
    }

    /// The table's contents as a map.
    pub open spec fn view(&self) -> Map<K, V> {
        map_of(self.entries())
    }

    /// The table's invariant: each key occurs once.
    pub open spec fn wf(&self) -> bool {
        keys_unique(self.entries())
    }

    pub fn new() -> (t: Self)
        ensures
            t.wf(),
            t@ == Map::<K, V>::empty(),
            t.entries().len() == 0,
    {
        Table { entries: Vec::new() }
    }

    pub fn len(&self) -> (n: usize)
        requires
            self.wf(),
        ensures
            n == self.entries().len(),
            n == self@.dom().len(),
            self@.dom().finite(),
    {
        proof {
            lemma_map_of_finite_len(self.entries());
        }
        self.entries.len()
    }

    /// The position of a key, if present.
    pub fn find(&self, k: &K) -> (r: Option<usize>)
        requires
            self.wf(),
        ensures
            r.is_some() <==> self@.contains_key(*k),
            r.is_some() ==> r.unwrap() < self.entries().len() && self.entries()[r.unwrap() as int].0 == *k,
            r.is_some() ==> self@[*k] == self.entries()[r.unwrap() as int].1,
    {
        let mut i: usize = 0;
        while i < self.entries.len()
            invariant
                0 <= i <= self.entries@.len(),
                keys_unique(self.entries@),
                forall|j: int| 0 <= j < i ==> self.entries@[j].0 != *k,
            decreases self.entries@.len() - i,
        {
            if self.entries[i].0.same_key(k) {
                proof {
                    lemma_map_of_dom(self.entries(), *k);
                    lemma_map_of_index(self.entries(), i as int);
                    assert(has_key_at(self.entries(), *k, i as int));
                }
                return Some(i);
            }
            i = i + 1;
        }
        proof {
            lemma_map_of_dom(self.entries(), *k);
        }
        None
    }

    pub fn contains(&self, k: &K) -> (r: bool)
        requires
            self.wf(),
        ensures
            r == self@.contains_key(*k),
    {
        self.find(k).is_some()
    }

    pub fn get(&self, k: &K) -> (r: Option<&V>)
        requires
            self.wf(),
        ensures
            r.is_some() <==> self@.contains_key(*k),
            r.is_some() ==> *r.unwrap() == self@[*k],
    {
        match self.find(k) {
            Some(i) => Some(&self.entries[i].1),
            None => None,
        }
    }

    pub fn key_at(&self, i: usize) -> (k: K)
        requires
            i < self.entries().len(),
        ensures
            k == self.entries()[i as int].0,
    {
        self.entries[i].0
    }

    pub fn value_at(&self, i: usize) -> (v: &V)
        requires
            i < self.entries().len(),
        ensures
            *v == self.entries()[i as int].1,
    {
        &self.entries[i].1
    }

    /// Replaces the value of the entry at a position.
    pub fn set_at(&mut self, i: usize, v: V)
        requires
            old(self).wf(),
            i < old(self).entries().len(),
        ensures
            final(self).wf(),
            final(self).entries() == old(self).entries().update(i as int, (old(self).entries()[i as int].0, v)),
            final(self)@ == old(self)@.insert(old(self).entries()[i as int].0, v),
    {
        proof {
            lemma_map_of_update(self.entries(), i as int, v);
        }
        let k = self.entries[i].0;
        self.entries.set(i, (k, v));
    }

    /// Inserts or replaces the value of a key.
    pub fn insert(&mut self, k: K, v: V)
        requires
            old(self).wf(),
        ensures
            final(self).wf(),
            final(self)@ == old(self)@.insert(k, v),
            old(self)@.contains_key(k) ==> final(self).entries().len() == old(self).entries().len(),
            !old(self)@.contains_key(k) ==> final(self).entries() == old(self).entries().push((k, v)),
    {
        match self.find(&k) {
            Some(i) => {
                self.set_at(i, v);
            },
            None => {
                proof {
                    lemma_map_of_dom(self.entries(), k);
                }
                self.entries.push((k, v));
                proof {
                    let s = self.entries();
                    assert(s.drop_last() == old(self).entries());
                    assert forall|a: int, b: int| 0 <= a < s.len() && 0 <= b < s.len() && a != b implies s[a].0 != s[b].0 by {
                        if a == s.len() - 1 {
                            assert(!has_key_at(old(self).entries(), k, b));
                        } else if b == s.len() - 1 {
                            assert(!has_key_at(old(self).entries(), k, a));
                        }
                    }
                }
            },
        }
    }

    /// Removes a key, returning its value if it was present.
    pub fn remove(&mut self, k: &K) -> (r: Option<V>)
        requires
            old(self).wf(),
        ensures
            final(self).wf(),
            final(self)@ == old(self)@.remove(*k),
            r.is_some() <==> old(self)@.contains_key(*k),
            r.is_some() ==> r.unwrap() == old(self)@[*k],
    {
        match self.find(k) {
            Some(i) => {
                proof {
                    lemma_map_of_remove(self.entries(), i as int);
                }
                let e = self.entries.remove(i);
                Some(e.1)
            },
            None => {
                assert(old(self)@.remove(*k) =~= old(self)@);
                None
            },
        }
    }

    /// Replaces the value at a position, returning the previous value.
    pub fn replace_at(&mut self, i: usize, v: V) -> (prev: V)
        requires
            old(self).wf(),
            i < old(self).entries().len(),
        ensures
            final(self).wf(),
            prev == old(self).entries()[i as int].1,
            final(self).entries() == old(self).entries().update(i as int, (old(self).entries()[i as int].0, v)),
            final(self)@ == old(self)@.insert(old(self).entries()[i as int].0, v),
    {
        proof {
            lemma_map_of_update(self.entries(), i as int, v);
        }
        let e = self.entries.remove(i);
        self.entries.insert(i, (e.0, v));
        assert(self.entries@ =~= old(self).entries().update(i as int, (old(self).entries()[i as int].0, v)));
        e.1
    }

    /// Removes every entry.
    pub fn clear(&mut self)
        ensures
            final(self).wf(),
            final(self)@ == Map::<K, V>::empty(),
            final(self).entries().len() == 0,
    {
        self.entries = Vec::new();
    }
}

} // verus!
