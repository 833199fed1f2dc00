//! A table keyed by digest.
//!
//! The table holds at most one value per digest. Its view is a mathematical
//! map from the digest's bytes to the value; the entries can also be walked
//! by position.
//!
//! The hash maps of std are specified in vstd for keys whose hashing vstd
//! knows. A digest is a struct of this crate, so nothing could be proved of
//! such a map: the table is a vector with the invariant that no digest occurs
//! twice.

use crate::types::HashValue;
use vstd::prelude::*;

verus! {

/// One entry of a table.
pub struct Entry<V> {
    pub key: HashValue,
    pub value: V,
}

/// A table from digests to values of type `V`.
pub struct DigestMap<V> {
    entries: Vec<Entry<V>>,
}

impl<V> DigestMap<V> {
    /// Number of entries.
    pub closed spec fn spec_len(&self) -> nat {
        self.entries@.len()
    }

    /// The digest at position `i`.
    pub closed spec fn spec_key_at(&self, i: int) -> Seq<u8> {
        self.entries@[i].key@
    }

    /// The value at position `i`.
    pub closed spec fn spec_value_at(&self, i: int) -> V {
        self.entries@[i].value
    }

    /// No digest occurs twice.
    pub closed spec fn wf(&self) -> bool {
        forall|i: int, j: int|
            0 <= i < j < self.entries@.len() ==> self.entries@[i].key@ != self.entries@[j].key@
    }

    /// Whether some entry has the digest `d`.
    pub closed spec fn has(&self, d: Seq<u8>) -> bool {
        exists|i: int| 0 <= i < self.entries@.len() && #[trigger] self.entries@[i].key@ == d
    }

    /// The position of the entry with digest `d`.
    pub closed spec fn index_of(&self, d: Seq<u8>) -> int {
        choose|i: int| 0 <= i < self.entries@.len() && #[trigger] self.entries@[i].key@ == d
    }

    /// The table as a map.
    pub closed spec fn view(&self) -> Map<Seq<u8>, V> {
        Map::new(|d: Seq<u8>| self.has(d), |d: Seq<u8>| self.entries@[self.index_of(d)].value)
    }

    proof fn lemma_index(&self, i: int)
        requires
            self.wf(),
            0 <= i < self.entries@.len(),
        ensures
            self.has(self.entries@[i].key@),
            self.index_of(self.entries@[i].key@) == i,
            self.view().contains_key(self.entries@[i].key@),
            self.view()[self.entries@[i].key@] == self.entries@[i].value,
    {
        let d = self.entries@[i].key@;
        assert(self.has(d));
        let k = self.index_of(d);
        assert(0 <= k < self.entries@.len() && self.entries@[k].key@ == d);
        if k < i {
        } else if i < k {
        }
    }

    /// An empty table.
    pub fn new() -> (m: DigestMap<V>)
        ensures
            m.wf(),
            m@ == Map::<Seq<u8>, V>::empty(),
            m.spec_len() == 0,
    {
        let m = DigestMap { entries: Vec::new() };
        assert(m@ =~= Map::<Seq<u8>, V>::empty());
        m
    }

    /// Number of entries.
    pub fn len(&self) -> (n: usize)
        ensures
            n == self.spec_len(),
    {
        self.entries.len()
    }

    /// The position of the entry with digest `d`, if there is one.
    pub fn position(&self, d: &HashValue) -> (r: Option<usize>)
        requires
            self.wf(),
        ensures
            match r {
                Some(i) => i < self.spec_len() && self.spec_key_at(i as int) == d@
                    && self@.contains_key(d@) && self.index_of(d@) == i,
                None => !self@.contains_key(d@),
            },
    {
        let mut i: usize = 0;
        while i < self.entries.len()
            invariant
                self.wf(),
                i <= self.entries@.len(),
                forall|j: int| 0 <= j < i ==> self.entries@[j].key@ != d@,
            decreases self.entries@.len() - i,
        {
            if self.entries[i].key.same(d) {
                proof {
                    self.lemma_index(i as int);
                }
                return Some(i);
            }
            i += 1;
        }
        None
    }

    /// Whether the table has an entry for `d`.
    pub fn contains(&self, d: &HashValue) -> (r: bool)
        requires
            self.wf(),
        ensures
            r == self@.contains_key(d@),
    {
        self.position(d).is_some()
    }

    /// The value stored for `d`, if any.
    pub fn get(&self, d: &HashValue) -> (r: Option<&V>)
        requires
            self.wf(),
        ensures
            match r {
                Some(v) => self@.contains_key(d@) && *v == self@[d@],
                None => !self@.contains_key(d@),
            },
    {
        match self.position(d) {
            Some(i) => {
                proof {
                    self.lemma_index(i as int);
                }
                Some(&self.entries[i].value)
            },
            None => None,
        }
    }

    /// Stores `value` for `d`, and hands back what was stored for it before.
    pub fn insert(&mut self, d: HashValue, value: V) -> (prev: Option<V>)
        requires
            old(self).wf(),
        ensures
            final(self).wf(),
            final(self)@ == old(self)@.insert(d@, value),
            match prev {
                Some(v) => old(self)@.contains_key(d@) && v == old(self)@[d@] && final(self).spec_len() == old(self).spec_len(),
                None => !old(self)@.contains_key(d@) && final(self).spec_len() == old(self).spec_len() + 1,
            },
    {
        let ghost before = *self;
        match self.position(&d) {
            Some(i) => {
                proof {
                    before.lemma_index(i as int);
                }
                let gone = self.entries.remove(i);
                self.entries.insert(i, Entry { key: d, value });
                proof {
                    assert(self.entries@.len() == before.entries@.len());
                    assert forall|j: int| 0 <= j < self.entries@.len() implies self.entries@[j].key@
                        == before.entries@[j].key@ by {}
                    assert(self.wf());
                    assert forall|k: Seq<u8>| #[trigger] self.has(k) == before.has(k) by {
                        if before.has(k) {
                            let j = before.index_of(k);
                            assert(self.entries@[j].key@ == k);
                        }
                        if self.has(k) {
                            let j = self.index_of(k);
                            assert(before.entries@[j].key@ == k);
                        }
                    }
                    assert forall|k: Seq<u8>| self.has(k) implies #[trigger] self@[k]
                        == before@.insert(d@, value)[k] by {
                        let j = self.index_of(k);
                        self.lemma_index(j);
                        before.lemma_index(j);
                    }
                    assert(self@ =~= before@.insert(d@, value));
                }
                Some(gone.value)
            },
            None => {
                self.entries.push(Entry { key: d, value });
                proof {
                    let n = before.entries@.len() as int;
                    assert forall|j: int| 0 <= j < n implies self.entries@[j]
                        == before.entries@[j] by {}
                    assert forall|j: int| 0 <= j < n implies before.entries@[j].key@ != d@ by {
                        if before.entries@[j].key@ == d@ {
                            before.lemma_index(j);
                        }
                    }
                    assert(self.wf());
                    assert forall|k: Seq<u8>| #[trigger] self.has(k) == (before.has(k) || k == d@) by {
                        if before.has(k) {
                            let j = before.index_of(k);
                            assert(self.entries@[j].key@ == k);
                        }
                        if k == d@ {
                            assert(self.entries@[n].key@ == k);
                        }
                        if self.has(k) {
                            let j = self.index_of(k);
                            if j < n {
                                assert(before.entries@[j].key@ == k);
                            }
                        }
                    }
                    assert forall|k: Seq<u8>| self.has(k) implies #[trigger] self@[k]
                        == before@.insert(d@, value)[k] by {
                        let j = self.index_of(k);
                        self.lemma_index(j);
                        if j < n {
                            before.lemma_index(j);
                        }
                    }
                    assert(self@ =~= before@.insert(d@, value));
                }
                None
            },
        }
    }

    /// Removes the entry for `d`, and hands back its value.
    pub fn remove(&mut self, d: &HashValue) -> (gone: Option<V>)
        requires
            old(self).wf(),
        ensures
            final(self).wf(),
            final(self)@ == old(self)@.remove(d@),
            match gone {
                Some(v) => old(self)@.contains_key(d@) && v == old(self)@[d@] && final(self).spec_len() + 1 == old(self).spec_len(),
                None => !old(self)@.contains_key(d@) && final(self).spec_len() == old(self).spec_len(),
            },
    {
        let ghost before = *self;
        match self.position(d) {
            Some(i) => {
                proof {
                    before.lemma_index(i as int);
                }
                let gone = self.entries.remove(i);
                proof {
                    let n = self.entries@.len() as int;
                    assert forall|j: int| 0 <= j < n implies self.entries@[j] == before.entries@[if j
                        < i {
                        j
                    } else {
                        j + 1
                    }] by {}
                    assert(self.wf()) by {
                        assert forall|a: int, b: int| 0 <= a < b < n implies self.entries@[a].key@
                            != self.entries@[b].key@ by {
                            let a2 = if a < i { a } else { a + 1 };
                            let b2 = if b < i { b } else { b + 1 };
                            assert(a2 < b2);
                        }
                    }
                    assert forall|k: Seq<u8>| #[trigger] self.has(k) == (before.has(k) && k != d@) by {
                        if before.has(k) && k != d@ {
                            let j = before.index_of(k);
                            let j2 = if j < i { j } else { j - 1 };
                            assert(self.entries@[j2].key@ == k);
                        }
                        if self.has(k) {
                            let j = self.index_of(k);
                            let j2 = if j < i { j } else { j + 1 };
                            assert(before.entries@[j2].key@ == k);
                            if k == d@ {
                                before.lemma_index(j2);
                            }
                        }
                    }
                    assert forall|k: Seq<u8>| self.has(k) implies #[trigger] self@[k]
                        == before@.remove(d@)[k] by {
                        let j = self.index_of(k);
                        self.lemma_index(j);
                        let j2 = if j < i { j } else { j + 1 };
                        before.lemma_index(j2);
                    }
                    assert(self@ =~= before@.remove(d@));
                }
                Some(gone.value)
            },
            None => {
                assert(self@ =~= before@.remove(d@));
                None
            },
        }
    }
}

impl<V> DigestMap<V> {
    /// Removes the entry at the last position, and hands it back.
    pub fn pop_last(&mut self) -> (gone: Option<Entry<V>>)
        requires
            old(self).wf(),
        ensures
            final(self).wf(),
            gone is None == (old(self).spec_len() == 0),
            gone is None ==> final(self)@ == old(self)@ && final(self).spec_len() == 0,
            gone matches Some(e) ==> {
                &&& final(self).spec_len() + 1 == old(self).spec_len()
                &&& e.key@ == old(self).spec_key_at(old(self).spec_len() - 1)
                &&& e.value == old(self).spec_value_at(old(self).spec_len() - 1)
                &&& old(self)@.contains_key(e.key@)
                &&& old(self)@[e.key@] == e.value
                &&& final(self)@ == old(self)@.remove(e.key@)
                &&& forall|j: int|
                    0 <= j < final(self).spec_len() ==> #[trigger] final(self).spec_key_at(j)
                        == old(self).spec_key_at(j)
                &&& forall|j: int|
                    0 <= j < final(self).spec_len() ==> #[trigger] final(self).spec_value_at(j)
                        == old(self).spec_value_at(j)
            },
    {
        let ghost before = *self;
        match self.entries.pop() {
            Some(e) => {
                proof {
                    let n = self.entries@.len() as int;
                    before.lemma_index(n);
                    assert forall|j: int| 0 <= j < n implies self.entries@[j]
                        == before.entries@[j] by {}
                    assert(self.wf());
                    assert forall|k: Seq<u8>| #[trigger] self.has(k) == (before.has(k) && k
                        != e.key@) by {
                        if before.has(k) && k != e.key@ {
                            let j = before.index_of(k);
                            assert(self.entries@[j].key@ == k);
                        }
                        if self.has(k) {
                            let j = self.index_of(k);
                            assert(before.entries@[j].key@ == k);
                            if k == e.key@ {
                                before.lemma_index(j);
                            }
                        }
                    }
                    assert forall|k: Seq<u8>| self.has(k) implies #[trigger] self@[k]
                        == before@.remove(e.key@)[k] by {
                        let j = self.index_of(k);
                        self.lemma_index(j);
                        before.lemma_index(j);
                    }
                    assert(self@ =~= before@.remove(e.key@));
                }
                Some(e)
            },
            None => {
                assert(self.entries@ =~= before.entries@);
                assert(self@ =~= before@);
                None
            },
        }
    }
}

impl<V> DigestMap<V> {
    /// A table without entries is the empty map.
    pub proof fn lemma_empty(&self)
        requires
            self.spec_len() == 0,
        ensures
            self@ == Map::<Seq<u8>, V>::empty(),
    {
        assert(self@ =~= Map::<Seq<u8>, V>::empty());
    }
}

impl<V> DigestMap<V> {
    /// The empty map has no entries.
    pub proof fn lemma_empty_len(&self)
        requires
            self.wf(),
            self@ == Map::<Seq<u8>, V>::empty(),
        ensures
            self.spec_len() == 0,
    {
        if self.spec_len() > 0 {
            self.lemma_index(0);
        }
    }
}

} // verus!
