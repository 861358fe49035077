//! An association vector keyed by 128-bit identifiers.
//!
//! The store's resources, the event channels, the schedule registry and
//! the reflection registry are all maps from a stable identifier to a
//! value. This container keeps the entries in insertion order, holds at
//! most one entry per key, and is specified against the mathematical
//! `Map` it stands for.

use vstd::prelude::*;

verus! {

/// A map from 128-bit keys to values, kept as a vector of entries in
/// insertion order with pairwise distinct keys.
pub struct KeyedVec<V> {
    entries: Vec<(u128, V)>,
}

impl<V> KeyedVec<V> {
    /// The entries as a sequence of key-value pairs, oldest first.
    pub closed spec fn entries_seq(self) -> Seq<(u128, V)> {
        self.entries@
    }

    /// Keys are pairwise distinct.
    pub open spec fn wf(self) -> bool {
        forall|i: int, j: int|
            0 <= i < j < self.entries_seq().len() ==> (#[trigger] self.entries_seq()[i]).0 != (
            #[trigger] self.entries_seq()[j]).0
    }

    /// Whether some entry carries the key.
    pub open spec fn spec_has_key(self, k: u128) -> bool {
        exists|i: int|
            0 <= i < self.entries_seq().len() && (#[trigger] self.entries_seq()[i]).0 == k
    }

    /// The index of the entry that carries the key.
    pub open spec fn key_index(self, k: u128) -> int {
        choose|i: int|
            0 <= i < self.entries_seq().len() && (#[trigger] self.entries_seq()[i]).0 == k
    }

    /// The mathematical map this container stands for.
    pub open spec fn view(self) -> Map<u128, V> {
        Map::new(
            |k: u128| self.spec_has_key(k),
            |k: u128| self.entries_seq()[self.key_index(k)].1,
        )
    }

    /// Under well-formedness the key's entry index is unique.
    pub proof fn lemma_key_index_unique(self, k: u128, i: int)
        requires
            self.wf(),
            0 <= i < self.entries_seq().len(),
            self.entries_seq()[i].0 == k,
        ensures
            self.key_index(k) == i,
            self@.dom().contains(k),
            self@[k] == self.entries_seq()[i].1,
    {
        let j = self.key_index(k);
        assert(0 <= j < self.entries_seq().len() && self.entries_seq()[j].0 == k);
    }

    /// An empty map.
    pub fn new() -> (r: Self)
        ensures
            r.wf(),
            r@ == Map::<u128, V>::empty(),
            r.entries_seq() =~= Seq::<(u128, V)>::empty(),
    {
        let r = KeyedVec { entries: Vec::new() };
        proof {
            assert(r@ =~= Map::<u128, V>::empty());
        }
        r
    }

    /// How many entries there are.
    pub fn len(&self) -> (n: usize)
        ensures
            n == self.entries_seq().len(),
    {
        self.entries.len()
    }

    /// The key of the entry at the given position, oldest first.
    pub fn key_at(&self, i: usize) -> (k: u128)
        requires
            i < self.entries_seq().len(),
        ensures
            k == self.entries_seq()[i as int].0,
    {
        self.entries[i].0
    }

    /// A borrow of the value of the entry at the given position.
    pub fn value_at(&self, i: usize) -> (v: &V)
        requires
            i < self.entries_seq().len(),
        ensures
            *v == self.entries_seq()[i as int].1,
    {
        &self.entries[i].1
    }

    /// Whether the key is present.
    pub fn contains_key(&self, k: u128) -> (r: bool)
        requires
            self.wf(),
        ensures
            r == self@.dom().contains(k),
    {
        let n: usize = self.entries.len();
        let mut i: usize = 0;
        while i < n
            invariant
                n == self.entries_seq().len(),
                i <= n,
                forall|j: int| 0 <= j < i ==> (#[trigger] self.entries_seq()[j]).0 != k,
            decreases n - i,
        {
            if self.entries[i].0 == k {
                return true;
            }
            i = i + 1;
        }
        false
    }

    /// A borrow of the value under the key, if the key is present.
    pub fn get(&self, k: u128) -> (r: Option<&V>)
        requires
            self.wf(),
        ensures
            match r {
                Some(v) => self@.dom().contains(k) && *v == self@[k],
                None => !self@.dom().contains(k),
            },
    {
        let n: usize = self.entries.len();
        let mut i: usize = 0;
        while i < n
            invariant
                self.wf(),
                n == self.entries_seq().len(),
                i <= n,
                forall|j: int| 0 <= j < i ==> (#[trigger] self.entries_seq()[j]).0 != k,
            decreases n - i,
        {
            if self.entries[i].0 == k {
                proof {
                    self.lemma_key_index_unique(k, i as int);
                }
                return Some(&self.entries[i].1);
            }
            i = i + 1;
        }
        None
    }

    /// Puts the value under the key, replacing any value already there.
    pub fn insert(&mut self, k: u128, v: V)
        requires
            old(self).wf(),
        ensures
            final(self).wf(),
            final(self)@ == old(self)@.insert(k, v),
            old(self)@.dom().contains(k) ==> final(self).entries_seq().len() == old(
                self,
            ).entries_seq().len(),
            !old(self)@.dom().contains(k) ==> final(self).entries_seq() == old(
                self,
            ).entries_seq().push((k, v)),
    {
        let n: usize = self.entries.len();
        let mut i: usize = 0;
        while i < n
            invariant
                self.wf(),
                self == old(self),
                n == self.entries_seq().len(),
                i <= n,
                forall|j: int| 0 <= j < i ==> (#[trigger] self.entries_seq()[j]).0 != k,
            decreases n - i,
        {
            if self.entries[i].0 == k {
                proof {
                    self.lemma_key_index_unique(k, i as int);
                }
                self.entries.set(i, (k, v));
                proof {
                    assert forall|i2: int, j2: int|
                        0 <= i2 < j2 < self.entries_seq().len() implies (
                    #[trigger] self.entries_seq()[i2]).0 != (#[trigger] self.entries_seq()[j2]).0 by {
                        assert(old(self).entries_seq()[i2].0 != old(self).entries_seq()[j2].0);
                    }
                    self.lemma_key_index_unique(k, i as int);
                    assert forall|k2: u128| #[trigger]
                        self@.dom().contains(k2) == old(self)@.insert(k, v).dom().contains(k2) by {
                        if k2 != k {
                            assert(self.spec_has_key(k2) == old(self).spec_has_key(k2)) by {
                                if self.spec_has_key(k2) {
                                    let j = choose|j: int|
                                        0 <= j < self.entries_seq().len() && (
                                        #[trigger] self.entries_seq()[j]).0 == k2;
                                    assert(j != i);
                                    assert(old(self).entries_seq()[j].0 == k2);
                                }
                                if old(self).spec_has_key(k2) {
                                    let j = choose|j: int|
                                        0 <= j < old(self).entries_seq().len() && (#[trigger] old(
                                            self,
                                        ).entries_seq()[j]).0 == k2;
                                    assert(j != i);
                                    assert(self.entries_seq()[j].0 == k2);
                                }
                            }
                        }
                    }
                    assert forall|k2: u128| self@.dom().contains(k2) implies #[trigger] self@[k2]
                        == old(self)@.insert(k, v)[k2] by {
                        if k2 != k {
                            let j = choose|j: int|
                                0 <= j < old(self).entries_seq().len() && (#[trigger] old(
                                    self,
                                ).entries_seq()[j]).0 == k2;
                            old(self).lemma_key_index_unique(k2, j);
                            self.lemma_key_index_unique(k2, j);
                        }
                    }
                    assert(self@ =~= old(self)@.insert(k, v));
                }
                return ;
            }
            i = i + 1;
        }
        self.entries.push((k, v));
        proof {
            let s = self.entries_seq();
            let old_s = old(self).entries_seq();
            assert(s == old_s.push((k, v)));
            assert forall|i2: int, j2: int| 0 <= i2 < j2 < s.len() implies (#[trigger] s[i2]).0 != (
            #[trigger] s[j2]).0 by {
                if j2 < old_s.len() {
                    assert(old_s[i2].0 != old_s[j2].0);
                } else {
                    assert(s[j2] == (k, v));
                    assert(old_s[i2].0 != k);
                }
            }
            self.lemma_key_index_unique(k, s.len() - 1);
            assert forall|k2: u128| #[trigger]
                self@.dom().contains(k2) == old(self)@.insert(k, v).dom().contains(k2) by {
                if k2 != k {
                    assert(self.spec_has_key(k2) == old(self).spec_has_key(k2)) by {
                        if self.spec_has_key(k2) {
                            let j = choose|j: int| 0 <= j < s.len() && (#[trigger] s[j]).0 == k2;
                            assert(old_s[j].0 == k2);
                        }
                        if old(self).spec_has_key(k2) {
                            let j = choose|j: int|
                                0 <= j < old_s.len() && (#[trigger] old_s[j]).0 == k2;
                            assert(s[j].0 == k2);
                        }
                    }
                }
            }
            assert forall|k2: u128| self@.dom().contains(k2) implies #[trigger] self@[k2] == old(
                self,
            )@.insert(k, v)[k2] by {
                if k2 != k {
                    let j = choose|j: int| 0 <= j < old_s.len() && (#[trigger] old_s[j]).0 == k2;
                    old(self).lemma_key_index_unique(k2, j);
                    self.lemma_key_index_unique(k2, j);
                }
            }
            assert(self@ =~= old(self)@.insert(k, v));
        }
    }

    /// Takes the value under the key out, if the key is present.
    pub fn remove(&mut self, k: u128) -> (r: Option<V>)
        requires
            old(self).wf(),
        ensures
            final(self).wf(),
            final(self)@ == old(self)@.remove(k),
            match r {
                Some(v) => old(self)@.dom().contains(k) && v == old(self)@[k],
                None => !old(self)@.dom().contains(k) && *final(self) == *old(self),
            },
    {
        let n: usize = self.entries.len();
        let mut i: usize = 0;
        while i < n
            invariant
                self.wf(),
                self == old(self),
                n == self.entries_seq().len(),
                i <= n,
                forall|j: int| 0 <= j < i ==> (#[trigger] self.entries_seq()[j]).0 != k,
            decreases n - i,
        {
            if self.entries[i].0 == k {
                proof {
                    self.lemma_key_index_unique(k, i as int);
                }
                let (_, v) = self.entries.remove(i);
                proof {
                    let s = self.entries_seq();
                    let old_s = old(self).entries_seq();
                    assert(s == old_s.remove(i as int));
                    assert forall|i2: int, j2: int| 0 <= i2 < j2 < s.len() implies (
                    #[trigger] s[i2]).0 != (#[trigger] s[j2]).0 by {
                        let oi = if i2 < i { i2 } else { i2 + 1 };
                        let oj = if j2 < i { j2 } else { j2 + 1 };
                        assert(old_s[oi].0 != old_s[oj].0);
                    }
                    assert forall|k2: u128| #[trigger]
                        self@.dom().contains(k2) == old(self)@.remove(k).dom().contains(k2) by {
                        if k2 != k {
                            if self.spec_has_key(k2) {
                                let j = choose|j: int|
                                    0 <= j < s.len() && (#[trigger] s[j]).0 == k2;
                                let oj = if j < i { j } else { j + 1 };
                                assert(old_s[oj].0 == k2);
                            }
                            if old(self).spec_has_key(k2) {
                                let j = choose|j: int|
                                    0 <= j < old_s.len() && (#[trigger] old_s[j]).0 == k2;
                                assert(j != i);
                                let nj = if j < i { j } else { j - 1 };
                                assert(s[nj].0 == k2);
                            }
                        } else {
                            if self.spec_has_key(k) {
                                let j = choose|j: int| 0 <= j < s.len() && (#[trigger] s[j]).0 == k;
                                let oj = if j < i { j } else { j + 1 };
                                assert(old_s[oj].0 == k);
                                assert(oj != i);
                                assert(false);
                            }
                        }
                    }
                    assert forall|k2: u128| self@.dom().contains(k2) implies #[trigger] self@[k2]
                        == old(self)@.remove(k)[k2] by {
                        let j = choose|j: int| 0 <= j < s.len() && (#[trigger] s[j]).0 == k2;
                        self.lemma_key_index_unique(k2, j);
                        let oj = if j < i { j } else { j + 1 };
                        old(self).lemma_key_index_unique(k2, oj);
                    }
                    assert(self@ =~= old(self)@.remove(k));
                }
                return Some(v);
            }
            i = i + 1;
        }
        proof {
            assert(self@ =~= old(self)@.remove(k));
        }
        None
    }
}

} // verus!
