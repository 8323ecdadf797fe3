//! The keyed ledger that every component stores its records in: a list of
//! `(32-byte key, value)` pairs with pairwise-distinct keys, read through a
//! `Map` view keyed by the key's byte sequence.
//!
//! Nested ledgers (`Table<Table<V>>`) give the per-name/per-account two-level
//! maps that delegation, subscription and dispute all share.

use crate::ids::bytes32_eq;
use vstd::prelude::*;

verus! {

pub struct Table<V> {
    pairs: Vec<([u8; 32], V)>,
}

impl<V> Table<V> {
    /// The entries in storage order, each key seen as its byte sequence.
    pub closed spec fn kv(self) -> Seq<(Seq<u8>, V)> {
        self.pairs@.map_values(|p: ([u8; 32], V)| (p.0@, p.1))
    }

    /// Keys are pairwise distinct, so the map view loses nothing.
    pub open spec fn wf(self) -> bool {
        forall|i: int, j: int|
            0 <= i < j < self.kv().len() ==> (#[trigger] self.kv()[i]).0 != (
            #[trigger] self.kv()[j]).0
    }

    pub open spec fn contains(self, k: Seq<u8>) -> bool {
        exists|i: int| 0 <= i < self.kv().len() && (#[trigger] self.kv()[i]).0 == k
    }

    /// The position of key `k`, when some entry holds it.
    pub open spec fn spec_idx(self, k: Seq<u8>) -> int {
        choose|i: int| 0 <= i < self.kv().len() && (#[trigger] self.kv()[i]).0 == k
    }

    /// Ties the entry at position `i` to the map view.
    pub proof fn lemma_at(self, i: int)
        requires
            self.wf(),
            0 <= i < self.kv().len(),
        ensures
            self.contains(self.kv()[i].0),
            self@.contains_key(self.kv()[i].0),
            self.spec_idx(self.kv()[i].0) == i,
            self@[self.kv()[i].0] == self.kv()[i].1,
    {
        let k = self.kv()[i].0;
        assert(self.contains(k));
        let j = self.spec_idx(k);
        assert(0 <= j < self.kv().len() && self.kv()[j].0 == k);
        if i < j {
            assert(self.kv()[i].0 != self.kv()[j].0);
        } else if j < i {
            assert(self.kv()[j].0 != self.kv()[i].0);
        }
    }

    pub fn new() -> (t: Self)
        ensures
            t.wf(),
            t@ == Map::<Seq<u8>, V>::empty(),
            t.kv() == Seq::<(Seq<u8>, V)>::empty(),
    {
        let t = Table { pairs: Vec::new() };
        proof {
            assert(t.kv() =~= Seq::<(Seq<u8>, V)>::empty());
            assert(t@ =~= Map::<Seq<u8>, V>::empty());
        }
        t
    }

    fn position(&self, k: &[u8; 32]) -> (r: Option<usize>)
        ensures
            match r {
                Some(i) => i < self.kv().len() && self.kv()[i as int].0 == k@,
                None => !self.contains(k@),
            },
    {
        let n = self.pairs.len();
        let mut i: usize = 0;
        while i < n
            invariant
                n == self.pairs.len(),
                0 <= i <= n,
                forall|j: int| 0 <= j < i ==> (#[trigger] self.kv()[j]).0 != k@,
            decreases n - i,
        {
            if bytes32_eq(&self.pairs[i].0, k) {
                return Some(i);
            }
            i = i + 1;
        }
        None
    }

    pub fn len(&self) -> (n: usize)
        ensures
            n == self.kv().len(),
    {
        self.pairs.len()
    }

    pub fn key_at(&self, i: usize) -> (k: &[u8; 32])
        requires
            i < self.kv().len(),
        ensures
            k@ == self.kv()[i as int].0,
    {
        &self.pairs[i].0
    }

    pub fn val_at(&self, i: usize) -> (v: &V)
        requires
            i < self.kv().len(),
        ensures
            *v == self.kv()[i as int].1,
    {
        &self.pairs[i].1
    }

    pub fn contains_key(&self, k: &[u8; 32]) -> (r: bool)
        ensures
            r == self.contains(k@),
            r == self@.contains_key(k@),
    {
        match self.position(k) {
            Some(_) => true,
            None => false,
        }
    }

    pub fn get(&self, k: &[u8; 32]) -> (r: Option<&V>)
        requires
            self.wf(),
        ensures
            match r {
                Some(v) => self@.contains_key(k@) && *v == self@[k@],
                None => !self@.contains_key(k@),
            },
    {
        match self.position(k) {
            Some(i) => {
                proof {
                    self.lemma_at(i as int);
                }
                Some(&self.pairs[i].1)
            },
            None => None,
        }
    }

    /// Replaces the value at position `i`, keeping its key.
    pub fn set_val_at(&mut self, i: usize, v: V)
        requires
            old(self).wf(),
            i < old(self).kv().len(),
        ensures
            final(self).wf(),
            final(self).kv() == old(self).kv().update(i as int, (old(self).kv()[i as int].0, v)),
            final(self)@ == old(self)@.insert(old(self).kv()[i as int].0, v),
    {
        let ghost prev = *old(self);
        let k = self.pairs[i].0;
        self.pairs.set(i, (k, v));
        proof {
            let ki = prev.kv()[i as int].0;
            assert(self.kv() =~= prev.kv().update(i as int, (ki, v)));
            assert forall|a: int, b: int| 0 <= a < b < self.kv().len() implies (
            #[trigger] self.kv()[a]).0 != (#[trigger] self.kv()[b]).0 by {
                assert(self.kv()[a].0 == prev.kv()[a].0);
                assert(self.kv()[b].0 == prev.kv()[b].0);
            }
            assert(self@ =~= prev@.insert(ki, v)) by {
                prev.lemma_at(i as int);
                self.lemma_at(i as int);
                assert forall|s: Seq<u8>| #[trigger] prev@.contains_key(s) && s != ki implies
                    self@.contains_key(s) && self@[s] == prev@[s] by {
                    let j = prev.spec_idx(s);
                    prev.lemma_at(j);
                    self.lemma_at(j);
                }
                assert forall|s: Seq<u8>| #[trigger] self@.contains_key(s) && s != ki implies
                    prev@.contains_key(s) by {
                    let j = self.spec_idx(s);
                    self.lemma_at(j);
                    prev.lemma_at(j);
                }
            }
        }
    }

    /// Inserts or overwrites the entry for key `k`.
    pub fn insert(&mut self, k: [u8; 32], v: V)
        requires
            old(self).wf(),
        ensures
            final(self).wf(),
            final(self)@ == old(self)@.insert(k@, v),
            old(self).contains(k@) ==> final(self).kv() == old(self).kv().update(
                old(self).spec_idx(k@),
                (k@, v),
            ),
            !old(self).contains(k@) ==> final(self).kv() == old(self).kv().push((k@, v)),
    {
        let ghost prev = *old(self);
        match self.position(&k) {
            Some(i) => {
                proof {
                    prev.lemma_at(i as int);
                }
                self.set_val_at(i, v);
                proof {
                    assert(prev.kv()[i as int].0 == k@);
                }
            },
            None => {
                self.pairs.push((k, v));
                proof {
                    assert(self.kv() =~= prev.kv().push((k@, v)));
                    let n = prev.kv().len() as int;
                    assert forall|a: int, b: int| 0 <= a < b < self.kv().len() implies (
                    #[trigger] self.kv()[a]).0 != (#[trigger] self.kv()[b]).0 by {
                        if b < n {
                            assert(self.kv()[a] == prev.kv()[a]);
                            assert(self.kv()[b] == prev.kv()[b]);
                        } else {
                            assert(self.kv()[b].0 == k@);
                            assert(self.kv()[a] == prev.kv()[a]);
                            assert(!prev.contains(k@));
                        }
                    }
                    assert(self@ =~= prev@.insert(k@, v)) by {
                        self.lemma_at(n);
                        assert forall|s: Seq<u8>| #[trigger] prev@.contains_key(s) implies
                            self@.contains_key(s) && (s != k@ ==> self@[s] == prev@[s]) by {
                            let j = prev.spec_idx(s);
                            prev.lemma_at(j);
                            self.lemma_at(j);
                        }
                        assert forall|s: Seq<u8>| #[trigger] self@.contains_key(s) && s != k@
                            implies prev@.contains_key(s) by {
                            let j = self.spec_idx(s);
                            self.lemma_at(j);
                            assert(j < n);
                            prev.lemma_at(j);
                        }
                    }
                }
            },
        }
    }

    /// Removes the entry for key `k` and hands its value back.
    pub fn remove(&mut self, k: &[u8; 32]) -> (r: Option<V>)
        requires
            old(self).wf(),
        ensures
            final(self).wf(),
            match r {
                Some(v) => old(self)@.contains_key(k@) && v == old(self)@[k@] && final(self)@
                    == old(self)@.remove(k@) && final(self).kv() == old(self).kv().remove(
                    old(self).spec_idx(k@),
                ),
                None => !old(self)@.contains_key(k@) && *final(self) == *old(self),
            },
    {
        let ghost prev = *old(self);
        match self.position(k) {
            Some(i) => {
                proof {
                    prev.lemma_at(i as int);
                }
                let p = self.pairs.remove(i);
                proof {
                    let n = prev.kv().len();
                    prev.pairs@.remove_ensures(i as int);
                    assert(self.kv() =~= prev.kv().remove(i as int)) by {
                        prev.kv().remove_ensures(i as int);
                        assert(self.kv().len() == n - 1);
                        assert forall|j: int| 0 <= j < n - 1 implies #[trigger] self.kv()[j]
                            == prev.kv().remove(i as int)[j] by {
                            if j < i {
                                assert(self.pairs@[j] == prev.pairs@[j]);
                            } else {
                                assert(self.pairs@[j] == prev.pairs@[j + 1]);
                            }
                        }
                    }
                    prev.kv().remove_ensures(i as int);
                    assert forall|a: int, b: int| 0 <= a < b < self.kv().len() implies (
                    #[trigger] self.kv()[a]).0 != (#[trigger] self.kv()[b]).0 by {
                        let a0: int = if a < i { a } else { a + 1 };
                        let b0: int = if b < i { b } else { b + 1 };
                        assert(self.kv()[a] == prev.kv()[a0]);
                        assert(self.kv()[b] == prev.kv()[b0]);
                    }
                    assert(self@ =~= prev@.remove(k@)) by {
                        assert forall|s: Seq<u8>| #[trigger] prev@.contains_key(s) && s != k@
                            implies self@.contains_key(s) && self@[s] == prev@[s] by {
                            let j = prev.spec_idx(s);
                            prev.lemma_at(j);
                            let j2: int = if j < i { j } else { j - 1 };
                            assert(self.kv()[j2] == prev.kv()[j]);
                            self.lemma_at(j2);
                        }
                        assert forall|s: Seq<u8>| #[trigger] self@.contains_key(s) implies prev@
                            .contains_key(s) && s != k@ by {
                            let j = self.spec_idx(s);
                            self.lemma_at(j);
                            let j0: int = if j < i { j } else { j + 1 };
                            assert(self.kv()[j] == prev.kv()[j0]);
                            prev.lemma_at(j0);
                        }
                    }
                }
                Some(p.1)
            },
            None => None,
        }
    }
}

impl<V> View for Table<V> {
    type V = Map<Seq<u8>, V>;

    open spec fn view(&self) -> Map<Seq<u8>, V> {
        Map::new(|k: Seq<u8>| self.contains(k), |k: Seq<u8>| self.kv()[self.spec_idx(k)].1)
    }
}

} // verus!
