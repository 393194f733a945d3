//! An identifier-keyed map, stored as a vector of key/value pairs with
//! pairwise-distinct keys, in insertion order.
//!
//! Its mathematical content is the sequence of (key view, value view) pairs
//! given by [`IdMap::dv`]; lookups are specified through the helpers of
//! [`crate::kv`].

use vstd::prelude::*;

use crate::kv::{
    kv_get, kv_has_key, kv_keys_unique, kv_remove, kv_set, lemma_kv_get_at, lemma_kv_get_none,
    lemma_kv_remove_at, lemma_kv_remove_absent, lemma_kv_set_absent, lemma_kv_set_at,
};
use crate::strutil::str_eq;

verus! {

/// A map from identifier strings to values, in insertion order.
#[derive(Debug, PartialEq)]
pub struct IdMap<V> {
    pub entries: Vec<(String, V)>,
}

impl<V: DeepView> IdMap<V> {
    /// The sequence of key/value pairs this map stands for.
    pub open spec fn dv(&self) -> Seq<(Seq<char>, V::V)> {
        Seq::new(
            self.entries@.len(),
            |i: int|
                if 0 <= i < self.entries@.len() {
                    (self.entries@[i].0@, self.entries@[i].1.deep_view())
                } else {
                    arbitrary()
                },
        )
    }

    /// Well-formed: no two entries share a key.
    pub open spec fn wf(&self) -> bool {
        kv_keys_unique(self.dv())
    }

    /// An empty map.
    pub fn new() -> (r: Self)
        ensures
            r.dv() == Seq::<(Seq<char>, V::V)>::empty(),
            r.wf(),
    {
        let r = IdMap { entries: Vec::new() };
        proof {
            assert(r.dv() =~= Seq::<(Seq<char>, V::V)>::empty());
        }
        r
    }

    /// The number of entries.
    pub fn len(&self) -> (r: usize)
        ensures
            r == self.dv().len(),
    {
        self.entries.len()
    }

    /// The index of the first entry keyed `k`, if any.
    fn find(&self, k: &str) -> (r: Option<usize>)
        ensures
            match r {
                Some(i) => {
                    &&& i < self.dv().len()
                    &&& self.dv()[i as int].0 == k@
                    &&& forall|t: int| 0 <= t < i ==> self.dv()[t].0 != k@
                },
                None => forall|t: int| 0 <= t < self.dv().len() ==> self.dv()[t].0 != k@,
            },
    {
        let n = self.entries.len();
        let mut i: usize = 0;
        while i < n
            invariant
                n == self.entries@.len(),
                0 <= i <= n,
                forall|t: int| 0 <= t < i ==> self.dv()[t].0 != k@,
            decreases n - i,
        {
            if str_eq(self.entries[i].0.as_str(), k) {
                return Some(i);
            }
            i = i + 1;
        }
        None
    }

    /// Is some entry keyed `k`?
    pub fn contains_key(&self, k: &str) -> (r: bool)
        ensures
            r == kv_has_key(self.dv(), k@),
    {
        match self.find(k) {
            Some(i) => {
                assert(kv_has_key(self.dv(), k@));
                true
            },
            None => {
                assert(!kv_has_key(self.dv(), k@));
                false
            },
        }
    }

    /// The value of the first entry keyed `k`, if any.
    pub fn get(&self, k: &str) -> (r: Option<&V>)
        ensures
            match r {
                Some(v) => kv_get(self.dv(), k@) == Some(v.deep_view()) && kv_has_key(
                    self.dv(),
                    k@,
                ),
                None => !kv_has_key(self.dv(), k@),
            },
    {
        match self.find(k) {
            Some(i) => {
                proof {
                    lemma_kv_get_at(self.dv(), k@, i as int);
                }
                Some(&self.entries[i].1)
            },
            None => {
                proof {
                    lemma_kv_get_none(self.dv(), k@);
                }
                assert(!kv_has_key(self.dv(), k@));
                None
            },
        }
    }

    /// Append an entry under a key not yet present.
    pub fn insert_new(&mut self, k: String, v: V)
        requires
            !kv_has_key(old(self).dv(), k@),
        ensures
            final(self).dv() == old(self).dv().push((k@, v.deep_view())),
            old(self).wf() ==> final(self).wf(),
    {
        let ghost pre = self.dv();
        self.entries.push((k, v));
        proof {
            assert(self.dv() =~= pre.push((k@, v.deep_view())));
        }
    }

    /// Replace the value of the entry keyed `k`.
    pub fn set_val(&mut self, k: &str, v: V)
        requires
            kv_has_key(old(self).dv(), k@),
        ensures
            final(self).dv() == kv_set(old(self).dv(), k@, v.deep_view()),
            old(self).wf() ==> final(self).wf(),
    {
        let ghost pre = self.dv();
        match self.find(k) {
            Some(i) => {
                let entry = self.entries.remove(i);
                self.entries.insert(i, (entry.0, v));
                proof {
                    lemma_kv_set_at(pre, k@, v.deep_view(), i as int);
                    assert(self.dv() =~= pre.update(i as int, (k@, v.deep_view())));
                    if kv_keys_unique(pre) {
                        assert(kv_keys_unique(self.dv()));
                    }
                }
            },
            None => {
                proof {
                    assert(false);
                }
            },
        }
    }

    /// Remove the entry keyed `k`, handing its value back.
    pub fn remove(&mut self, k: &str) -> (r: Option<V>)
        ensures
            final(self).dv() == kv_remove(old(self).dv(), k@),
            match r {
                Some(v) => kv_get(old(self).dv(), k@) == Some(v.deep_view()) && kv_has_key(
                    old(self).dv(),
                    k@,
                ),
                None => !kv_has_key(old(self).dv(), k@),
            },
            old(self).wf() ==> final(self).wf(),
    {
        let ghost pre = self.dv();
        match self.find(k) {
            Some(i) => {
                let entry = self.entries.remove(i);
                proof {
                    lemma_kv_get_at(pre, k@, i as int);
                    lemma_kv_remove_at(pre, k@, i as int);
                    assert(self.dv() =~= pre.subrange(0, i as int) + pre.subrange(
                        i as int + 1,
                        pre.len() as int,
                    ));
                    if kv_keys_unique(pre) {
                        assert(kv_keys_unique(self.dv()));
                    }
                }
                Some(entry.1)
            },
            None => {
                proof {
                    lemma_kv_get_none(pre, k@);
                    lemma_kv_remove_absent(pre, k@);
                    assert(!kv_has_key(pre, k@));
                }
                None
            },
        }
    }

    /// Replace the value under `k`, or append the entry when the key is
    /// new.
    pub fn upsert(&mut self, k: String, v: V)
        ensures
            final(self).dv() == kv_set(old(self).dv(), k@, v.deep_view()),
            old(self).wf() ==> final(self).wf(),
    {
        if self.contains_key(k.as_str()) {
            self.set_val(k.as_str(), v);
        } else {
            let ghost pre = self.dv();
            proof {
                lemma_kv_set_absent(pre, k@, v.deep_view());
            }
            self.insert_new(k, v);
        }
    }

    /// Decide whether all keys are pairwise distinct.
    pub fn keys_unique(&self) -> (r: bool)
        ensures
            r == self.wf(),
    {
        let n = self.entries.len();
        let mut i: usize = 0;
        while i < n
            invariant
                n == self.entries@.len(),
                0 <= i <= n,
                forall|x: int, y: int| 0 <= x < y < i ==> self.dv()[x].0 != self.dv()[y].0,
            decreases n - i,
        {
            let mut j: usize = 0;
            while j < i
                invariant
                    n == self.entries@.len(),
                    0 <= j <= i < n,
                    forall|y: int| 0 <= y < j ==> self.dv()[y].0 != self.dv()[i as int].0,
                decreases i - j,
            {
                if str_eq(self.entries[j].0.as_str(), self.entries[i].0.as_str()) {
                    assert(self.dv()[j as int].0 == self.dv()[i as int].0);
                    return false;
                }
                j = j + 1;
            }
            i = i + 1;
        }
        true
    }

    /// The key of the entry at position `i`.
    pub fn key_at(&self, i: usize) -> (r: &String)
        requires
            i < self.dv().len(),
        ensures
            r@ == self.dv()[i as int].0,
    {
        &self.entries[i].0
    }

    /// The value of the entry at position `i`.
    pub fn val_at(&self, i: usize) -> (r: &V)
        requires
            i < self.dv().len(),
        ensures
            r.deep_view() == self.dv()[i as int].1,
    {
        &self.entries[i].1
    }

    /// Replace the value of the entry at position `i`, keeping its key.
    pub fn set_val_at(&mut self, i: usize, v: V)
        requires
            i < old(self).dv().len(),
        ensures
            final(self).dv() == old(self).dv().update(
                i as int,
                (old(self).dv()[i as int].0, v.deep_view()),
            ),
            old(self).wf() ==> final(self).wf(),
    {
        let ghost pre = self.dv();
        let entry = self.entries.remove(i);
        self.entries.insert(i, (entry.0, v));
        proof {
            assert(self.dv() =~= pre.update(i as int, (pre[i as int].0, v.deep_view())));
            if kv_keys_unique(pre) {
                assert(kv_keys_unique(self.dv()));
            }
        }
    }
}

} // verus!
