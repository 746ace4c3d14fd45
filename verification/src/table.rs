//! A small map keyed by text, kept in insertion order.
//!
//! Its view is a `Map` from the key's characters to the value. The entries
//! can also be walked by index, in the order in which their keys were first
//! set.

use crate::text::{same_text, texts};
use vstd::prelude::*;

verus! {

/// No text occurs twice.
pub open spec fn distinct(keys: Seq<Seq<char>>) -> bool {
    forall|i: int, j: int| 0 <= i < j < keys.len() ==> #[trigger] keys[i] != #[trigger] keys[j]
}

/// An index at which `keys` holds `key`; any index where it holds none.
pub open spec fn index_of(keys: Seq<Seq<char>>, key: Seq<char>) -> int {
    choose|i: int| 0 <= i < keys.len() && keys[i] == key
}

/// The map that pairs each of `keys` with the value at its index.
pub open spec fn paired<V>(keys: Seq<Seq<char>>, values: Seq<V>) -> Map<Seq<char>, V> {
    Map::new(|k: Seq<char>| keys.contains(k), |k: Seq<char>| values[index_of(keys, k)])
}

/// Among distinct keys, `index_of` is the one index of a key.
pub proof fn lemma_index_of(keys: Seq<Seq<char>>, at: int)
    requires
        distinct(keys),
        0 <= at < keys.len(),
    ensures
        index_of(keys, keys[at]) == at,
        keys.contains(keys[at]),
{
    let i = index_of(keys, keys[at]);
    assert(0 <= i < keys.len() && keys[i] == keys[at]);
}

/// A map from text to `V`.
pub struct Table<V> {
    keys: Vec<String>,
    values: Vec<V>,
}

impl<V> View for Table<V> {
    type V = Map<Seq<char>, V>;

    closed spec fn view(&self) -> Map<Seq<char>, V> {
        paired(self.keys(), self.values())
    }
}

impl<V> Table<V> {
    /// The keys, in the order in which they were first set.
    pub closed spec fn keys(&self) -> Seq<Seq<char>> {
        texts(self.keys@)
    }

    /// The values, each at the index of its key.
    pub closed spec fn values(&self) -> Seq<V> {
        self.values@
    }

    /// Every key has one value and occurs once.
    pub open spec fn wf(&self) -> bool {
        &&& self.keys().len() == self.values().len()
        &&& distinct(self.keys())
    }

    /// The view pairs the keys with the values.
    pub proof fn lemma_view(&self)
        ensures
            self@ == paired(self.keys(), self.values()),
    {
    }

    /// With a well-formed table, the entry at an index is in the view.
    pub proof fn lemma_entry(&self, at: int)
        requires
            self.wf(),
            0 <= at < self.keys().len(),
        ensures
            self@.contains_key(self.keys()[at]),
            self@[self.keys()[at]] == self.values()[at],
    {
        lemma_index_of(self.keys(), at);
    }

    /// A key of the view is one of the keys, and its value stands at the
    /// key's index.
    pub proof fn lemma_key(&self, key: Seq<char>)
        requires
            self.wf(),
            self@.contains_key(key),
        ensures
            self.keys().contains(key),
            0 <= index_of(self.keys(), key) < self.keys().len(),
            self.keys()[index_of(self.keys(), key)] == key,
            self@[key] == self.values()[index_of(self.keys(), key)],
    {
        let i = index_of(self.keys(), key);
        assert(0 <= i < self.keys().len() && self.keys()[i] == key);
    }

    /// The view has exactly the keys.
    pub proof fn lemma_absent(&self, key: Seq<char>)
        ensures
            self@.contains_key(key) <==> self.keys().contains(key),
    {
    }

    /// The view has as many entries as there are keys.
    pub proof fn lemma_len(&self)
        requires
            self.wf(),
        ensures
            self@.dom().finite(),
            self@.dom().len() == self.keys().len(),
    {
        let keys = self.keys();
        assert(self@.dom() =~= keys.to_set());
        assert(keys.no_duplicates()) by {
            assert forall|i: int, j: int|
                0 <= i < keys.len() && 0 <= j < keys.len() && i != j implies keys[i] != keys[j] by {
                if i < j {
                    assert(keys[i] != keys[j]);
                } else {
                    assert(keys[j] != keys[i]);
                }
            }
        }
        keys.unique_seq_to_set();
    }

    /// An empty table.
    pub fn new() -> (t: Table<V>)
        ensures
            t.wf(),
            t.keys() == Seq::<Seq<char>>::empty(),
            t.values() == Seq::<V>::empty(),
            t@ == Map::<Seq<char>, V>::empty(),
    {
        let t = Table { keys: Vec::new(), values: Vec::new() };
        assert(t.keys() =~= Seq::<Seq<char>>::empty());
        assert(t@ =~= Map::<Seq<char>, V>::empty());
        t
    }

    /// The number of entries.
    pub fn len(&self) -> (n: usize)
        requires
            self.wf(),
        ensures
            n == self.keys().len(),
    {
        self.keys.len()
    }

    /// The index of `key`.
    pub fn find(&self, key: &str) -> (r: Option<usize>)
        requires
            self.wf(),
        ensures
            match r {
                Some(i) => i < self.keys().len() && self.keys()[i as int] == key@
                    && self@.contains_key(key@) && self@[key@] == self.values()[i as int],
                None => !self.keys().contains(key@) && !self@.contains_key(key@),
            },
    {
        let mut i: usize = 0;
        while i < self.keys.len()
            invariant
                self.wf(),
                i <= self.keys.len(),
                forall|k: int| 0 <= k < i ==> (#[trigger] self.keys()[k]) != key@,
            decreases self.keys.len() - i,
        {
            if same_text(self.keys[i].as_str(), key) {
                proof {
                    assert(self.keys()[i as int] == key@);
                    self.lemma_entry(i as int);
                }
                return Some(i);
            }
            i += 1;
        }
        None
    }

    /// The key at index `at`.
    pub fn key_at(&self, at: usize) -> (key: &str)
        requires
            self.wf(),
            at < self.keys().len(),
        ensures
            key@ == self.keys()[at as int],
    {
        self.keys[at].as_str()
    }

    /// The value at index `at`.
    pub fn value_at(&self, at: usize) -> (value: &V)
        requires
            self.wf(),
            at < self.keys().len(),
        ensures
            *value == self.values()[at as int],
    {
        &self.values[at]
    }

    /// The value of `key`.
    pub fn get(&self, key: &str) -> (r: Option<&V>)
        requires
            self.wf(),
        ensures
            match r {
                Some(v) => self@.contains_key(key@) && self@[key@] == *v,
                None => !self@.contains_key(key@),
            },
    {
        match self.find(key) {
            Some(i) => Some(&self.values[i]),
            None => None,
        }
    }

    /// Sets the value of `key`. A new key goes to the end; a known one keeps
    /// its index.
    pub fn set(&mut self, key: &str, value: V)
        requires
            old(self).wf(),
        ensures
            final(self).wf(),
            final(self)@ == old(self)@.insert(key@, value),
            old(self).keys().contains(key@) ==> {
                &&& final(self).keys() == old(self).keys()
                &&& final(self).values() == old(self).values().update(
                    index_of(old(self).keys(), key@),
                    value,
                )
            },
            !old(self).keys().contains(key@) ==> {
                &&& final(self).keys() == old(self).keys().push(key@)
                &&& final(self).values() == old(self).values().push(value)
            },
    {
        let ghost keys0 = self.keys();
        let ghost values0 = self.values();
        let ghost view0 = self@;
        match self.find(key) {
            Some(i) => {
                proof {
                    lemma_index_of(keys0, i as int);
                }
                self.values[i] = value;
                proof {
                    let values1 = self.values();
                    assert(self.keys() == keys0);
                    assert(values1 =~= values0.update(i as int, value));
                    assert forall|k: Seq<char>| #[trigger]
                        keys0.contains(k) implies paired(keys0, values1)[k] == view0.insert(
                        key@,
                        value,
                    )[k] by {
                        let j = index_of(keys0, k);
                        assert(0 <= j < keys0.len() && keys0[j] == k);
                        if k == key@ {
                            assert(j == i);
                        }
                    }
                    assert(self@ =~= view0.insert(key@, value));
                }
            },
            None => {
                self.keys.push(String::from_str(key));
                self.values.push(value);
                proof {
                    let keys1 = self.keys();
                    let values1 = self.values();
                    assert(keys1 =~= keys0.push(key@));
                    assert(values1 =~= values0.push(value));
                    assert(distinct(keys1)) by {
                        assert forall|a: int, b: int| 0 <= a < b < keys1.len() implies
                            #[trigger] keys1[a] != #[trigger] keys1[b] by {
                            if b == keys0.len() {
                                assert(keys0[a] == keys1[a]);
                                assert(keys0.contains(keys0[a]));
                            } else {
                                assert(keys0[a] == keys1[a] && keys0[b] == keys1[b]);
                            }
                        }
                    }
                    assert forall|k: Seq<char>| keys1.contains(k) <==> (keys0.contains(k) || k
                        == key@) by {
                        if keys1.contains(k) {
                            let j = choose|j: int| 0 <= j < keys1.len() && keys1[j] == k;
                            if j < keys0.len() {
                                assert(keys0[j] == k);
                            }
                        }
                        if keys0.contains(k) {
                            let j = choose|j: int| 0 <= j < keys0.len() && keys0[j] == k;
                            assert(keys1[j] == k);
                        }
                        if k == key@ {
                            assert(keys1[keys0.len() as int] == k);
                        }
                    }
                    assert forall|k: Seq<char>| #[trigger]
                        keys1.contains(k) implies paired(keys1, values1)[k] == view0.insert(
                        key@,
                        value,
                    )[k] by {
                        let j = index_of(keys1, k);
                        assert(0 <= j < keys1.len() && keys1[j] == k);
                        if k != key@ {
                            assert(keys0[j] == k);
                            let j0 = index_of(keys0, k);
                            assert(0 <= j0 < keys0.len() && keys0[j0] == k);
                            assert(keys1[j0] == k);
                            assert(j0 == j);
                        } else {
                            assert(j == keys0.len());
                        }
                    }
                    assert(self@ =~= view0.insert(key@, value));
                }
            },
        }
    }

    /// Removes the entry at index `at`. Later entries move up by one.
    pub fn remove_at(&mut self, at: usize)
        requires
            old(self).wf(),
            at < old(self).keys().len(),
        ensures
            final(self).wf(),
            final(self).keys() == old(self).keys().remove(at as int),
            final(self).values() == old(self).values().remove(at as int),
            final(self)@ == old(self)@.remove(old(self).keys()[at as int]),
    {
        let ghost keys0 = self.keys();
        let ghost values0 = self.values();
        let ghost view0 = self@;
        self.keys.remove(at);
        self.values.remove(at);
        proof {
            let keys1 = self.keys();
            let values1 = self.values();
            let gone = keys0[at as int];
            assert(keys1 =~= keys0.remove(at as int));
            assert(values1 =~= values0.remove(at as int));
            assert(distinct(keys1)) by {
                assert forall|a: int, b: int| 0 <= a < b < keys1.len() implies #[trigger] keys1[a]
                    != #[trigger] keys1[b] by {
                    let a0 = if a < at { a } else { a + 1 };
                    let b0 = if b < at { b } else { b + 1 };
                    assert(keys1[a] == keys0[a0] && keys1[b] == keys0[b0]);
                }
            }
            assert forall|k: Seq<char>| keys1.contains(k) <==> (keys0.contains(k) && k
                != gone) by {
                if keys1.contains(k) {
                    let j = choose|j: int| 0 <= j < keys1.len() && keys1[j] == k;
                    let j0 = if j < at { j } else { j + 1 };
                    assert(keys0[j0] == k);
                }
                if keys0.contains(k) && k != gone {
                    let j = choose|j: int| 0 <= j < keys0.len() && keys0[j] == k;
                    let j1 = if j < at { j } else { j - 1 };
                    assert(keys1[j1] == k);
                }
            }
            assert forall|k: Seq<char>| #[trigger] keys1.contains(k) implies paired(
                keys1,
                values1,
            )[k] == view0.remove(gone)[k] by {
                let j = index_of(keys1, k);
                assert(0 <= j < keys1.len() && keys1[j] == k);
                let j0 = if j < at { j } else { j + 1 };
                assert(keys0[j0] == k);
                let i0 = index_of(keys0, k);
                assert(0 <= i0 < keys0.len() && keys0[i0] == k);
                assert(i0 == j0);
            }
            assert(self@ =~= view0.remove(gone));
        }
    }

    /// Removes every entry.
    pub fn clear(&mut self)
        ensures
            final(self).wf(),
            final(self).keys() == Seq::<Seq<char>>::empty(),
            final(self).values() == Seq::<V>::empty(),
            final(self)@ == Map::<Seq<char>, V>::empty(),
    {
        self.keys.clear();
        self.values.clear();
        assert(self.keys() =~= Seq::<Seq<char>>::empty());
        assert(self@ =~= Map::<Seq<char>, V>::empty());
    }
}

} // verus!
