use vstd::prelude::*;

verus! {

/// A key of a keyed store: it has a mathematical value, and keys are compared by it.
pub trait StoreKey: View + Sized {
    fn same_key(&self, other: &Self) -> (r: bool)
        ensures
            r == (self@ == other@),
    ;
}

impl StoreKey for String {
    fn same_key(&self, other: &Self) -> (r: bool) {
        *self == *other
    }
}

/// A map from keys to values in which a second insert under a key replaces the
/// first. The entries hold each key at most once.
pub struct KeyedStore<K, V> {
    entries: Vec<(K, V)>,
}

impl<K: StoreKey, V> KeyedStore<K, V> {
    /// No key is held twice.
    pub closed spec fn wf(&self) -> bool {
        forall|i: int, j: int|
            0 <= i < j < self.entries@.len() ==> self.entries@[i].0@ != self.entries@[j].0@
    }

    /// The keys and the value stored under each.
    pub closed spec fn view(&self) -> Map<K::V, V> {
        Map::new(
            |k: K::V| exists|i: int| 0 <= i < self.entries@.len() && self.entries@[i].0@ == k,
            |k: K::V|
                self.entries@[choose|i: int|
                    0 <= i < self.entries@.len() && self.entries@[i].0@ == k].1,
        )
    }

    proof fn lemma_entry(&self, i: int)
        requires
            self.wf(),
            0 <= i < self.entries@.len(),
        ensures
            self.view().contains_key(self.entries@[i].0@),
            self.view()[self.entries@[i].0@] == self.entries@[i].1,
    {
        let k = self.entries@[i].0@;
        assert(self.view().contains_key(k));
        let j = choose|j: int| 0 <= j < self.entries@.len() && self.entries@[j].0@ == k;
        assert(i == j);
    }

    /// An empty store.
    pub fn new() -> (r: Self)
        ensures
            r.wf(),
            r.view() == Map::<K::V, V>::empty(),
    {
        let r = KeyedStore { entries: Vec::new() };
        assert(r.view() =~= Map::<K::V, V>::empty());
        r
    }

    fn find(&self, key: &K) -> (r: Option<usize>)
        requires
            self.wf(),
        ensures
            match r {
                Some(i) => i < self.entries@.len() && self.entries@[i as int].0@ == key@,
                None => !self.view().contains_key(key@),
            },
    {
        let mut i: usize = 0;
        while i < self.entries.len()
            invariant
                0 <= i <= self.entries@.len(),
                forall|j: int| 0 <= j < i ==> self.entries@[j].0@ != key@,
            decreases self.entries@.len() - i,
        {
            if self.entries[i].0.same_key(key) {
                return Some(i);
            }
            i = i + 1;
        }
        None
    }

    /// The value stored under `key`, if any.
    pub fn get(&self, key: &K) -> (r: Option<&V>)
        requires
            self.wf(),
        ensures
            r.is_some() == self.view().contains_key(key@),
            r.is_some() ==> *r.unwrap() == self.view()[key@],
    {
        match self.find(key) {
            Some(i) => {
                proof {
                    self.lemma_entry(i as int);
                }
                Some(&self.entries[i].1)
            },
            None => None,
        }
    }

    /// Stores `value` under `key`, replacing what was stored there before.
    pub fn insert(&mut self, key: K, value: V)
        requires
            old(self).wf(),
        ensures
            final(self).wf(),
            final(self).view() == old(self).view().insert(key@, value),
    {
        let ghost k = key@;
        let ghost before = self.entries@;
        match self.find(&key) {
            Some(i) => {
                self.entries.set(i, (key, value));
                proof {
                    assert(self.entries@ == before.update(i as int, (key, value)));
                    assert forall|a: int, b: int|
                        0 <= a < b < self.entries@.len() implies self.entries@[a].0@
                        != self.entries@[b].0@ by {
                        assert(before[a].0@ != before[b].0@);
                    }
                    self.lemma_entry(i as int);
                    assert forall|q: K::V| #[trigger] old(self).view().insert(k, value).contains_key(q)
                        implies self.view().contains_key(q) && self.view()[q] == old(
                        self,
                    ).view().insert(k, value)[q] by {
                        if q != k {
                            let j = choose|j: int| 0 <= j < before.len() && before[j].0@ == q;
                            old(self).lemma_entry(j);
                            self.lemma_entry(j);
                        }
                    }
                    assert forall|q: K::V| self.view().contains_key(q) implies old(
                        self,
                    ).view().insert(k, value).contains_key(q) by {
                        let j = choose|j: int| 0 <= j < self.entries@.len() && self.entries@[j].0@ == q;
                        if j != i {
                            old(self).lemma_entry(j);
                        }
                    }
                    assert(self.view() =~= old(self).view().insert(k, value));
                }
            },
            None => {
                self.entries.push((key, value));
                proof {
                    let n = before.len() as int;
                    assert forall|a: int, b: int|
                        0 <= a < b < self.entries@.len() implies self.entries@[a].0@
                        != self.entries@[b].0@ by {
                        if b == n {
                            assert(!old(self).view().contains_key(k));
                            if self.entries@[a].0@ == k {
                                assert(before[a].0@ == k);
                            }
                        }
                    }
                    self.lemma_entry(n);
                    assert forall|q: K::V| #[trigger] old(self).view().insert(k, value).contains_key(q)
                        implies self.view().contains_key(q) && self.view()[q] == old(
                        self,
                    ).view().insert(k, value)[q] by {
                        if q != k {
                            let j = choose|j: int| 0 <= j < before.len() && before[j].0@ == q;
                            old(self).lemma_entry(j);
                            assert(self.entries@[j] == before[j]);
                            self.lemma_entry(j);
                        }
                    }
                    assert forall|q: K::V| self.view().contains_key(q) implies old(
                        self,
                    ).view().insert(k, value).contains_key(q) by {
                        let j = choose|j: int| 0 <= j < self.entries@.len() && self.entries@[j].0@ == q;
                        if j != n {
                            assert(self.entries@[j] == before[j]);
                        }
                    }
                    assert(self.view() =~= old(self).view().insert(k, value));
                }
            },
        }
    }

    /// The number of keys stored.
    pub fn len(&self) -> (r: usize)
        requires
            self.wf(),
        ensures
            r == self.view().len(),
    {
        proof {
            self.lemma_len();
        }
        self.entries.len()
    }

    proof fn lemma_len(&self)
        requires
            self.wf(),
        ensures
            self.view().dom().finite(),
            self.view().len() == self.entries@.len(),
    {
        let keys = self.entries@.map_values(|e: (K, V)| e.0@);
        assert(self.view().dom() =~= keys.to_set()) by {
            assert forall|q: K::V| self.view().dom().contains(q) implies keys.to_set().contains(q) by {
                let j = choose|j: int| 0 <= j < self.entries@.len() && self.entries@[j].0@ == q;
                assert(keys[j] == q);
            }
            assert forall|q: K::V| keys.to_set().contains(q) implies self.view().dom().contains(q) by {
                let j = choose|j: int| 0 <= j < keys.len() && keys[j] == q;
                assert(self.entries@[j].0@ == q);
            }
        }
        assert(keys.no_duplicates());
        keys.unique_seq_to_set();
    }
}

} // verus!
