use vstd::prelude::*;

use crate::bus_puzzle::components::GridPos;

verus! {

/// A map keyed by grid position, kept as a list of entries with distinct keys.
#[derive(Debug)]
pub struct PosMap<V> {
    pub entries: Vec<(GridPos, V)>,
}

impl<V: Copy> PosMap<V> {
    /// The entries have distinct keys.
    pub open spec fn well_formed(&self) -> bool {
        forall|i: int, j: int|
            0 <= i < j < self.entries@.len() ==> #[trigger] self.entries@[i].0
                != #[trigger] self.entries@[j].0
    }

    pub open spec fn has_key(&self, k: GridPos) -> bool {
        exists|i: int| 0 <= i < self.entries@.len() && #[trigger] self.entries@[i].0 == k
    }

    pub open spec fn index_of(&self, k: GridPos) -> int {
        choose|i: int| 0 <= i < self.entries@.len() && #[trigger] self.entries@[i].0 == k
    }

    /// The map the entries stand for.
    pub open spec fn view(&self) -> Map<GridPos, V> {
        Map::new(|k: GridPos| self.has_key(k), |k: GridPos| self.entries@[self.index_of(k)].1)
    }

    pub proof fn lemma_index(&self, i: int)
        requires
            self.well_formed(),
            0 <= i < self.entries@.len(),
        ensures
            self.has_key(self.entries@[i].0),
            self.index_of(self.entries@[i].0) == i,
            self.view().contains_key(self.entries@[i].0),
            self.view()[self.entries@[i].0] == self.entries@[i].1,
    {
        let k = self.entries@[i].0;
        assert(self.has_key(k));
        let e = self.index_of(k);
        if e < i {
            assert(self.entries@[e].0 != self.entries@[i].0);
        } else if e > i {
            assert(self.entries@[i].0 != self.entries@[e].0);
        }
    }

    /// An empty map.
    pub fn new() -> (m: PosMap<V>)
        ensures
            m.well_formed(),
            m.view() == Map::<GridPos, V>::empty(),
    {
        let m = PosMap { entries: Vec::new() };
        assert(m.view() =~= Map::<GridPos, V>::empty());
        m
    }

    fn find(&self, k: GridPos) -> (r: Option<usize>)
        requires
            self.well_formed(),
        ensures
            r is None <==> !self.has_key(k),
            r matches Some(i) ==> i < self.entries@.len() && self.entries@[i as int].0 == k,
    {
        let mut i: usize = 0;
        while i < self.entries.len()
            invariant
                i <= self.entries@.len(),
                forall|j: int| 0 <= j < i ==> self.entries@[j].0 != k,
            decreases self.entries.len() - i,
        {
            if self.entries[i].0 == k {
                return Some(i);
            }
            i = i + 1;
        }
        None
    }

    /// The value stored for `k`, if any.
    pub fn get(&self, k: GridPos) -> (r: Option<V>)
        requires
            self.well_formed(),
        ensures
            r is Some <==> self.view().contains_key(k),
            r matches Some(v) ==> v == self.view()[k],
    {
        match self.find(k) {
            Some(i) => {
                proof {
                    self.lemma_index(i as int);
                }
                Some(self.entries[i].1)
            },
            None => None,
        }
    }

    /// Whether `k` has a value.
    pub fn contains_key(&self, k: GridPos) -> (r: bool)
        requires
            self.well_formed(),
        ensures
            r == self.view().contains_key(k),
    {
        self.find(k).is_some()
    }

    /// The keys of the entries, in order.
    pub open spec fn keys(&self) -> Seq<GridPos> {
        self.entries@.map_values(|e: (GridPos, V)| e.0)
    }

    /// The map has as many keys as entries.
    pub proof fn lemma_len(&self)
        requires
            self.well_formed(),
        ensures
            self.view().dom().len() == self.entries@.len(),
            self.view().dom().finite(),
    {
        let ks = self.keys();
        assert(ks.no_duplicates()) by {
            assert forall|i: int, j: int| 0 <= i < ks.len() && 0 <= j < ks.len() && i != j implies ks[i] != ks[j] by {
                if i < j {
                    assert(self.entries@[i].0 != self.entries@[j].0);
                } else {
                    assert(self.entries@[j].0 != self.entries@[i].0);
                }
            }
        }
        ks.unique_seq_to_set();
        assert forall|k: GridPos| #[trigger] self.view().dom().contains(k) == ks.to_set().contains(k) by {
            if self.has_key(k) {
                let i = self.index_of(k);
                assert(ks[i] == k);
            }
            if ks.to_set().contains(k) {
                let i = choose|i: int| 0 <= i < ks.len() && ks[i] == k;
                assert(self.entries@[i].0 == k);
            }
        }
        assert(self.view().dom() =~= ks.to_set());
        vstd::seq_lib::seq_to_set_is_finite(ks);
    }

    /// The number of stored keys.
    pub fn len(&self) -> (r: usize)
        requires
            self.well_formed(),
        ensures
            r == self.view().dom().len(),
    {
        proof {
            self.lemma_len();
        }
        self.entries.len()
    }

    /// Removes every entry.
    pub fn clear(&mut self)
        ensures
            final(self).well_formed(),
            final(self).view() == Map::<GridPos, V>::empty(),
            final(self).entries@.len() == 0,
    {
        self.entries.clear();
        assert(self.view() =~= Map::<GridPos, V>::empty());
    }

    /// Removes the value stored for `k` and returns it.
    pub fn remove(&mut self, k: GridPos) -> (r: Option<V>)
        requires
            old(self).well_formed(),
        ensures
            final(self).well_formed(),
            final(self).view() == old(self).view().remove(k),
            r is Some <==> old(self).view().contains_key(k),
            r matches Some(v) ==> v == old(self).view()[k] && final(self).entries@ == old(self).entries@.remove(
                old(self).index_of(k),
            ),
            r is None ==> final(self).entries@ == old(self).entries@,
    {
        match self.find(k) {
            Some(i) => {
                proof {
                    self.lemma_index(i as int);
                }
                let ghost before = self.entries@;
                let e = self.entries.remove(i);
                proof {
                    assert forall|a: int, b: int|
                        0 <= a < b < self.entries@.len() implies #[trigger] self.entries@[a].0
                        != #[trigger] self.entries@[b].0 by {
                        let a2 = if a < i { a } else { a + 1 };
                        let b2 = if b < i { b } else { b + 1 };
                        assert(before[a2].0 != before[b2].0);
                    }
                    assert forall|key: GridPos|
                        #![trigger self.view().contains_key(key)]
                        self.view().contains_key(key) == old(self).view().remove(k).contains_key(key)
                        && (self.view().contains_key(key) ==> self.view()[key] == old(self).view().remove(
                        k,
                    )[key]) by {
                        if self.has_key(key) {
                            let j = self.index_of(key);
                            self.lemma_index(j);
                            let j2 = if j < i { j } else { j + 1 };
                            assert(before[j2] == self.entries@[j]);
                            old(self).lemma_index(j2);
                        }
                        if old(self).has_key(key) && key != k {
                            let j = old(self).index_of(key);
                            old(self).lemma_index(j);
                            assert(j != i);
                            let j2 = if j < i { j } else { j - 1 };
                            assert(self.entries@[j2] == before[j]);
                            self.lemma_index(j2);
                        }
                    }
                    assert(self.view() =~= old(self).view().remove(k));
                }
                Some(e.1)
            },
            None => {
                assert(old(self).view().remove(k) =~= old(self).view());
                None
            },
        }
    }

    /// Stores `v` for `k`, replacing any earlier value.
    pub fn insert(&mut self, k: GridPos, v: V)
        requires
            old(self).well_formed(),
        ensures
            final(self).well_formed(),
            final(self).view() == old(self).view().insert(k, v),
            !old(self).view().contains_key(k) ==> final(self).entries@ == old(self).entries@.push((k, v)),
            old(self).view().contains_key(k) ==> final(self).entries@ == old(self).entries@.update(
                old(self).index_of(k),
                (k, v),
            ),
    {
        let ghost old_map = self.view();
        match self.find(k) {
            Some(i) => {
                proof {
                    self.lemma_index(i as int);
                }
                self.entries.set(i, (k, v));
                proof {
                    assert forall|a: int, b: int|
                        0 <= a < b < self.entries@.len() implies #[trigger] self.entries@[a].0
                        != #[trigger] self.entries@[b].0 by {
                        assert(old(self).entries@[a].0 != old(self).entries@[b].0);
                    }
                    assert forall|key: GridPos|
                        #![trigger self.view().contains_key(key)]
                        self.view().contains_key(key) == old_map.insert(k, v).contains_key(key)
                        && (self.view().contains_key(key) ==> self.view()[key] == old_map.insert(
                        k,
                        v,
                    )[key]) by {
                        if self.has_key(key) {
                            let j = self.index_of(key);
                            self.lemma_index(j);
                            old(self).lemma_index(j);
                        }
                        if old(self).has_key(key) {
                            let j = old(self).index_of(key);
                            old(self).lemma_index(j);
                            self.lemma_index(j);
                        }
                        if key == k {
                            self.lemma_index(i as int);
                        }
                    }
                    assert(self.view() =~= old_map.insert(k, v));
                }
            },
            None => {
                self.entries.push((k, v));
                proof {
                    let n = old(self).entries@.len() as int;
                    assert forall|a: int, b: int|
                        0 <= a < b < self.entries@.len() implies #[trigger] self.entries@[a].0
                        != #[trigger] self.entries@[b].0 by {
                        if b == n {
                            assert(old(self).entries@[a].0 != k);
                        } else {
                            assert(old(self).entries@[a].0 != old(self).entries@[b].0);
                        }
                    }
                    assert forall|key: GridPos|
                        #![trigger self.view().contains_key(key)]
                        self.view().contains_key(key) == old_map.insert(k, v).contains_key(key)
                        && (self.view().contains_key(key) ==> self.view()[key] == old_map.insert(
                        k,
                        v,
                    )[key]) by {
                        if self.has_key(key) {
                            let j = self.index_of(key);
                            self.lemma_index(j);
                            if j < n {
                                old(self).lemma_index(j);
                            }
                        }
                        if old(self).has_key(key) {
                            let j = old(self).index_of(key);
                            old(self).lemma_index(j);
                            self.lemma_index(j);
                        }
                        if key == k {
                            self.lemma_index(n);
                        }
                    }
                    assert(self.view() =~= old_map.insert(k, v));
                }
            },
        }
    }
}

} // verus!
