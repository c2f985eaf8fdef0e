//! A small map keyed by strings, kept as parallel vectors with distinct keys.

use vstd::prelude::*;
use crate::text::{str_eq, views};

verus! {

/// A finite map from strings to values.
pub struct StrMap<V> {
    keys: Vec<String>,
    vals: Vec<V>,
}

impl<V> StrMap<V> {
    spec fn key_at(&self, i: int) -> Seq<char> {
        self.keys@[i]@
    }

    spec fn holds(&self, k: Seq<char>) -> bool {
        exists|i: int| 0 <= i < self.keys@.len() && #[trigger] self.key_at(i) == k
    }

    spec fn index_of(&self, k: Seq<char>) -> int {
        choose|i: int| 0 <= i < self.keys@.len() && #[trigger] self.key_at(i) == k
    }

    /// Keys and values are paired and no key occurs twice.
    pub closed spec fn wf(&self) -> bool {
        &&& self.keys@.len() == self.vals@.len()
        &&& forall|i: int, j: int|
            0 <= i < j < self.keys@.len() ==> #[trigger] self.key_at(i) != #[trigger] self.key_at(
                j,
            )
    }

    /// The map this structure stands for.
    pub closed spec fn view(&self) -> Map<Seq<char>, V> {
        Map::new(|k: Seq<char>| self.holds(k), |k: Seq<char>| self.vals@[self.index_of(k)])
    }

    proof fn lemma_index(&self, i: int)
        requires
            self.wf(),
            0 <= i < self.keys@.len(),
        ensures
            self.holds(self.key_at(i)),
            self.index_of(self.key_at(i)) == i,
            self@.contains_key(self.key_at(i)),
            self@[self.key_at(i)] == self.vals@[i],
    {
        let k = self.key_at(i);
        let j = self.index_of(k);
        assert(0 <= j < self.keys@.len() && self.key_at(j) == k);
        if j < i {
            assert(self.key_at(j) != self.key_at(i));
        }
        if i < j {
            assert(self.key_at(i) != self.key_at(j));
        }
    }

    /// The empty map.
    pub fn new() -> (r: Self)
        ensures
            r.wf(),
            r@ == Map::<Seq<char>, V>::empty(),
    {
        let r = StrMap { keys: Vec::new(), vals: Vec::new() };
        assert(r@ =~= Map::<Seq<char>, V>::empty());
        r
    }

    fn find(&self, key: &str) -> (r: Option<usize>)
        requires
            self.wf(),
        ensures
            match r {
                Some(i) => i < self.keys@.len() && self.key_at(i as int) == key@
                    && self@.contains_key(key@) && self@[key@] == self.vals@[i as int],
                None => !self@.contains_key(key@) && !self.holds(key@),
            },
    {
        let mut i: usize = 0;
        while i < self.keys.len()
            invariant
                self.wf(),
                i <= self.keys@.len(),
                forall|j: int| 0 <= j < i ==> #[trigger] self.key_at(j) != key@,
            decreases self.keys@.len() - i,
        {
            if str_eq(self.keys[i].as_str(), key) {
                proof {
                    self.lemma_index(i as int);
                }
                return Some(i);
            }
            i += 1;
        }
        None
    }

    /// Whether `key` has a value.
    pub fn contains_key(&self, key: &str) -> (r: bool)
        requires
            self.wf(),
        ensures
            r == self@.contains_key(key@),
    {
        self.find(key).is_some()
    }

    /// The value stored for `key`, if any.
    pub fn get(&self, key: &str) -> (r: Option<&V>)
        requires
            self.wf(),
        ensures
            r == if self@.contains_key(key@) {
                Some(&self@[key@])
            } else {
                None
            },
    {
        match self.find(key) {
            Some(i) => Some(&self.vals[i]),
            None => None,
        }
    }

    /// Stores `value` for `key`, replacing any earlier value.
    pub fn insert(&mut self, key: String, value: V)
        requires
            old(self).wf(),
        ensures
            final(self).wf(),
            final(self)@ == old(self)@.insert(key@, value),
    {
        match self.find(key.as_str()) {
            Some(i) => {
                self.vals.set(i, value);
                proof {
                    assert forall|a: int, b: int| 0 <= a < b < self.keys@.len() implies self.key_at(
                        a,
                    ) != self.key_at(b) by {
                        assert(old(self).key_at(a) != old(self).key_at(b));
                    }
                    assert forall|k: Seq<char>| self.holds(k) == old(self).holds(k) by {
                        if self.holds(k) {
                            let j = self.index_of(k);
                            assert(old(self).key_at(j) == k);
                        }
                        if old(self).holds(k) {
                            let j = old(self).index_of(k);
                            assert(self.key_at(j) == k);
                        }
                    }
                    assert forall|k: Seq<char>| self.holds(k) implies self.vals@[self.index_of(k)]
                        == old(self)@.insert(key@, value)[k] by {
                        let j = self.index_of(k);
                        assert(self.key_at(j) == k);
                        assert(old(self).key_at(j) == k);
                        self.lemma_index(j);
                        old(self).lemma_index(j);
                        if k == key@ {
                            self.lemma_index(i as int);
                        }
                    }
                    assert(self@ =~= old(self)@.insert(key@, value));
                }
            },
            None => {
                let ghost n = self.keys@.len() as int;
                self.keys.push(key);
                self.vals.push(value);
                proof {
                    assert forall|i: int, j: int| 0 <= i < j < self.keys@.len() implies self.key_at(
                        i,
                    ) != self.key_at(j) by {
                        assert(self.key_at(i) == old(self).key_at(i));
                        if j < n {
                            assert(self.key_at(j) == old(self).key_at(j));
                        }
                    }
                    assert(self.key_at(n) == key@);
                    assert forall|k: Seq<char>| self.holds(k) == (old(self).holds(k) || k == key@) by {
                        if self.holds(k) {
                            let j = self.index_of(k);
                            if j < n {
                                assert(old(self).key_at(j) == k);
                            }
                        }
                        if old(self).holds(k) {
                            let j = old(self).index_of(k);
                            assert(self.key_at(j) == k);
                        }
                    }
                    assert forall|k: Seq<char>| self.holds(k) implies self.vals@[self.index_of(k)]
                        == old(self)@.insert(key@, value)[k] by {
                        let j = self.index_of(k);
                        assert(self.key_at(j) == k);
                        self.lemma_index(j);
                        if j < n {
                            assert(old(self).key_at(j) == k);
                            old(self).lemma_index(j);
                        }
                    }
                    assert(self@ =~= old(self)@.insert(key@, value));
                }
            },
        }
    }

    /// Drops the value stored for `key`, if any.
    pub fn remove(&mut self, key: &str)
        requires
            old(self).wf(),
        ensures
            final(self).wf(),
            final(self)@ == old(self)@.remove(key@),
    {
        match self.find(key) {
            Some(i) => {
                self.keys.remove(i);
                self.vals.remove(i);
                proof {
                    let shift = |j: int| if j < i { j } else { j + 1 };
                    assert forall|j: int| 0 <= j < self.keys@.len() implies self.key_at(j) == old(
                        self,
                    ).key_at(shift(j)) && self.vals@[j] == old(self).vals@[shift(j)] by {}
                    assert forall|a: int, b: int| 0 <= a < b < self.keys@.len() implies self.key_at(
                        a,
                    ) != self.key_at(b) by {
                        assert(old(self).key_at(shift(a)) != old(self).key_at(shift(b)));
                    }
                    assert forall|k: Seq<char>| self.holds(k) == (old(self).holds(k) && k != key@) by {
                        if self.holds(k) {
                            let j = self.index_of(k);
                            assert(old(self).key_at(shift(j)) == k);
                            if shift(j) < i {
                                assert(old(self).key_at(shift(j)) != old(self).key_at(i as int));
                            } else {
                                assert(old(self).key_at(i as int) != old(self).key_at(shift(j)));
                            }
                        }
                        if old(self).holds(k) && k != key@ {
                            let j = old(self).index_of(k);
                            let t = if j < i { j } else { j - 1 };
                            assert(self.key_at(t) == old(self).key_at(shift(t)));
                        }
                    }
                    assert forall|k: Seq<char>| self.holds(k) implies self.vals@[self.index_of(k)]
                        == old(self)@[k] by {
                        let j = self.index_of(k);
                        assert(self.key_at(j) == k);
                        assert(old(self).key_at(shift(j)) == k);
                        old(self).lemma_index(shift(j));
                    }
                    assert(self@ =~= old(self)@.remove(key@));
                }
            },
            None => {
                proof {
                    assert(self@ =~= old(self)@.remove(key@));
                }
            },
        }
    }

    /// Whether the map holds no entry.
    pub fn is_empty(&self) -> (r: bool)
        requires
            self.wf(),
        ensures
            r == (self@.dom() =~= Set::<Seq<char>>::empty()),
    {
        proof {
            if self.keys@.len() > 0 {
                self.lemma_index(0);
            } else {
                assert forall|k: Seq<char>| !self@.dom().contains(k) by {
                    if self.holds(k) {
                        let j = self.index_of(k);
                        assert(self.key_at(j) == k);
                    }
                }
            }
        }
        self.keys.len() == 0
    }

    /// The keys as a sequence, in the order in which they were first stored.
    pub closed spec fn key_seq(&self) -> Seq<Seq<char>> {
        self.keys@.map_values(|s: String| s@)
    }

    /// `key_seq` lists every key of the map exactly once.
    pub proof fn lemma_key_seq(&self)
        requires
            self.wf(),
        ensures
            self.key_seq().no_duplicates(),
            self.key_seq().to_set() == self@.dom(),
            self@.dom().finite(),
            self@.dom().len() == self.key_seq().len(),
    {
        let ks = self.key_seq();
        assert forall|i: int, j: int| 0 <= i < ks.len() && 0 <= j < ks.len() && i != j implies ks[i]
            != ks[j] by {
            assert(ks[i] == self.key_at(i));
            assert(ks[j] == self.key_at(j));
            if i < j {
                assert(self.key_at(i) != self.key_at(j));
            } else {
                assert(self.key_at(j) != self.key_at(i));
            }
        }
        assert forall|k: Seq<char>| ks.to_set().contains(k) == self@.dom().contains(k) by {
            if ks.to_set().contains(k) {
                let i = choose|i: int| 0 <= i < ks.len() && ks[i] == k;
                assert(self.key_at(i) == k);
            }
            if self.holds(k) {
                let j = self.index_of(k);
                assert(ks[j] == k);
            }
        }
        assert(ks.to_set() =~= self@.dom());
        ks.unique_seq_to_set();
        vstd::seq_lib::seq_to_set_is_finite(ks);
    }

    /// The number of entries.
    pub fn len(&self) -> (r: usize)
        requires
            self.wf(),
        ensures
            self@.dom().finite(),
            r == self@.dom().len(),
    {
        proof {
            self.lemma_key_seq();
        }
        self.keys.len()
    }

    /// The keys, each once, in the order in which they were first stored.
    pub fn keys(&self) -> (r: Vec<String>)
        requires
            self.wf(),
        ensures
            r@.map_values(|s: String| s@) == self.key_seq(),
    {
        let mut out: Vec<String> = Vec::new();
        let mut i: usize = 0;
        while i < self.keys.len()
            invariant
                i <= self.keys@.len(),
                out@.len() == i,
                forall|j: int| 0 <= j < i ==> out@[j]@ == self.keys@[j]@,
            decreases self.keys@.len() - i,
        {
            out.push(self.keys[i].clone());
            i += 1;
        }
        assert(out@.map_values(|s: String| s@) =~= self.key_seq());
        out
    }

    /// Drops every entry.
    pub fn clear(&mut self)
        ensures
            final(self).wf(),
            final(self)@ == Map::<Seq<char>, V>::empty(),
    {
        self.keys.clear();
        self.vals.clear();
        assert(self@ =~= Map::<Seq<char>, V>::empty());
    }
}

impl StrMap<Vec<String>> {
    /// The list stored for `key`, empty where there is none.
    pub open spec fn list(&self, key: Seq<char>) -> Seq<Seq<char>> {
        if self@.contains_key(key) {
            views(self@[key]@)
        } else {
            Seq::empty()
        }
    }

    /// Appends `item` to the list stored for `key`, starting a list where
    /// there is none.
    pub fn append_to(&mut self, key: &str, item: String)
        requires
            old(self).wf(),
        ensures
            final(self).wf(),
            final(self)@.dom() == old(self)@.dom().insert(key@),
            final(self).list(key@) == old(self).list(key@).push(item@),
            forall|k: Seq<char>| k != key@ ==> final(self).list(k) == old(self).list(k),
    {
        match self.find(key) {
            Some(i) => {
                self.vals[i].push(item);
                proof {
                    assert forall|j: int| 0 <= j < self.keys@.len() implies self.key_at(j) == old(
                        self,
                    ).key_at(j) by {}
                    assert forall|a: int, b: int| 0 <= a < b < self.keys@.len() implies self.key_at(
                        a,
                    ) != self.key_at(b) by {
                        assert(old(self).key_at(a) != old(self).key_at(b));
                    }
                    assert forall|k: Seq<char>| self.holds(k) == old(self).holds(k) by {
                        if self.holds(k) {
                            let j = self.index_of(k);
                            assert(old(self).key_at(j) == k);
                        }
                        if old(self).holds(k) {
                            let j = old(self).index_of(k);
                            assert(self.key_at(j) == k);
                        }
                    }
                    assert(self@.dom() =~= old(self)@.dom().insert(key@));
                    self.lemma_index(i as int);
                    old(self).lemma_index(i as int);
                    assert(views(self.vals@[i as int]@) =~= views(old(self).vals@[i as int]@).push(
                        item@,
                    ));
                    assert forall|k: Seq<char>| k != key@ implies self.list(k) == old(self).list(
                        k,
                    ) by {
                        if self.holds(k) {
                            let j = self.index_of(k);
                            assert(self.key_at(j) == k);
                            self.lemma_index(j);
                            old(self).lemma_index(j);
                        }
                    }
                }
            },
            None => {
                let mut fresh: Vec<String> = Vec::new();
                fresh.push(item);
                assert(views(fresh@) =~= Seq::<Seq<char>>::empty().push(item@));
                self.insert(String::from_str(key), fresh);
                assert(self@.dom() =~= old(self)@.dom().insert(key@));
            },
        }
    }
}

} // verus!
