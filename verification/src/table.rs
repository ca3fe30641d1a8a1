//! A small keyed table: the in-memory shape behind the engine's guarded
//! maps.  Keys are strings, the view is a mathematical map, and the keys of
//! the underlying entry list stay unique.

use vstd::prelude::*;

verus! {

/// An association list with unique keys, seen as a `Map` in contracts.
pub struct Table<V> {
    entries: Vec<(String, V)>,
}

impl<V> Table<V> {
    pub closed spec fn key_at(&self, k: int) -> Seq<char> {
        self.entries@[k].0@
    }

    /// The keys of the entry list never repeat.
    pub closed spec fn wf(&self) -> bool {
        forall|i: int, j: int|
            0 <= i < j < self.entries@.len() ==> self.key_at(i) != self.key_at(j)
    }

    pub closed spec fn spec_contains(&self, id: Seq<char>) -> bool {
        exists|k: int| 0 <= k < self.entries@.len() && self.key_at(k) == id
    }

    pub closed spec fn value_at(&self, id: Seq<char>) -> V {
        let k = choose|k: int| 0 <= k < self.entries@.len() && self.key_at(k) == id;
        self.entries@[k].1
    }

    pub closed spec fn view(&self) -> Map<Seq<char>, V> {
        Map::new(|id: Seq<char>| self.spec_contains(id), |id: Seq<char>| self.value_at(id))
    }

    pub fn new() -> (t: Table<V>)
        ensures
            t.wf(),
            t@ == Map::<Seq<char>, V>::empty(),
    {
        let t = Table { entries: Vec::new() };
        proof {
            assert(t@ =~= Map::<Seq<char>, V>::empty());
        }
        t
    }

    fn find_index(&self, id: &String) -> (r: Option<usize>)
        ensures
            match r {
                Some(k) => k < self.entries@.len() && self.key_at(k as int) == id@,
                None => !self@.contains_key(id@),
            },
    {
        let n = self.entries.len();
        let mut k: usize = 0;
        while k < n
            invariant
                n == self.entries@.len(),
                k <= n,
                forall|t: int| 0 <= t < k ==> self.key_at(t) != id@,
            decreases n - k,
        {
            if self.entries[k].0 == *id {
                return Some(k);
            }
            k = k + 1;
        }
        None
    }

    /// Whether a value is stored under this key.
    pub fn contains(&self, id: &String) -> (r: bool)
        ensures
            r == self@.contains_key(id@),
    {
        match self.find_index(id) {
            Some(_) => true,
            None => false,
        }
    }

    /// The value stored under this key, if any.
    pub fn get(&self, id: &String) -> (r: Option<&V>)
        requires
            self.wf(),
        ensures
            match r {
                Some(v) => self@.contains_key(id@) && *v == self@[id@],
                None => !self@.contains_key(id@),
            },
    {
        match self.find_index(id) {
            Some(k) => {
                proof {
                    let w = choose|w: int|
                        0 <= w < self.entries@.len() && self.key_at(w) == id@;
                    assert(w == k);
                }
                Some(&self.entries[k].1)
            },
            None => None,
        }
    }

    /// Store a value under a key that is not yet present.
    pub fn insert(&mut self, id: String, v: V)
        requires
            old(self).wf(),
            !old(self)@.contains_key(id@),
        ensures
            final(self).wf(),
            final(self)@ == old(self)@.insert(id@, v),
    {
        self.entries.push((id, v));
        proof {
            let n = self.entries@.len() - 1;
            assert(forall|t: int| 0 <= t < n ==> self.key_at(t) == old(self).key_at(t));
            assert forall|i: int, j: int|
                0 <= i < j < self.entries@.len() implies self.key_at(i) != self.key_at(j) by {
                if j < n {
                    assert(old(self).key_at(i) != old(self).key_at(j));
                } else {
                    assert(!old(self).spec_contains(self.key_at(n)));
                }
            }
            assert forall|q: Seq<char>|
                self.spec_contains(q) == (old(self).spec_contains(q) || q == self.key_at(n)) by {
                if old(self).spec_contains(q) {
                    let w = choose|w: int|
                        0 <= w < old(self).entries@.len() && old(self).key_at(w) == q;
                    assert(self.key_at(w) == q);
                }
                if self.spec_contains(q) {
                    let w = choose|w: int|
                        0 <= w < self.entries@.len() && self.key_at(w) == q;
                    if w < n {
                        assert(old(self).key_at(w) == q);
                    }
                }
            }
            assert forall|q: Seq<char>| #[trigger] self.spec_contains(q) implies
                self.value_at(q) == if q == self.key_at(n) { v } else { old(self).value_at(q) } by {
                let w = choose|w: int| 0 <= w < self.entries@.len() && self.key_at(w) == q;
                if q == self.key_at(n) {
                    assert(w == n);
                } else {
                    assert(w < n);
                    assert(old(self).spec_contains(q));
                    let w0 = choose|w0: int|
                        0 <= w0 < old(self).entries@.len() && old(self).key_at(w0) == q;
                    assert(w0 == w);
                }
            }
            assert(self@ =~= old(self)@.insert(id@, v));
        }
    }

    /// Replace the value under a key that is already present.
    pub fn set(&mut self, id: &String, v: V)
        requires
            old(self).wf(),
            old(self)@.contains_key(id@),
        ensures
            final(self).wf(),
            final(self)@ == old(self)@.insert(id@, v),
    {
        let k = match self.find_index(id) {
            Some(k) => k,
            None => {
                proof {
                    assert(false);
                }
                0
            },
        };
        let ghost n = self.entries@.len();
        self.entries[k].1 = v;
        proof {
            assert(forall|t: int| 0 <= t < n ==> self.key_at(t) == old(self).key_at(t));
            assert forall|q: Seq<char>|
                self.spec_contains(q) == old(self).spec_contains(q) by {
                if old(self).spec_contains(q) {
                    let w = choose|w: int| 0 <= w < n && old(self).key_at(w) == q;
                    assert(self.key_at(w) == q);
                }
                if self.spec_contains(q) {
                    let w = choose|w: int| 0 <= w < n && self.key_at(w) == q;
                    assert(old(self).key_at(w) == q);
                }
            }
            assert forall|q: Seq<char>| #[trigger] self.spec_contains(q) implies
                self.value_at(q) == if q == id@ { v } else { old(self).value_at(q) } by {
                let w = choose|w: int| 0 <= w < n && self.key_at(w) == q;
                if q == id@ {
                    assert(w == k);
                } else {
                    let w0 = choose|w0: int| 0 <= w0 < n && old(self).key_at(w0) == q;
                    assert(w0 == w);
                    assert(w != k);
                }
            }
            assert(self@ =~= old(self)@.insert(id@, v));
        }
    }

    /// Drop the value under a key; absent keys are left alone.
    pub fn remove(&mut self, id: &String)
        requires
            old(self).wf(),
        ensures
            final(self).wf(),
            final(self)@ == old(self)@.remove(id@),
    {
        match self.find_index(id) {
            Some(k) => {
                let ghost n = self.entries@.len();
                self.entries.remove(k);
                proof {
                    assert forall|i: int, j: int|
                        0 <= i < j < self.entries@.len() implies self.key_at(i) != self.key_at(
                        j,
                    ) by {
                        let i0 = if i < k { i } else { i + 1 };
                        let j0 = if j < k { j } else { j + 1 };
                        assert(old(self).key_at(i0) != old(self).key_at(j0));
                    }
                    assert forall|q: Seq<char>|
                        self.spec_contains(q) == (old(self).spec_contains(q) && q != id@) by {
                        if self.spec_contains(q) {
                            let w = choose|w: int|
                                0 <= w < self.entries@.len() && self.key_at(w) == q;
                            let w0 = if w < k { w } else { w + 1 };
                            assert(old(self).key_at(w0) == q);
                            assert(w0 != k);
                        }
                        if old(self).spec_contains(q) && q != id@ {
                            let w0 = choose|w0: int| 0 <= w0 < n && old(self).key_at(w0) == q;
                            assert(w0 != k);
                            let w = if w0 < k { w0 } else { w0 - 1 };
                            assert(self.key_at(w) == q);
                        }
                    }
                    assert forall|q: Seq<char>| #[trigger] self.spec_contains(q) implies
                        self.value_at(q) == old(self).value_at(q) by {
                        let w = choose|w: int|
                            0 <= w < self.entries@.len() && self.key_at(w) == q;
                        let w0 = if w < k { w } else { w + 1 };
                        assert(old(self).key_at(w0) == q);
                        let wc = choose|wc: int| 0 <= wc < n && old(self).key_at(wc) == q;
                        assert(wc == w0);
                    }
                    assert(self@ =~= old(self)@.remove(id@));
                }
            },
            None => {
                proof {
                    assert(self@ =~= old(self)@.remove(id@));
                }
            },
        }
    }
}

} // verus!
