//! A table from names to values, viewed as a map.
use crate::text::str_eq;
use vstd::prelude::*;

verus! {

/// Names and their values at equal positions; no name occurs twice.
pub struct Table<T> {
    names: Vec<String>,
    values: Vec<T>,
}

impl<T> Table<T> {
    pub closed spec fn wf(&self) -> bool {
        &&& self.names.len() == self.values.len()
        &&& forall|i: int, j: int|
            0 <= i < self.names.len() && 0 <= j < self.names.len() && i != j
                ==> #[trigger] self.names@[i]@ != #[trigger] self.names@[j]@
    }

    pub closed spec fn has(&self, k: Seq<char>) -> bool {
        exists|i: int| 0 <= i < self.names.len() && #[trigger] self.names@[i]@ == k
    }

    closed spec fn index_of(&self, k: Seq<char>) -> int {
        choose|i: int| 0 <= i < self.names.len() && #[trigger] self.names@[i]@ == k
    }

    pub closed spec fn map(&self) -> Map<Seq<char>, T> {
        Map::new(|k: Seq<char>| self.has(k), |k: Seq<char>| self.values@[self.index_of(k)])
    }

    proof fn lemma_index(&self, k: Seq<char>, i: int)
        requires
            self.wf(),
            0 <= i < self.names.len(),
            self.names@[i]@ == k,
        ensures
            self.has(k),
            self.index_of(k) == i,
            self.map().contains_key(k),
            self.map()[k] == self.values@[i],
    {
        assert(self.has(k));
    }

    pub fn new() -> (r: Self)
        ensures
            r.wf(),
            r.map() == Map::<Seq<char>, T>::empty(),
    {
        let r = Table { names: Vec::new(), values: Vec::new() };
        assert(r.map() =~= Map::<Seq<char>, T>::empty());
        r
    }

    /// The position of the name, if it is present.
    fn find(&self, k: &str) -> (r: Option<usize>)
        requires
            self.wf(),
        ensures
            r is Some ==> r->Some_0 < self.names.len() && self.names@[r->Some_0 as int]@ == k@,
            r is None ==> !self.has(k@),
    {
        let mut i: usize = 0;
        while i < self.names.len()
            invariant
                self.wf(),
                i <= self.names.len(),
                forall|j: int| 0 <= j < i ==> #[trigger] self.names@[j]@ != k@,
            decreases self.names.len() - i,
        {
            if str_eq(self.names[i].as_str(), k) {
                return Some(i);
            }
            i = i + 1;
        }
        None
    }

    pub fn get(&self, k: &str) -> (r: Option<&T>)
        requires
            self.wf(),
        ensures
            r is Some == self.map().contains_key(k@),
            r is Some ==> *r->Some_0 == self.map()[k@],
    {
        match self.find(k) {
            Some(i) => {
                proof {
                    self.lemma_index(k@, i as int);
                }
                Some(&self.values[i])
            },
            None => None,
        }
    }

    pub fn insert(&mut self, k: String, v: T)
        requires
            old(self).wf(),
        ensures
            final(self).wf(),
            final(self).map() == old(self).map().insert(k@, v),
    {
        let ghost m0 = self.map();
        match self.find(k.as_str()) {
            Some(i) => {
                self.values.set(i, v);
                proof {
                    self.lemma_index(k@, i as int);
                    assert forall|q: Seq<char>| #[trigger] m0.contains_key(q) && q != k@ implies self.map().contains_key(q)
                        && self.map()[q] == m0[q] by {
                        let j = old(self).index_of(q);
                        old(self).lemma_index(q, j);
                        self.lemma_index(q, j);
                    }
                    assert forall|q: Seq<char>| #[trigger] self.map().contains_key(q) implies m0.contains_key(q) by {
                        let j = self.index_of(q);
                        old(self).lemma_index(q, j);
                    }
                    assert(self.map() =~= m0.insert(k@, v));
                }
            },
            None => {
                let ghost n = self.names.len();
                self.names.push(k);
                self.values.push(v);
                proof {
                    self.lemma_index(self.names@[n as int]@, n as int);
                    assert forall|q: Seq<char>| #[trigger] m0.contains_key(q) implies self.map().contains_key(q)
                        && self.map()[q] == m0[q] by {
                        let j = old(self).index_of(q);
                        old(self).lemma_index(q, j);
                        self.lemma_index(q, j);
                    }
                    assert forall|q: Seq<char>| #[trigger] self.map().contains_key(q) && q != self.names@[n as int]@
                        implies m0.contains_key(q) by {
                        let j = self.index_of(q);
                        old(self).lemma_index(q, j);
                    }
                    assert(self.map() =~= m0.insert(self.names@[n as int]@, v));
                }
            },
        }
    }

    pub fn remove(&mut self, k: &str)
        requires
            old(self).wf(),
        ensures
            final(self).wf(),
            final(self).map() == old(self).map().remove(k@),
    {
        let ghost m0 = self.map();
        match self.find(k) {
            Some(i) => {
                let _ = self.names.remove(i);
                let _ = self.values.remove(i);
                proof {
                    assert forall|a: int, b: int|
                        0 <= a < self.names.len() && 0 <= b < self.names.len() && a != b
                            implies #[trigger] self.names@[a]@ != #[trigger] self.names@[b]@ by {
                        let a0 = if a < i { a } else { a + 1 };
                        let b0 = if b < i { b } else { b + 1 };
                        assert(self.names@[a] == old(self).names@[a0]);
                        assert(self.names@[b] == old(self).names@[b0]);
                    }
                    assert forall|q: Seq<char>| #[trigger] m0.contains_key(q) && q != k@ implies self.map().contains_key(q)
                        && self.map()[q] == m0[q] by {
                        let j = old(self).index_of(q);
                        old(self).lemma_index(q, j);
                        let j1 = if j < i { j } else { j - 1 };
                        assert(self.names@[j1] == old(self).names@[j]);
                        self.lemma_index(q, j1);
                    }
                    assert forall|q: Seq<char>| #[trigger] self.map().contains_key(q) implies m0.contains_key(q) && q != k@ by {
                        let j = self.index_of(q);
                        let j0 = if j < i { j } else { j + 1 };
                        assert(self.names@[j] == old(self).names@[j0]);
                        old(self).lemma_index(q, j0);
                    }
                    assert(self.map() =~= m0.remove(k@));
                }
            },
            None => {
                assert(self.map() =~= m0.remove(k@));
            },
        }
    }
}

} // verus!
