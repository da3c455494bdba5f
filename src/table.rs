use vstd::prelude::*;

verus! {

/// A table keyed by strings, at most one value per key, in insertion order.
pub struct KeyedTable<V> {
    entries: Vec<(String, V)>,
}

impl<V> KeyedTable<V> {
    pub closed spec fn wf(&self) -> bool {
        forall|i: int, j: int|
            0 <= i < j < self.entries@.len() ==> #[trigger] self.entries@[i].0@
                != #[trigger] self.entries@[j].0@
    }

    /// The keys with their values.
    pub closed spec fn view(&self) -> Map<Seq<char>, V> {
        Map::new(
            |d: Seq<char>| exists|i: int| 0 <= i < self.entries@.len() && self.entries@[i].0@ == d,
            |d: Seq<char>|
                self.entries@[choose|i: int| 0 <= i < self.entries@.len() && self.entries@[i].0@ == d].1,
        )
    }

    pub fn new() -> (r: KeyedTable<V>)
        ensures
            r.wf(),
            r.view() == Map::<Seq<char>, V>::empty(),
    {
        let r = KeyedTable { entries: Vec::new() };
        assert(r.view() =~= Map::<Seq<char>, V>::empty());
        r
    }

    proof fn lemma_view_at(&self, i: int)
        requires
            self.wf(),
            0 <= i < self.entries@.len(),
        ensures
            self.view().contains_key(self.entries@[i].0@),
            self.view()[self.entries@[i].0@] == self.entries@[i].1,
    {
        let d = self.entries@[i].0@;
        assert(exists|k: int| 0 <= k < self.entries@.len() && self.entries@[k].0@ == d);
        let j = choose|k: int| 0 <= k < self.entries@.len() && self.entries@[k].0@ == d;
        assert(j == i);
    }

    proof fn lemma_len(&self)
        requires
            self.wf(),
        ensures
            self.view().dom().finite(),
            self.view().len() == self.entries@.len(),
        decreases self.entries@.len(),
    {
        let keys = Seq::new(self.entries@.len(), |i: int| self.entries@[i].0@);
        assert(keys.no_duplicates());
        assert forall|d: Seq<char>| #[trigger] self.view().dom().contains(d) <==> keys.to_set().contains(d) by {
            if self.view().dom().contains(d) {
                let k = choose|k: int| 0 <= k < self.entries@.len() && self.entries@[k].0@ == d;
                assert(keys[k] == d);
            }
            if keys.to_set().contains(d) {
                assert(keys.contains(d));
                let k = choose|k: int| 0 <= k < keys.len() && keys[k] == d;
                assert(self.entries@[k].0@ == d);
            }
        }
        assert(self.view().dom() =~= keys.to_set());
        keys.unique_seq_to_set();
    }

    /// The value of `key`.
    pub fn get(&self, key: &String) -> (r: Option<&V>)
        requires
            self.wf(),
        ensures
            r is Some <==> self.view().contains_key(key@),
            r is Some ==> *r->Some_0 == self.view()[key@],
    {
        match self.find(key) {
            Some(i) => {
                proof {
                    self.lemma_view_at(i as int);
                }
                Some(&self.entries[i].1)
            },
            None => None,
        }
    }

    /// Whether the `i`-th value in insertion order is `v`, under a key of the table.
    pub closed spec fn has_value_at(&self, i: int, v: V) -> bool {
        &&& 0 <= i < self.entries@.len()
        &&& self.entries@[i].1 == v
        &&& self.view().contains_key(self.entries@[i].0@)
        &&& self.view()[self.entries@[i].0@] == v
    }

    /// The values, in insertion order.
    pub fn values(&self) -> (r: Vec<&V>)
        requires
            self.wf(),
        ensures
            r@.len() == self.view().len(),
            forall|i: int|
                0 <= i < r@.len() ==> #[trigger] self.has_value_at(i, *r@[i]),
            forall|k: Seq<char>|
                self.view().contains_key(k) ==> exists|i: int|
                    0 <= i < r@.len() && #[trigger] *r@[i] == self.view()[k],
    {
        let mut out: Vec<&V> = Vec::new();
        let mut i: usize = 0;
        while i < self.entries.len()
            invariant
                self.wf(),
                i <= self.entries@.len(),
                out@.len() == i,
                forall|k: int| 0 <= k < i ==> #[trigger] out@[k] == &self.entries@[k].1,
            decreases self.entries@.len() - i,
        {
            out.push(&self.entries[i].1);
            i = i + 1;
        }
        proof {
            self.lemma_len();
            assert forall|i: int| 0 <= i < out@.len() implies #[trigger] self.has_value_at(i, *out@[i]) by {
                self.lemma_view_at(i);
            }
            assert forall|k: Seq<char>| self.view().contains_key(k) implies exists|i: int|
                0 <= i < out@.len() && #[trigger] *out@[i] == self.view()[k] by {
                let j = choose|j: int| 0 <= j < self.entries@.len() && self.entries@[j].0@ == k;
                self.lemma_view_at(j);
                assert(*out@[j] == self.view()[k]);
            }
        }
        out
    }

    fn find(&self, key: &String) -> (r: Option<usize>)
        requires
            self.wf(),
        ensures
            r is None ==> !self.view().contains_key(key@),
            r is Some ==> r->Some_0 < self.entries@.len() && self.entries@[r->Some_0 as int].0@
                == key@,
    {
        let mut i: usize = 0;
        while i < self.entries.len()
            invariant
                i <= self.entries@.len(),
                forall|k: int| 0 <= k < i ==> self.entries@[k].0@ != key@,
            decreases self.entries@.len() - i,
        {
            if self.entries[i].0 == *key {
                return Some(i);
            }
            i = i + 1;
        }
        None
    }

    /// Sets the value of `key`, returning the value it replaces.
    pub fn insert(&mut self, key: String, value: V) -> (r: Option<V>)
        requires
            old(self).wf(),
        ensures
            final(self).wf(),
            final(self).view() == old(self).view().insert(key@, value),
            r is Some <==> old(self).view().contains_key(key@),
            r is Some ==> r->Some_0 == old(self).view()[key@],
    {
        let ghost dv = key@;
        match self.find(&key) {
            Some(i) => {
                proof {
                    old(self).lemma_view_at(i as int);
                }
                let ghost before = self.entries@;
                let (_, prev) = self.entries.remove(i);
                self.entries.push((key, value));
                proof {
                    let e = self.entries@;
                    assert forall|a: int, b: int| 0 <= a < b < e.len() implies #[trigger] e[a].0@
                        != #[trigger] e[b].0@ by {
                        if b == e.len() - 1 {
                            let oa = if a < i { a } else { a + 1 };
                            assert(e[a] == before[oa]);
                        } else {
                            let oa = if a < i { a } else { a + 1 };
                            let ob = if b < i { b } else { b + 1 };
                            assert(e[a] == before[oa]);
                            assert(e[b] == before[ob]);
                        }
                    }
                    assert forall|k: int| 0 <= k < e.len() implies self.view().contains_key(
                        #[trigger] e[k].0@,
                    ) && self.view()[e[k].0@] == e[k].1 by {
                        self.lemma_view_at(k);
                    }
                    assert forall|d: Seq<char>| #[trigger] self.view().contains_key(d) <==> old(
                        self,
                    ).view().insert(dv, value).contains_key(d) by {
                        if self.view().contains_key(d) {
                            let k = choose|k: int| 0 <= k < e.len() && e[k].0@ == d;
                            if k < e.len() - 1 {
                                let ok = if k < i { k } else { k + 1 };
                                assert(e[k] == before[ok]);
                                old(self).lemma_view_at(ok);
                            }
                        }
                        if old(self).view().contains_key(d) && d != dv {
                            let k = choose|k: int| 0 <= k < before.len() && before[k].0@ == d;
                            let nk = if k < i { k } else { k - 1 };
                            assert(k != i);
                            assert(e[nk] == before[k]);
                            self.lemma_view_at(nk);
                        }
                        if d == dv {
                            self.lemma_view_at(e.len() - 1);
                        }
                    }
                    assert forall|d: Seq<char>| #[trigger] self.view().contains_key(d) implies self.view()[d]
                        == old(self).view().insert(dv, value)[d] by {
                        let k = choose|k: int| 0 <= k < e.len() && e[k].0@ == d;
                        self.lemma_view_at(k);
                        if k < e.len() - 1 {
                            let ok = if k < i { k } else { k + 1 };
                            assert(e[k] == before[ok]);
                            old(self).lemma_view_at(ok);
                        }
                    }
                    assert(self.view() =~= old(self).view().insert(dv, value));
                }
                Some(prev)
            },
            None => {
                let ghost before = self.entries@;
                self.entries.push((key, value));
                proof {
                    let e = self.entries@;
                    assert forall|a: int, b: int| 0 <= a < b < e.len() implies #[trigger] e[a].0@
                        != #[trigger] e[b].0@ by {
                        if b == e.len() - 1 {
                            assert(e[a] == before[a]);
                            if e[a].0@ == dv {
                                old(self).lemma_view_at(a);
                            }
                        } else {
                            assert(e[a] == before[a]);
                            assert(e[b] == before[b]);
                        }
                    }
                    assert forall|d: Seq<char>| #[trigger] self.view().contains_key(d) <==> old(
                        self,
                    ).view().insert(dv, value).contains_key(d) by {
                        if self.view().contains_key(d) {
                            let k = choose|k: int| 0 <= k < e.len() && e[k].0@ == d;
                            if k < e.len() - 1 {
                                assert(e[k] == before[k]);
                                old(self).lemma_view_at(k);
                            }
                        }
                        if old(self).view().contains_key(d) {
                            let k = choose|k: int| 0 <= k < before.len() && before[k].0@ == d;
                            assert(e[k] == before[k]);
                            self.lemma_view_at(k);
                        }
                        if d == dv {
                            self.lemma_view_at(e.len() - 1);
                        }
                    }
                    assert forall|d: Seq<char>| #[trigger] self.view().contains_key(d) implies self.view()[d]
                        == old(self).view().insert(dv, value)[d] by {
                        let k = choose|k: int| 0 <= k < e.len() && e[k].0@ == d;
                        self.lemma_view_at(k);
                        if k < e.len() - 1 {
                            assert(e[k] == before[k]);
                            old(self).lemma_view_at(k);
                        }
                    }
                    assert(self.view() =~= old(self).view().insert(dv, value));
                }
                None
            },
        }
    }

    /// Removes `key`, returning its value.
    pub fn remove(&mut self, key: &String) -> (r: Option<V>)
        requires
            old(self).wf(),
        ensures
            final(self).wf(),
            final(self).view() == old(self).view().remove(key@),
            r is Some <==> old(self).view().contains_key(key@),
            r is Some ==> r->Some_0 == old(self).view()[key@],
    {
        let ghost dv = key@;
        match self.find(key) {
            Some(i) => {
                proof {
                    old(self).lemma_view_at(i as int);
                }
                let ghost before = self.entries@;
                let (_, prev) = self.entries.remove(i);
                proof {
                    let e = self.entries@;
                    assert forall|a: int, b: int| 0 <= a < b < e.len() implies #[trigger] e[a].0@
                        != #[trigger] e[b].0@ by {
                        let oa = if a < i { a } else { a + 1 };
                        let ob = if b < i { b } else { b + 1 };
                        assert(e[a] == before[oa]);
                        assert(e[b] == before[ob]);
                    }
                    assert forall|d: Seq<char>| #[trigger] self.view().contains_key(d) <==> old(
                        self,
                    ).view().remove(dv).contains_key(d) by {
                        if self.view().contains_key(d) {
                            let k = choose|k: int| 0 <= k < e.len() && e[k].0@ == d;
                            let ok = if k < i { k } else { k + 1 };
                            assert(e[k] == before[ok]);
                            old(self).lemma_view_at(ok);
                        }
                        if old(self).view().contains_key(d) && d != dv {
                            let k = choose|k: int| 0 <= k < before.len() && before[k].0@ == d;
                            let nk = if k < i { k } else { k - 1 };
                            assert(k != i);
                            assert(e[nk] == before[k]);
                            self.lemma_view_at(nk);
                        }
                    }
                    assert forall|d: Seq<char>| #[trigger] self.view().contains_key(d) implies self.view()[d]
                        == old(self).view().remove(dv)[d] by {
                        let k = choose|k: int| 0 <= k < e.len() && e[k].0@ == d;
                        self.lemma_view_at(k);
                        let ok = if k < i { k } else { k + 1 };
                        assert(e[k] == before[ok]);
                        old(self).lemma_view_at(ok);
                    }
                    assert(self.view() =~= old(self).view().remove(dv));
                }
                Some(prev)
            },
            None => {
                assert(self.view() =~= old(self).view().remove(dv));
                None
            },
        }
    }

    /// The keys, in insertion order.
    pub fn keys(&self) -> (r: Vec<String>)
        requires
            self.wf(),
        ensures
            r@.len() == self.view().len(),
            forall|d: Seq<char>|
                self.view().contains_key(d) <==> exists|i: int| 0 <= i < r@.len() && #[trigger] r@[i]@ == d,
            forall|i: int, j: int| 0 <= i < j < r@.len() ==> #[trigger] r@[i]@ != #[trigger] r@[j]@,
    {
        let mut out: Vec<String> = Vec::new();
        let mut i: usize = 0;
        while i < self.entries.len()
            invariant
                i <= self.entries@.len(),
                out@.len() == i,
                forall|k: int| 0 <= k < i ==> #[trigger] out@[k]@ == self.entries@[k].0@,
            decreases self.entries@.len() - i,
        {
            out.push(self.entries[i].0.clone());
            i = i + 1;
        }
        proof {
            self.lemma_len();
            assert forall|d: Seq<char>| self.view().contains_key(d) <==> exists|i: int|
                0 <= i < out@.len() && #[trigger] out@[i]@ == d by {
                if self.view().contains_key(d) {
                    let k = choose|k: int| 0 <= k < self.entries@.len() && self.entries@[k].0@ == d;
                    assert(out@[k]@ == d);
                }
                if exists|i: int| 0 <= i < out@.len() && #[trigger] out@[i]@ == d {
                    let k = choose|i: int| 0 <= i < out@.len() && #[trigger] out@[i]@ == d;
                    self.lemma_view_at(k);
                }
            }
        }
        out
    }
}

} // verus!
