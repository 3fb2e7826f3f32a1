//! A map from text keys to values, kept as a vector of pairs with distinct
//! keys. Entries stay in insertion order, except that removing one moves no
//! other out of order.
use vstd::prelude::*;

verus! {

#[derive(Debug)]
pub struct StrMap<V> {
    entries: Vec<(String, V)>,
}

impl<V> StrMap<V> {
    /// No two entries share a key.
    pub closed spec fn wf(&self) -> bool {
        forall|i: int, j: int|
            0 <= i < self.entries@.len() && 0 <= j < self.entries@.len() && i != j
                ==> #[trigger] self.entries@[i].0@ != #[trigger] self.entries@[j].0@
    }

    pub closed spec fn has_at(&self, k: Seq<char>, i: int) -> bool {
        0 <= i < self.entries@.len() && self.entries@[i].0@ == k
    }

    pub closed spec fn view(&self) -> Map<Seq<char>, V> {
        Map::new(
            |k: Seq<char>| exists|i: int| self.has_at(k, i),
            |k: Seq<char>| self.entries@[choose|i: int| self.has_at(k, i)].1,
        )
    }

    /// The entries in their stored order.
    pub closed spec fn pairs(&self) -> Seq<(String, V)> {
        self.entries@
    }

    proof fn lemma_view_at(&self, i: int)
        requires
            self.wf(),
            0 <= i < self.entries@.len(),
        ensures
            self.view().contains_key(self.entries@[i].0@),
            self.view()[self.entries@[i].0@] == self.entries@[i].1,
    {
        let k = self.entries@[i].0@;
        assert(self.has_at(k, i));
        let j = choose|j: int| self.has_at(k, j);
        assert(j == i);
    }

    /// What the stored order says of the map: each entry is in it, and each
    /// key of it has an entry.
    pub proof fn lemma_pairs(&self)
        requires
            self.wf(),
        ensures
            self.view().dom().finite(),
            self.view().len() == self.pairs().len(),
            forall|i: int|
                0 <= i < self.pairs().len() ==> #[trigger] self.view().contains_key(
                    self.pairs()[i].0@,
                ) && self.view()[self.pairs()[i].0@] == self.pairs()[i].1,
            forall|k: Seq<char>|
                #[trigger] self.view().contains_key(k) ==> exists|i: int|
                    0 <= i < self.pairs().len() && self.pairs()[i].0@ == k,
    {
        assert forall|i: int| 0 <= i < self.pairs().len() implies #[trigger] self.view().contains_key(
            self.pairs()[i].0@,
        ) && self.view()[self.pairs()[i].0@] == self.pairs()[i].1 by {
            self.lemma_view_at(i);
        }
        assert forall|k: Seq<char>| #[trigger] self.view().contains_key(k) implies exists|i: int|
            0 <= i < self.pairs().len() && self.pairs()[i].0@ == k by {
            let i = choose|i: int| self.has_at(k, i);
            assert(0 <= i < self.pairs().len() && self.pairs()[i].0@ == k);
        }
        let d = self.view().dom();
        let ks = self.entries@.map_values(|e: (String, V)| e.0@);
        assert forall|i: int, j: int| 0 <= i < ks.len() && 0 <= j < ks.len() && i != j implies ks[i]
            != ks[j] by {
            assert(self.entries@[i].0@ != self.entries@[j].0@);
        }
        assert(ks.no_duplicates());
        assert forall|k: Seq<char>| d.contains(k) <==> ks.to_set().contains(k) by {
            if d.contains(k) {
                let i = choose|i: int| self.has_at(k, i);
                assert(ks[i] == k);
            }
            if ks.to_set().contains(k) {
                let i = choose|i: int| 0 <= i < ks.len() && ks[i] == k;
                assert(self.has_at(k, i));
            }
        }
        assert(d =~= ks.to_set());
        ks.unique_seq_to_set();
    }

    pub fn new() -> (m: Self)
        ensures
            m.wf(),
            m.view() == Map::<Seq<char>, V>::empty(),
    {
        let m = StrMap { entries: Vec::new() };
        assert(m.view() =~= Map::<Seq<char>, V>::empty());
        m
    }

    pub fn len(&self) -> (n: usize)
        requires
            self.wf(),
        ensures
            n == self.view().len(),
    {
        proof {
            self.lemma_pairs();
        }
        self.entries.len()
    }

    /// The entries in their stored order.
    pub fn as_vec(&self) -> (r: &Vec<(String, V)>)
        ensures
            r@ == self.pairs(),
    {
        &self.entries
    }

    fn find(&self, key: &String) -> (r: Option<usize>)
        requires
            self.wf(),
        ensures
            r matches Some(i) ==> self.has_at(key@, i as int),
            r is None ==> !self.view().contains_key(key@),
    {
        let mut i: usize = 0;
        while i < self.entries.len()
            invariant
                0 <= i <= self.entries@.len(),
                forall|j: int| 0 <= j < i ==> self.entries@[j].0@ != key@,
            decreases self.entries@.len() - i,
        {
            if self.entries[i].0 == *key {
                return Some(i);
            }
            i = i + 1;
        }
        None
    }

    pub fn contains_key(&self, key: &str) -> (r: bool)
        requires
            self.wf(),
        ensures
            r == self.view().contains_key(key@),
    {
        match self.find(&key.to_owned()) {
            Some(i) => {
                proof {
                    self.lemma_view_at(i as int);
                }
                true
            },
            None => false,
        }
    }

    pub fn get(&self, key: &str) -> (r: Option<&V>)
        requires
            self.wf(),
        ensures
            r is Some <==> self.view().contains_key(key@),
            r matches Some(v) ==> *v == self.view()[key@],
    {
        match self.find(&key.to_owned()) {
            Some(i) => {
                proof {
                    self.lemma_view_at(i as int);
                }
                Some(&self.entries[i].1)
            },
            None => None,
        }
    }

    /// Sets the value of `key`, replacing any value it had.
    pub fn insert(&mut self, key: String, value: V)
        requires
            old(self).wf(),
        ensures
            final(self).wf(),
            final(self).view() == old(self).view().insert(key@, value),
    {
        let ghost before = *self;
        let ghost kv = key@;
        let ghost target = before.view().insert(kv, value);
        match self.find(&key) {
            Some(i) => {
                self.entries.set(i, (key, value));
                proof {
                    assert forall|a: int, b: int|
                        0 <= a < self.entries@.len() && 0 <= b < self.entries@.len() && a != b
                            implies #[trigger] self.entries@[a].0@ != #[trigger] self.entries@[b].0@ by {
                        assert(before.entries@[a].0@ != before.entries@[b].0@);
                    }
                    assert forall|kk: Seq<char>| #[trigger]
                        self.view().contains_key(kk) == target.contains_key(kk) by {
                        if self.view().contains_key(kk) {
                            let j = choose|j: int| self.has_at(kk, j);
                            if j != i {
                                assert(before.has_at(kk, j));
                            }
                        }
                        if before.view().contains_key(kk) {
                            let j = choose|j: int| before.has_at(kk, j);
                            assert(self.has_at(kk, j));
                        }
                        if kk == kv {
                            assert(self.has_at(kk, i as int));
                        }
                    }
                    assert forall|kk: Seq<char>| self.view().contains_key(kk) implies #[trigger]
                        self.view()[kk] == target[kk] by {
                        let j = choose|j: int| self.has_at(kk, j);
                        self.lemma_view_at(j);
                        if j != i {
                            before.lemma_view_at(j);
                        }
                    }
                    assert(self.view() =~= target);
                }
            },
            None => {
                self.entries.push((key, value));
                proof {
                    let n = before.entries@.len() as int;
                    assert forall|a: int, b: int|
                        0 <= a < self.entries@.len() && 0 <= b < self.entries@.len() && a != b
                            implies #[trigger] self.entries@[a].0@ != #[trigger] self.entries@[b].0@ by {
                        if a < n && b < n {
                            assert(before.entries@[a].0@ != before.entries@[b].0@);
                        } else if a == n {
                            assert(!before.has_at(kv, b));
                        } else {
                            assert(!before.has_at(kv, a));
                        }
                    }
                    assert forall|kk: Seq<char>| #[trigger]
                        self.view().contains_key(kk) == target.contains_key(kk) by {
                        if self.view().contains_key(kk) {
                            let j = choose|j: int| self.has_at(kk, j);
                            if j < n {
                                assert(before.has_at(kk, j));
                            }
                        }
                        if before.view().contains_key(kk) {
                            let j = choose|j: int| before.has_at(kk, j);
                            assert(self.has_at(kk, j));
                        }
                        if kk == kv {
                            assert(self.has_at(kk, n));
                        }
                    }
                    assert forall|kk: Seq<char>| self.view().contains_key(kk) implies #[trigger]
                        self.view()[kk] == target[kk] by {
                        let j = choose|j: int| self.has_at(kk, j);
                        self.lemma_view_at(j);
                        if j < n {
                            before.lemma_view_at(j);
                        }
                    }
                    assert(self.view() =~= target);
                }
            },
        }
    }

    /// Takes the entry of `key` out, if there is one.
    pub fn remove(&mut self, key: &str) -> (r: Option<V>)
        requires
            old(self).wf(),
        ensures
            final(self).wf(),
            r is Some <==> old(self).view().contains_key(key@),
            r matches Some(v) ==> v == old(self).view()[key@],
            final(self).view() == old(self).view().remove(key@),
    {
        let ghost before = *self;
        let ghost target = before.view().remove(key@);
        match self.find(&key.to_owned()) {
            Some(i) => {
                proof {
                    before.lemma_view_at(i as int);
                }
                let (_k, v) = self.entries.remove(i);
                proof {
                    assert forall|a: int| 0 <= a < self.entries@.len() implies #[trigger] self.entries@[a]
                        == if a < i {
                        before.entries@[a]
                    } else {
                        before.entries@[a + 1]
                    } by {}
                    assert forall|a: int, b: int|
                        0 <= a < self.entries@.len() && 0 <= b < self.entries@.len() && a != b
                            implies #[trigger] self.entries@[a].0@ != #[trigger] self.entries@[b].0@ by {
                        let a2 = if a < i { a } else { a + 1 };
                        let b2 = if b < i { b } else { b + 1 };
                        assert(before.entries@[a2].0@ != before.entries@[b2].0@);
                    }
                    assert forall|kk: Seq<char>| #[trigger]
                        self.view().contains_key(kk) == target.contains_key(kk) by {
                        if self.view().contains_key(kk) {
                            let j = choose|j: int| self.has_at(kk, j);
                            let j2 = if j < i { j } else { j + 1 };
                            assert(before.has_at(kk, j2));
                            assert(before.entries@[j2].0@ != before.entries@[i as int].0@);
                        }
                        if target.contains_key(kk) {
                            let j = choose|j: int| before.has_at(kk, j);
                            assert(j != i);
                            let j2 = if j < i { j } else { j - 1 };
                            assert(self.has_at(kk, j2));
                        }
                    }
                    assert forall|kk: Seq<char>| self.view().contains_key(kk) implies #[trigger]
                        self.view()[kk] == target[kk] by {
                        let j = choose|j: int| self.has_at(kk, j);
                        let j2 = if j < i { j } else { j + 1 };
                        self.lemma_view_at(j);
                        before.lemma_view_at(j2);
                    }
                    assert(self.view() =~= target);
                }
                Some(v)
            },
            None => {
                assert(self.view() =~= target);
                None
            },
        }
    }
}

} // verus!
