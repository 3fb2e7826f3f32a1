//! The library cache: at most one loaded library per key, each stamped with
//! the time it was last used, and evicted once it has been idle too long.
//!
//! Times are milliseconds on a clock that the caller reads. The cache holds
//! its handles by value; a caller that keeps a clone of a handle (a shared
//! pointer) keeps the library alive after eviction.
use vstd::prelude::*;

verus! {

/// A cached library and the time it was last used.
#[derive(Debug)]
pub struct CachedLibrary<H> {
    pub handle: H,
    pub last_used: u64,
}

#[derive(Debug)]
pub struct LibraryCache<H> {
    entries: Vec<(String, CachedLibrary<H>)>,
    idle_ttl: u64,
}

/// Idle for longer than the time to live.
pub open spec fn is_expired(last_used: u64, now: u64, idle_ttl: u64) -> bool {
    now - last_used > idle_ttl
}

/// The cache after a hit on `k`: the entry's stamp moves to `now`.
pub open spec fn touched<H>(m: Map<Seq<char>, (H, u64)>, k: Seq<char>, now: u64) -> Map<
    Seq<char>,
    (H, u64),
> {
    if m.contains_key(k) {
        m.insert(k, (m[k].0, now))
    } else {
        m
    }
}

/// The cache after a freshly loaded library for `k` is offered: an entry that
/// is already there wins and is stamped; otherwise the new one goes in.
pub open spec fn installed<H>(m: Map<Seq<char>, (H, u64)>, k: Seq<char>, h: H, now: u64) -> Map<
    Seq<char>,
    (H, u64),
> {
    if m.contains_key(k) {
        m.insert(k, (m[k].0, now))
    } else {
        m.insert(k, (h, now))
    }
}

/// The cache after a cleanup at `now`: the entries that are not expired.
pub open spec fn swept<H>(m: Map<Seq<char>, (H, u64)>, now: u64, idle_ttl: u64) -> Map<
    Seq<char>,
    (H, u64),
> {
    m.restrict(m.dom().filter(|k: Seq<char>| !is_expired(m[k].1, now, idle_ttl)))
}

/// The cache after offering the libraries `hs` for one key, one after another.
pub open spec fn installed_all<H>(
    m: Map<Seq<char>, (H, u64)>,
    k: Seq<char>,
    hs: Seq<H>,
    now: u64,
) -> Map<Seq<char>, (H, u64)>
    decreases hs.len(),
{
    if hs.len() == 0 {
        m
    } else {
        installed(installed_all(m, k, hs.drop_last(), now), k, hs.last(), now)
    }
}

/// However many loads race for a key that was missing, the first one offered
/// is the one that stays, and no other offer is taken.
pub proof fn lemma_one_load_wins<H>(m: Map<Seq<char>, (H, u64)>, k: Seq<char>, hs: Seq<H>, now: u64)
    requires
        !m.contains_key(k),
        hs.len() > 0,
    ensures
        installed_all(m, k, hs, now).contains_key(k),
        installed_all(m, k, hs, now)[k].0 == hs[0],
        forall|i: int|
            0 < i < hs.len() ==> #[trigger] installed_all(m, k, hs.take(i), now).contains_key(k),
    decreases hs.len(),
{
    if hs.len() == 1 {
        assert(hs.drop_last().len() == 0);
    } else {
        let init = hs.drop_last();
        lemma_one_load_wins(m, k, init, now);
        assert(init[0] == hs[0]);
        assert forall|i: int|
            0 < i < hs.len() implies #[trigger] installed_all(m, k, hs.take(i), now).contains_key(
            k,
        ) by {
            if i < hs.len() - 1 {
                assert(init.take(i) =~= hs.take(i));
            } else {
                assert(hs.take(i) =~= init);
            }
        }
    }
}

impl<H> LibraryCache<H> {
    /// No two entries share a key.
    pub closed spec fn wf(&self) -> bool {
        forall|i: int, j: int|
            0 <= i < self.entries@.len() && 0 <= j < self.entries@.len() && i != j
                ==> #[trigger] self.entries@[i].0@ != #[trigger] self.entries@[j].0@
    }

    pub closed spec fn has_at(&self, k: Seq<char>, i: int) -> bool {
        0 <= i < self.entries@.len() && self.entries@[i].0@ == k
    }

    /// Key to (handle, last use).
    pub closed spec fn view(&self) -> Map<Seq<char>, (H, u64)> {
        Map::new(
            |k: Seq<char>| exists|i: int| self.has_at(k, i),
            |k: Seq<char>|
                {
                    let i = choose|i: int| self.has_at(k, i);
                    (self.entries@[i].1.handle, self.entries@[i].1.last_used)
                },
        )
    }

    pub closed spec fn ttl(&self) -> u64 {
        self.idle_ttl
    }

    proof fn lemma_view_at(&self, i: int)
        requires
            self.wf(),
            0 <= i < self.entries@.len(),
        ensures
            self.view().contains_key(self.entries@[i].0@),
            self.view()[self.entries@[i].0@] == (
                self.entries@[i].1.handle,
                self.entries@[i].1.last_used,
            ),
    {
        let k = self.entries@[i].0@;
        assert(self.has_at(k, i));
        let j = choose|j: int| self.has_at(k, j);
        assert(j == i);
    }

    /// An empty cache whose entries live `idle_ttl` milliseconds past their last use.
    pub fn new(idle_ttl: u64) -> (c: Self)
        ensures
            c.wf(),
            c.view() == Map::<Seq<char>, (H, u64)>::empty(),
            c.ttl() == idle_ttl,
    {
        let c = LibraryCache { entries: Vec::new(), idle_ttl };
        assert(c.view() =~= Map::<Seq<char>, (H, u64)>::empty());
        c
    }

    pub fn idle_ttl(&self) -> (r: u64)
        ensures
            r == self.ttl(),
    {
        self.idle_ttl
    }

    proof fn lemma_dom(&self)
        requires
            self.wf(),
        ensures
            self.view().dom().finite(),
            self.view().len() == self.entries@.len(),
    {
        let d = self.view().dom();
        let ks = self.entries@.map_values(|e: (String, CachedLibrary<H>)| e.0@);
        assert forall|i: int, j: int| 0 <= i < ks.len() && 0 <= j < ks.len() && i != j implies ks[i]
            != ks[j] by {
            assert(self.entries@[i].0@ != self.entries@[j].0@);
        }
        assert(ks.no_duplicates());
        assert forall|k: Seq<char>| d.contains(k) <==> ks.to_set().contains(k) by {
            if d.contains(k) {
                let i = choose|i: int| self.has_at(k, i);
                assert(ks[i] == k);
            }
            if ks.to_set().contains(k) {
                let i = choose|i: int| 0 <= i < ks.len() && ks[i] == k;
                assert(self.has_at(k, i));
            }
        }
        assert(d =~= ks.to_set());
        ks.unique_seq_to_set();
    }

    pub fn len(&self) -> (n: usize)
        requires
            self.wf(),
        ensures
            n == self.view().len(),
    {
        proof {
            self.lemma_dom();
        }
        self.entries.len()
    }

    fn find(&self, key: &String) -> (r: Option<usize>)
        requires
            self.wf(),
        ensures
            r matches Some(i) ==> self.has_at(key@, i as int),
            r is None ==> !self.view().contains_key(key@),
    {
        let mut i: usize = 0;
        while i < self.entries.len()
            invariant
                0 <= i <= self.entries@.len(),
                forall|j: int| 0 <= j < i ==> self.entries@[j].0@ != key@,
            decreases self.entries@.len() - i,
        {
            if self.entries[i].0 == *key {
                return Some(i);
            }
            i = i + 1;
        }
        None
    }

    fn stamp(&mut self, i: usize, now: u64)
        requires
            old(self).wf(),
            i < old(self).entries@.len(),
        ensures
            final(self).wf(),
            final(self).ttl() == old(self).ttl(),
            final(self).view() == old(self).view().insert(
                old(self).entries@[i as int].0@,
                (old(self).entries@[i as int].1.handle, now),
            ),
    {
        let ghost k = self.entries@[i as int].0@;
        let ghost before = *self;
        self.entries[i].1.last_used = now;
        proof {
            assert forall|a: int| 0 <= a < self.entries@.len() implies #[trigger] self.entries@[a].0
                == before.entries@[a].0 by {}
            assert(self.wf());
            assert forall|kk: Seq<char>| #[trigger]
                self.view().contains_key(kk) == before.view().insert(
                    k,
                    (before.entries@[i as int].1.handle, now),
                ).contains_key(kk) by {
                if self.view().contains_key(kk) {
                    let j = choose|j: int| self.has_at(kk, j);
                    assert(before.has_at(kk, j));
                }
                if before.view().contains_key(kk) {
                    let j = choose|j: int| before.has_at(kk, j);
                    assert(self.has_at(kk, j));
                }
                if kk == k {
                    assert(self.has_at(kk, i as int));
                }
            }
            assert forall|kk: Seq<char>| self.view().contains_key(kk) implies #[trigger]
                self.view()[kk] == before.view().insert(
                    k,
                    (before.entries@[i as int].1.handle, now),
                )[kk] by {
                let j = choose|j: int| self.has_at(kk, j);
                self.lemma_view_at(j);
                before.lemma_view_at(j);
            }
            assert(self.view() =~= before.view().insert(
                k,
                (before.entries@[i as int].1.handle, now),
            ));
        }
    }

    /// Looks `key` up; on a hit the entry is stamped with `now` under the same
    /// borrow, so the lookup and the stamp cannot be separated by a cleanup.
    pub fn touch(&mut self, key: &str, now: u64) -> (hit: bool)
        requires
            old(self).wf(),
        ensures
            final(self).wf(),
            final(self).ttl() == old(self).ttl(),
            hit == old(self).view().contains_key(key@),
            final(self).view() == touched(old(self).view(), key@, now),
    {
        let k = key.to_owned();
        match self.find(&k) {
            Some(i) => {
                proof {
                    self.lemma_view_at(i as int);
                }
                self.stamp(i, now);
                true
            },
            None => false,
        }
    }

    /// The handle cached under `key`.
    pub fn get(&self, key: &str) -> (r: Option<&H>)
        requires
            self.wf(),
        ensures
            r is Some <==> self.view().contains_key(key@),
            r matches Some(h) ==> *h == self.view()[key@].0,
    {
        let k = key.to_owned();
        match self.find(&k) {
            Some(i) => {
                proof {
                    self.lemma_view_at(i as int);
                }
                Some(&self.entries[i].1.handle)
            },
            None => None,
        }
    }

    /// Offers a freshly loaded library for `key`. If another load got there
    /// first, that entry is kept and stamped, and `fresh` is dropped; the
    /// result says whether `fresh` went in.
    pub fn install(&mut self, key: &str, fresh: H, now: u64) -> (inserted: bool)
        requires
            old(self).wf(),
        ensures
            final(self).wf(),
            final(self).ttl() == old(self).ttl(),
            inserted == !old(self).view().contains_key(key@),
            final(self).view() == installed(old(self).view(), key@, fresh, now),
    {
        let k = key.to_owned();
        match self.find(&k) {
            Some(i) => {
                proof {
                    self.lemma_view_at(i as int);
                }
                self.stamp(i, now);
                false
            },
            None => {
                let ghost before = *self;
                let ghost kv = k@;
                self.entries.push((k, CachedLibrary { handle: fresh, last_used: now }));
                proof {
                    let n = before.entries@.len() as int;
                    assert forall|a: int, b: int|
                        0 <= a < self.entries@.len() && 0 <= b < self.entries@.len() && a != b
                            implies #[trigger] self.entries@[a].0@ != #[trigger] self.entries@[b].0@ by {
                        if a < n && b < n {
                            assert(self.entries@[a] == before.entries@[a]);
                            assert(self.entries@[b] == before.entries@[b]);
                        } else if a == n {
                            assert(self.entries@[b] == before.entries@[b]);
                            assert(!before.has_at(kv, b));
                        } else {
                            assert(self.entries@[a] == before.entries@[a]);
                            assert(!before.has_at(kv, a));
                        }
                    }
                    assert(self.wf());
                    let target = before.view().insert(kv, (fresh, now));
                    assert forall|kk: Seq<char>| #[trigger]
                        self.view().contains_key(kk) == target.contains_key(kk) by {
                        if self.view().contains_key(kk) {
                            let j = choose|j: int| self.has_at(kk, j);
                            if j < n {
                                assert(before.has_at(kk, j));
                            }
                        }
                        if before.view().contains_key(kk) {
                            let j = choose|j: int| before.has_at(kk, j);
                            assert(self.has_at(kk, j));
                        }
                        if kk == kv {
                            assert(self.has_at(kk, n));
                        }
                    }
                    assert forall|kk: Seq<char>| self.view().contains_key(kk) implies #[trigger]
                        self.view()[kk] == target[kk] by {
                        let j = choose|j: int| self.has_at(kk, j);
                        self.lemma_view_at(j);
                        if j < n {
                            before.lemma_view_at(j);
                        }
                    }
                    assert(self.view() =~= target);
                }
                true
            },
        }
    }

    /// Evicts every entry idle for longer than the time to live at `now`, and
    /// returns how many went.
    pub fn cleanup(&mut self, now: u64) -> (evicted: usize)
        requires
            old(self).wf(),
        ensures
            final(self).wf(),
            final(self).ttl() == old(self).ttl(),
            final(self).view() == swept(old(self).view(), now, old(self).ttl()),
            evicted == old(self).view().len() - final(self).view().len(),
    {
        let ghost before = *self;
        let ghost target = swept(before.view(), now, before.ttl());
        let n0 = self.len();
        let mut i: usize = 0;
        while i < self.entries.len()
            invariant
                self.wf(),
                before.wf(),
                self.idle_ttl == before.idle_ttl,
                0 <= i <= self.entries@.len(),
                target == swept(before.view(), now, before.ttl()),
                forall|j: int| 0 <= j < i ==> !is_expired(#[trigger] self.entries@[j].1.last_used, now, self.idle_ttl),
                forall|kk: Seq<char>| #[trigger] self.view().contains_key(kk) ==> before.view().contains_key(kk) && self.view()[kk] == before.view()[kk],
                forall|kk: Seq<char>| #[trigger] target.contains_key(kk) ==> self.view().contains_key(kk),
            decreases self.entries@.len() - i,
        {
            if now >= self.entries[i].1.last_used && now - self.entries[i].1.last_used > self.idle_ttl {
                let ghost mid = *self;
                let ghost gone = mid.entries@[i as int].0@;
                proof {
                    mid.lemma_view_at(i as int);
                }
                let _dropped = self.entries.remove(i);
                proof {
                    assert forall|a: int| 0 <= a < self.entries@.len() implies #[trigger] self.entries@[a] == if a < i {
                        mid.entries@[a]
                    } else {
                        mid.entries@[a + 1]
                    } by {}
                    assert forall|a: int, b: int|
                        0 <= a < self.entries@.len() && 0 <= b < self.entries@.len() && a != b
                            implies #[trigger] self.entries@[a].0@ != #[trigger] self.entries@[b].0@ by {
                        let a2 = if a < i { a } else { a + 1 };
                        let b2 = if b < i { b } else { b + 1 };
                        assert(mid.entries@[a2].0@ != mid.entries@[b2].0@);
                    }
                    assert forall|kk: Seq<char>| #[trigger] self.view().contains_key(kk) implies before.view().contains_key(kk) && self.view()[kk] == before.view()[kk] by {
                        let j = choose|j: int| self.has_at(kk, j);
                        let j2 = if j < i { j } else { j + 1 };
                        assert(mid.has_at(kk, j2));
                        self.lemma_view_at(j);
                        mid.lemma_view_at(j2);
                    }
                    assert forall|kk: Seq<char>| #[trigger] target.contains_key(kk) implies self.view().contains_key(kk) by {
                        assert(mid.view().contains_key(kk));
                        let j = choose|j: int| mid.has_at(kk, j);
                        mid.lemma_view_at(j);
                        if j == i {
                            assert(mid.view()[kk] == before.view()[kk]);
                            assert(false);
                        } else {
                            let j2 = if j < i { j } else { j - 1 };
                            assert(self.has_at(kk, j2));
                        }
                    }
                }
            } else {
                i = i + 1;
            }
        }
        proof {
            assert forall|kk: Seq<char>| #[trigger] self.view().contains_key(kk) implies target.contains_key(kk) by {
                let j = choose|j: int| self.has_at(kk, j);
                self.lemma_view_at(j);
            }
            assert(self.view() =~= target);
        }
        let n1 = self.len();
        proof {
            before.lemma_dom();
            self.lemma_dom();
            assert(self.view().dom().subset_of(before.view().dom()));
            vstd::set_lib::lemma_len_subset(self.view().dom(), before.view().dom());
        }
        n0 - n1
    }
}

/// After a cleanup at `now`, no entry idle for longer than the time to live
/// is left, and every other entry is kept as it was.
pub proof fn lemma_cleanup_drops_idle<H>(m: Map<Seq<char>, (H, u64)>, now: u64, idle_ttl: u64, k: Seq<char>)
    ensures
        m.contains_key(k) && is_expired(m[k].1, now, idle_ttl) ==> !swept(m, now, idle_ttl).contains_key(k),
        m.contains_key(k) && !is_expired(m[k].1, now, idle_ttl) ==> swept(m, now, idle_ttl).contains_key(k)
            && swept(m, now, idle_ttl)[k] == m[k],
{
}

} // verus!
