//! Rendered pages kept for reuse, keyed by page and zoom. When more than
//! the capacity are kept, the least recently used goes first; finding an
//! entry makes it the most recent.

use vstd::prelude::*;

verus! {

/// A rendered page's key: its page number and the bit pattern of the zoom
/// it was rendered at (`f64::to_bits`).
pub type PageKey = (usize, u64);

pub open spec fn keys_of<S>(entries: Seq<(usize, u64, S)>) -> Seq<PageKey> {
    Seq::new(entries.len(), |i: int| (entries[i].0, entries[i].1))
}

pub open spec fn values_of<S>(entries: Seq<(usize, u64, S)>) -> Seq<S> {
    Seq::new(entries.len(), |i: int| entries[i].2)
}

/// No key twice.
pub open spec fn distinct_keys(keys: Seq<PageKey>) -> bool {
    forall|i: int, j: int| 0 <= i < j < keys.len() ==> keys[i] != keys[j]
}

/// Where `key` stands among `keys`, if anywhere.
pub open spec fn position_of(keys: Seq<PageKey>, key: PageKey) -> Option<int> {
    if exists|i: int| 0 <= i < keys.len() && keys[i] == key {
        Some(choose|i: int| 0 <= i < keys.len() && keys[i] == key)
    } else {
        None
    }
}

/// The newest entries of `s` that fit in `cap`.
pub open spec fn newest<T>(s: Seq<T>, cap: nat) -> Seq<T> {
    if s.len() > cap {
        s.skip(s.len() - cap)
    } else {
        s
    }
}

/// What keeping `v` under `k` makes of the keys and values of a cache of
/// capacity `cap` (see `PageRenderCache::insert`).
pub open spec fn after_insert<S>(keys: Seq<PageKey>, values: Seq<S>, cap: nat, k: PageKey, v: S) -> (
    Seq<PageKey>,
    Seq<S>,
) {
    match position_of(keys, k) {
        Some(p) => (keys, values.update(p, v)),
        None => (newest(keys.push(k), cap), newest(values.push(v), cap)),
    }
}

/// A page just kept is found again, with what was kept, in a cache that
/// can hold at least one page; and the cache stays within its capacity.
pub proof fn lemma_insert_then_get<S>(keys: Seq<PageKey>, values: Seq<S>, cap: nat, k: PageKey, v: S)
    requires
        distinct_keys(keys),
        keys.len() <= cap,
        values.len() == keys.len(),
        cap >= 1,
    ensures
        ({
            let (k2, v2) = after_insert(keys, values, cap, k, v);
            &&& k2.len() <= cap
            &&& position_of(k2, k) matches Some(p) && 0 <= p < v2.len() && v2[p] == v
        }),
{
    match position_of(keys, k) {
        Some(p) => {
            let q = choose|i: int| 0 <= i < keys.len() && keys[i] == k;
            assert(keys[q] == k);
            if p != q {
                if p < q {
                    assert(keys[p] != keys[q]);
                } else {
                    assert(keys[q] != keys[p]);
                }
            }
        },
        None => {
            let kp = keys.push(k);
            let vp = values.push(v);
            let k2 = newest(kp, cap);
            let v2 = newest(vp, cap);
            let d: int = kp.len() - k2.len();
            assert(k2.len() >= 1);
            let last = k2.len() - 1;
            assert(k2[last] == kp[last + d]);
            assert(k2[last] == k);
            assert(exists|i: int| 0 <= i < k2.len() && k2[i] == k);
            let q = choose|i: int| 0 <= i < k2.len() && k2[i] == k;
            if q != last {
                assert(k2[q] == kp[q + d]);
                assert(kp[q + d] == keys[q + d]);
                assert(keys[q + d] == k);
            }
            assert(v2[last] == vp[last + d]);
        },
    }
}

/// The cache, oldest entry first.
pub struct PageRenderCache<S> {
    max_pages: usize,
    entries: Vec<(usize, u64, S)>,
}

impl<S> PageRenderCache<S> {
    #[verifier::type_invariant]
    spec fn wf(self) -> bool {
        &&& self.entries@.len() <= self.max_pages
        &&& distinct_keys(keys_of(self.entries@))
    }

    /// The keys held, from the least to the most recently used.
    pub closed spec fn keys(self) -> Seq<PageKey> {
        keys_of(self.entries@)
    }

    /// The pages held, in the order of `keys`.
    pub closed spec fn values(self) -> Seq<S> {
        values_of(self.entries@)
    }

    pub closed spec fn capacity(self) -> nat {
        self.max_pages as nat
    }

    /// How many pages are held: never more than the capacity, and never
    /// one key twice.
    pub fn len(&self) -> (n: usize)
        ensures
            n == self.keys().len(),
            n <= self.capacity(),
            self.values().len() == self.keys().len(),
            distinct_keys(self.keys()),
    {
        proof {
            use_type_invariant(self);
        }
        self.entries.len()
    }

    /// An empty cache for at most `max_pages` pages.
    pub fn new(max_pages: usize) -> (c: Self)
        ensures
            c.keys().len() == 0,
            c.values().len() == 0,
            c.capacity() == max_pages,
    {
        let c = PageRenderCache { max_pages, entries: Vec::new() };
        assert(keys_of(c.entries@) =~= Seq::<PageKey>::empty());
        assert(values_of(c.entries@) =~= Seq::<S>::empty());
        c
    }

    fn find(&self, index: usize, zoom_bits: u64) -> (r: Option<usize>)
        ensures
            r matches Some(p) ==> p < self.entries@.len() && self.keys()[p as int] == (index, zoom_bits),
            r is None ==> position_of(self.keys(), (index, zoom_bits)) is None,
    {
        let mut i: usize = 0;
        while i < self.entries.len()
            invariant
                0 <= i <= self.entries@.len(),
                forall|j: int|
                    0 <= j < i ==> keys_of(self.entries@)[j] != (index, zoom_bits),
            decreases self.entries@.len() - i,
        {
            if self.entries[i].0 == index && self.entries[i].1 == zoom_bits {
                return Some(i);
            }
            i = i + 1;
        }
        None
    }

    /// The page rendered for `index` at the zoom `zoom_bits`, which becomes
    /// the most recently used; `None` (and nothing changed) where there is
    /// none.
    pub fn get(&mut self, index: usize, zoom_bits: u64) -> (r: Option<&S>)
        ensures
            final(self).capacity() == old(self).capacity(),
            match position_of(old(self).keys(), (index, zoom_bits)) {
                None => r is None && final(self).keys() == old(self).keys() && final(self).values()
                    == old(self).values(),
                Some(p) => r == Some(&old(self).values()[p]) && final(self).keys() == old(
                    self,
                ).keys().remove(p).push((index, zoom_bits)) && final(self).values() == old(
                    self,
                ).values().remove(p).push(old(self).values()[p]),
            },
    {
        proof {
            use_type_invariant(&*self);
        }
        match self.find(index, zoom_bits) {
            None => None,
            Some(pos) => {
                let ghost old_entries = self.entries@;
                proof {
                    let ks = keys_of(old_entries);
                    assert(ks[pos as int] == (index, zoom_bits));
                    let p = choose|i: int| 0 <= i < ks.len() && ks[i] == (index, zoom_bits);
                    assert(p == pos);
                }
                let mut entries: Vec<(usize, u64, S)> = Vec::new();
                std::mem::swap(&mut entries, &mut self.entries);
                let entry = entries.remove(pos);
                entries.push(entry);
                proof {
                    let ks = keys_of(old_entries);
                    assert(keys_of(entries@) =~= ks.remove(pos as int).push((index, zoom_bits)));
                    assert forall|i: int, j: int|
                        0 <= i < j < keys_of(entries@).len() implies keys_of(entries@)[i]
                        != keys_of(entries@)[j] by {
                        let n = ks.len() - 1;
                        if j < n {
                            let oi = if i < pos { i } else { i + 1 };
                            let oj = if j < pos { j } else { j + 1 };
                            assert(keys_of(entries@)[i] == ks[oi]);
                            assert(keys_of(entries@)[j] == ks[oj]);
                        } else {
                            let oi = if i < pos { i } else { i + 1 };
                            assert(keys_of(entries@)[i] == ks[oi]);
                            assert(keys_of(entries@)[j] == ks[pos as int]);
                        }
                    }
                }
                self.entries = entries;
                proof {
                    let ks = keys_of(old_entries);
                    assert(keys_of(self.entries@) =~= ks.remove(pos as int).push((index, zoom_bits)));
                    assert(values_of(self.entries@) =~= values_of(old_entries).remove(pos as int).push(
                        old_entries[pos as int].2,
                    ));
                }
                let last = self.entries.len() - 1;
                Some(&self.entries[last].2)
            },
        }
    }

    /// Keeps `surface` as the page rendered for `index` at `zoom_bits`: in
    /// place of the one held for that key (which keeps its place in the
    /// order), or as the most recent entry, the least recently used ones
    /// leaving while there are more than the capacity.
    pub fn insert(&mut self, index: usize, zoom_bits: u64, surface: S)
        ensures
            final(self).capacity() == old(self).capacity(),
            (final(self).keys(), final(self).values()) == after_insert(
                old(self).keys(),
                old(self).values(),
                old(self).capacity(),
                (index, zoom_bits),
                surface,
            ),
    {
        proof {
            use_type_invariant(&*self);
        }
        match self.find(index, zoom_bits) {
            Some(pos) => {
                let ghost old_entries = self.entries@;
                proof {
                    let ks = keys_of(old_entries);
                    let p = choose|i: int| 0 <= i < ks.len() && ks[i] == (index, zoom_bits);
                    assert(ks[pos as int] == (index, zoom_bits));
                    assert(p == pos);
                }
                let mut entries: Vec<(usize, u64, S)> = Vec::new();
                std::mem::swap(&mut entries, &mut self.entries);
                entries.set(pos, (index, zoom_bits, surface));
                proof {
                    assert(keys_of(entries@) =~= keys_of(old_entries));
                }
                self.entries = entries;
                proof {
                    assert(keys_of(self.entries@) =~= keys_of(old_entries));
                    assert(values_of(self.entries@) =~= values_of(old_entries).update(
                        pos as int,
                        surface,
                    ));
                }
            },
            None => {
                let ghost old_entries = self.entries@;
                let mut entries: Vec<(usize, u64, S)> = Vec::new();
                std::mem::swap(&mut entries, &mut self.entries);
                entries.push((index, zoom_bits, surface));
                let ghost pushed = entries@;
                proof {
                    assert(keys_of(pushed) =~= keys_of(old_entries).push((index, zoom_bits)));
                    assert(values_of(pushed) =~= values_of(old_entries).push(surface));
                }
                if entries.len() > self.max_pages {
                    entries.remove(0);
                    proof {
                        assert(keys_of(entries@) =~= keys_of(pushed).skip(1));
                        assert(values_of(entries@) =~= values_of(pushed).skip(1));
                    }
                }
                proof {
                    let ks = keys_of(entries@);
                    assert forall|i: int, j: int| 0 <= i < j < ks.len() implies ks[i] != ks[j] by {
                        let d = keys_of(pushed).len() - ks.len();
                        assert(ks[i] == keys_of(pushed)[i + d]);
                        assert(ks[j] == keys_of(pushed)[j + d]);
                        if j + d == keys_of(pushed).len() - 1 {
                            assert(keys_of(old_entries)[i + d] != (index, zoom_bits));
                        } else {
                            assert(keys_of(old_entries)[i + d] == keys_of(pushed)[i + d]);
                            assert(keys_of(old_entries)[j + d] == keys_of(pushed)[j + d]);
                        }
                    }
                }
                self.entries = entries;
            },
        }
    }

    /// Forgets every page.
    pub fn clear(&mut self)
        ensures
            final(self).keys().len() == 0,
            final(self).values().len() == 0,
            final(self).capacity() == old(self).capacity(),
    {
        proof {
            use_type_invariant(&*self);
        }
        self.entries = Vec::new();
        assert(keys_of(self.entries@) =~= Seq::<PageKey>::empty());
        assert(values_of(self.entries@) =~= Seq::<S>::empty());
    }
}

} // verus!
