//! A keyed store with `u64` index keys, unique and sorted by construction.
//!
//! The integer-keyed counterpart of [`crate::strmap::StrMap`]; user records
//! are held under the indices minted by the registration counter, in
//! ascending index order, so iteration order is key order and stable.

use vstd::prelude::*;

verus! {

/// The abstract map denoted by an entry sequence.
pub open spec fn imap_of<V>(entries: Seq<(u64, V)>) -> Map<u64, V>
    decreases entries.len(),
{
    if entries.len() == 0 {
        Map::empty()
    } else {
        imap_of(entries.drop_last()).insert(entries.last().0, entries.last().1)
    }
}

pub open spec fn ikey_seq<V>(entries: Seq<(u64, V)>) -> Seq<u64> {
    entries.map_values(|e: (u64, V)| e.0)
}

pub open spec fn iunique_keys<V>(entries: Seq<(u64, V)>) -> bool {
    forall|i: int, j: int| 0 <= i < j < entries.len() ==> entries[i].0 != entries[j].0
}

pub open spec fn ihas_key<V>(entries: Seq<(u64, V)>, k: u64) -> bool {
    exists|i: int| 0 <= i < entries.len() && entries[i].0 == k
}

/// Ascending key order, the store's ordering invariant.
pub open spec fn isorted_keys(ks: Seq<u64>) -> bool {
    forall|i: int, j: int| 0 <= i < j < ks.len() ==> #[trigger] ks[i] < #[trigger] ks[j]
}

/// Removing one element keeps a sorted sequence sorted.
proof fn lemma_isorted_remove(ks: Seq<u64>, i: int)
    requires
        isorted_keys(ks),
        0 <= i < ks.len(),
    ensures
        isorted_keys(ks.remove(i)),
{
    let r = ks.remove(i);
    assert forall|a: int, b: int| 0 <= a < b < r.len() implies #[trigger] r[a] < #[trigger] r[b] by {
        let oa: int = if a < i {
            a
        } else {
            a + 1
        };
        let ob: int = if b < i {
            b
        } else {
            b + 1
        };
        assert(r[a] == ks[oa]);
        assert(r[b] == ks[ob]);
    }
}

proof fn lemma_imap_of_insert_at<V>(entries: Seq<(u64, V)>, i: int, e: (u64, V))
    requires
        !ihas_key(entries, e.0),
        0 <= i <= entries.len(),
    ensures
        imap_of(entries.insert(i, e)) =~= imap_of(entries).insert(e.0, e.1),
        ikey_seq(entries.insert(i, e)) =~= ikey_seq(entries).insert(i, e.0),
    decreases entries.len(),
{
    if i == entries.len() {
        assert(entries.insert(i, e).drop_last() =~= entries);
        assert(entries.insert(i, e).last() == e);
    } else {
        assert(entries.insert(i, e).drop_last() =~= entries.drop_last().insert(i, e));
        assert(entries.insert(i, e).last() == entries.last());
        assert(!ihas_key(entries.drop_last(), e.0)) by {
            if ihas_key(entries.drop_last(), e.0) {
                let t = choose|t: int|
                    0 <= t < entries.drop_last().len() && entries.drop_last()[t].0 == e.0;
                assert(entries[t].0 == e.0);
            }
        }
        lemma_imap_of_insert_at(entries.drop_last(), i, e);
        assert(entries.last().0 != e.0) by {
            assert(entries[entries.len() - 1].0 == entries.last().0);
        }
        assert(imap_of(entries.insert(i, e)) =~= imap_of(entries).insert(e.0, e.1));
    }
}

proof fn lemma_imap_of_domain<V>(entries: Seq<(u64, V)>, k: u64)
    ensures
        imap_of(entries).contains_key(k) <==> ihas_key(entries, k),
    decreases entries.len(),
{
    if entries.len() > 0 {
        lemma_imap_of_domain(entries.drop_last(), k);
        if entries.last().0 == k {
            assert(entries[entries.len() - 1].0 == k);
        } else {
            if ihas_key(entries, k) {
                let i = choose|i: int| 0 <= i < entries.len() && entries[i].0 == k;
                assert(i < entries.len() - 1);
                assert(entries.drop_last()[i].0 == k);
            }
            if ihas_key(entries.drop_last(), k) {
                let i = choose|i: int|
                    0 <= i < entries.drop_last().len() && entries.drop_last()[i].0 == k;
                assert(entries[i].0 == k);
            }
        }
    }
}

proof fn lemma_imap_of_get<V>(entries: Seq<(u64, V)>, i: int)
    requires
        iunique_keys(entries),
        0 <= i < entries.len(),
    ensures
        imap_of(entries).contains_key(entries[i].0),
        imap_of(entries)[entries[i].0] == entries[i].1,
    decreases entries.len(),
{
    if i < entries.len() - 1 {
        lemma_imap_of_get(entries.drop_last(), i);
        assert(entries.drop_last()[i] == entries[i]);
        assert(entries.last().0 != entries[i].0);
    }
}

proof fn lemma_imap_of_update<V>(entries: Seq<(u64, V)>, i: int, e: (u64, V))
    requires
        iunique_keys(entries),
        0 <= i < entries.len(),
        e.0 == entries[i].0,
    ensures
        imap_of(entries.update(i, e)) =~= imap_of(entries).insert(e.0, e.1),
        iunique_keys(entries.update(i, e)),
        ikey_seq(entries.update(i, e)) =~= ikey_seq(entries),
    decreases entries.len(),
{
    if i == entries.len() - 1 {
        assert(entries.update(i, e).drop_last() =~= entries.drop_last());
        assert(entries.update(i, e).last() == e);
    } else {
        lemma_imap_of_update(entries.drop_last(), i, e);
        assert(entries.update(i, e).drop_last() =~= entries.drop_last().update(i, e));
        assert(entries.update(i, e).last() == entries.last());
        assert(entries.last().0 != e.0);
        assert(imap_of(entries.update(i, e)) =~= imap_of(entries).insert(e.0, e.1));
    }
}

proof fn lemma_imap_of_remove<V>(entries: Seq<(u64, V)>, i: int)
    requires
        iunique_keys(entries),
        0 <= i < entries.len(),
    ensures
        imap_of(entries.remove(i)) =~= imap_of(entries).remove(entries[i].0),
        iunique_keys(entries.remove(i)),
        ikey_seq(entries.remove(i)) =~= ikey_seq(entries).remove(i),
    decreases entries.len(),
{
    if i == entries.len() - 1 {
        assert(entries.remove(i) =~= entries.drop_last());
        lemma_imap_of_domain(entries.drop_last(), entries[i].0);
        assert(!ihas_key(entries.drop_last(), entries[i].0));
        assert(imap_of(entries.drop_last()) =~= imap_of(entries).remove(entries[i].0));
    } else {
        lemma_imap_of_remove(entries.drop_last(), i);
        assert(entries.remove(i).drop_last() =~= entries.drop_last().remove(i));
        assert(entries.remove(i).last() == entries.last());
        assert(entries.last().0 != entries[i].0);
        assert(imap_of(entries.remove(i)) =~= imap_of(entries).remove(entries[i].0));
    }
}

/// A map from `u64` indices to values, with unique keys, kept in
/// first-insertion order.
pub struct IdxMap<V> {
    pub entries: Vec<(u64, V)>,
}

impl<V> IdxMap<V> {
    /// The finite map this store denotes.
    pub open spec fn view(self) -> Map<u64, V> {
        imap_of(self.entries@)
    }

    /// The keys in storage order.
    pub open spec fn keys(self) -> Seq<u64> {
        ikey_seq(self.entries@)
    }

    /// Key uniqueness and ordering, the store's structural invariant.
    pub open spec fn wf(self) -> bool {
        &&& iunique_keys(self.entries@)
        &&& isorted_keys(ikey_seq(self.entries@))
    }

    /// Every stored key is in the map and conversely.
    pub proof fn lemma_keys_in_map(self)
        ensures
            forall|k: u64| #[trigger] self.view().contains_key(k) <==> self.keys().contains(k),
            forall|i: int| 0 <= i < self.keys().len() ==> self.view().contains_key(#[trigger] self.keys()[i]),
    {
        assert forall|k: u64| #[trigger] self.view().contains_key(k) <==> self.keys().contains(k) by {
            lemma_imap_of_domain(self.entries@, k);
            if ihas_key(self.entries@, k) {
                let i = choose|i: int| 0 <= i < self.entries@.len() && self.entries@[i].0 == k;
                assert(self.keys()[i] == k);
            }
            if self.keys().contains(k) {
                let i = choose|i: int| 0 <= i < self.keys().len() && self.keys()[i] == k;
                assert(self.entries@[i].0 == k);
            }
        }
        assert forall|i: int| 0 <= i < self.keys().len() implies self.view().contains_key(
            #[trigger] self.keys()[i],
        ) by {
            assert(self.entries@[i].0 == self.keys()[i]);
            lemma_imap_of_domain(self.entries@, self.keys()[i]);
        }
    }

    pub fn new() -> (r: Self)
        ensures
            r.view() =~= Map::<u64, V>::empty(),
            r.keys() =~= Seq::<u64>::empty(),
            r.wf(),
    {
        IdxMap { entries: Vec::new() }
    }

    pub fn len(&self) -> (n: usize)
        ensures
            n == self.keys().len(),
    {
        self.entries.len()
    }

    fn find_index(&self, k: u64) -> (r: Option<usize>)
        ensures
            match r {
                Some(i) => i < self.entries@.len() && self.entries@[i as int].0 == k,
                None => !ihas_key(self.entries@, k),
            },
    {
        let n = self.entries.len();
        let mut i: usize = 0;
        while i < n
            invariant
                0 <= i <= n,
                n == self.entries@.len(),
                forall|j: int| 0 <= j < i ==> self.entries@[j].0 != k,
            decreases n - i,
        {
            if self.entries[i].0 == k {
                return Some(i);
            }
            i += 1;
        }
        None
    }

    pub fn contains_key(&self, k: u64) -> (b: bool)
        ensures
            b == self.view().contains_key(k),
    {
        proof {
            lemma_imap_of_domain(self.entries@, k);
        }
        self.find_index(k).is_some()
    }

    pub fn get<'a>(&'a self, k: u64) -> (r: Option<&'a V>)
        requires
            self.wf(),
        ensures
            match r {
                Some(v) => self.view().contains_key(k) && *v == self.view()[k],
                None => !self.view().contains_key(k),
            },
    {
        proof {
            lemma_imap_of_domain(self.entries@, k);
        }
        match self.find_index(k) {
            Some(i) => {
                proof {
                    lemma_imap_of_get(self.entries@, i as int);
                }
                Some(&self.entries[i].1)
            },
            None => None,
        }
    }

    /// Inserts, overwriting any entry under the same key.  A fresh key goes
    /// to its place in the key order; an overwrite keeps the order.
    pub fn insert(&mut self, k: u64, v: V)
        requires
            old(self).wf(),
        ensures
            final(self).wf(),
            final(self).view() =~= old(self).view().insert(k, v),
            old(self).view().contains_key(k) ==> final(self).keys() =~= old(self).keys(),
            !old(self).view().contains_key(k) ==> exists|i: int|
                0 <= i <= old(self).keys().len() && final(self).keys() =~= old(self).keys().insert(
                    i,
                    k,
                ),
    {
        proof {
            lemma_imap_of_domain(self.entries@, k);
        }
        let ghost ks = ikey_seq(self.entries@);
        let n = self.entries.len();
        let mut idx: usize = 0;
        // 0 still scanning; 1 the key itself sits at idx; 2 the first
        // larger key sits at idx.
        let mut decided: u8 = 0;
        while decided == 0 && idx < n
            invariant
                0 <= idx <= n,
                n == self.entries@.len(),
                *self == *old(self),
                ks == ikey_seq(self.entries@),
                decided == 0 || decided == 1 || decided == 2,
                forall|t: int| 0 <= t < idx ==> #[trigger] ks[t] < k,
                decided == 1 ==> idx < n && self.entries@[idx as int].0 == k,
                decided == 2 ==> idx < n && k < ks[idx as int],
            decreases n - idx, (if decided == 0 { 1int } else { 0int }),
        {
            let key = self.entries[idx].0;
            proof {
                assert(ks[idx as int] == self.entries@[idx as int].0);
            }
            if key == k {
                decided = 1;
            } else if k < key {
                decided = 2;
            } else {
                idx += 1;
            }
        }
        if decided == 1 {
            // Same key: overwrite in place, the order is untouched.
            proof {
                lemma_imap_of_update(self.entries@, idx as int, (k, v));
            }
            self.entries.remove(idx);
            self.entries.insert(idx, (k, v));
            proof {
                assert(self.entries@ =~= old(self).entries@.update(idx as int, (k, v)));
            }
            return ;
        }
        // Every key before `idx` is below `k`, and the key at `idx`, when
        // there is one, is above it: `idx` is `k`'s place in the order.
        proof {
            assert(decided == 0 ==> idx == n);
            assert(!ihas_key(self.entries@, k)) by {
                if ihas_key(self.entries@, k) {
                    let t = choose|t: int|
                        0 <= t < self.entries@.len() && self.entries@[t].0 == k;
                    assert(ks[t] == k);
                    if t > idx {
                        assert(ks[idx as int] < ks[t]);
                    }
                }
            }
            lemma_imap_of_insert_at(self.entries@, idx as int, (k, v));
            let nks = ks.insert(idx as int, k);
            assert(isorted_keys(nks)) by {
                assert forall|a: int, b: int| 0 <= a < b < nks.len() implies #[trigger] nks[a]
                    < #[trigger] nks[b] by {
                    if a == idx {
                        assert(nks[b] == ks[b - 1]);
                        assert(b - 1 >= idx);
                    } else if b == idx {
                        assert(nks[a] == ks[a]);
                    } else if a < idx && b > idx {
                        assert(nks[a] == ks[a]);
                        assert(nks[b] == ks[b - 1]);
                        assert(a < b - 1) by {
                            assert(b - 1 >= idx);
                        }
                    } else if b < idx {
                        assert(nks[a] == ks[a]);
                        assert(nks[b] == ks[b]);
                    } else {
                        assert(nks[a] == ks[a - 1]);
                        assert(nks[b] == ks[b - 1]);
                    }
                }
            }
            let nentries = self.entries@.insert(idx as int, (k, v));
            assert(ikey_seq(nentries) =~= nks);
            assert(iunique_keys(nentries)) by {
                assert forall|i: int, j: int|
                    0 <= i < j < nentries.len() implies nentries[i].0 != nentries[j].0 by {
                    assert(ikey_seq(nentries)[i] == nentries[i].0);
                    assert(ikey_seq(nentries)[j] == nentries[j].0);
                    assert(nks[i] < nks[j]);
                }
            }
        }
        self.entries.insert(idx, (k, v));
        proof {
            assert(0 <= idx as int <= old(self).keys().len() && self.keys() =~= old(
                self,
            ).keys().insert(idx as int, k));
        }
    }

    /// Removes the entry under `k`, if any; the other entries keep their
    /// order.
    pub fn remove(&mut self, k: u64)
        requires
            old(self).wf(),
        ensures
            final(self).wf(),
            final(self).view() =~= old(self).view().remove(k),
            !old(self).view().contains_key(k) ==> *final(self) == *old(self),
            old(self).view().contains_key(k) ==> exists|i: int|
                0 <= i < old(self).keys().len() && old(self).keys()[i] == k && final(self).keys()
                    =~= old(self).keys().remove(i),
    {
        proof {
            lemma_imap_of_domain(self.entries@, k);
        }
        match self.find_index(k) {
            Some(i) => {
                proof {
                    lemma_imap_of_remove(self.entries@, i as int);
                    lemma_isorted_remove(ikey_seq(self.entries@), i as int);
                    assert(old(self).keys()[i as int] == k);
                }
                self.entries.remove(i);
            },
            None => {
                proof {
                    assert(self.view() =~= self.view().remove(k));
                }
            },
        }
    }

    /// The key at position `i` of the storage order.
    pub fn key_at(&self, i: usize) -> (r: u64)
        requires
            i < self.keys().len(),
        ensures
            r == self.keys()[i as int],
    {
        self.entries[i].0
    }

    /// The value stored under the key at position `i`.
    pub fn value_at(&self, i: usize) -> (r: &V)
        requires
            self.wf(),
            i < self.keys().len(),
        ensures
            self.view().contains_key(self.keys()[i as int]),
            *r == self.view()[self.keys()[i as int]],
    {
        proof {
            lemma_imap_of_get(self.entries@, i as int);
        }
        &self.entries[i].1
    }
}

} // verus!
