//! A keyed store with `String` keys, unique and sorted by construction.
//!
//! Entries are held in a vector in ascending lexicographic key order (by
//! code point), so iteration order is key order and stable; the abstract
//! view is the finite map from key characters to values, and the key
//! sequence is exposed so that listing operations can state their exact
//! output.

use vstd::prelude::*;

verus! {

/// A witness that `a` is lexicographically before `b`: the sequences agree
/// up to position `j`, where `a` either ends or carries the smaller code
/// point.
pub open spec fn lex_lt_at(a: Seq<char>, b: Seq<char>, j: int) -> bool {
    &&& 0 <= j <= a.len()
    &&& j <= b.len()
    &&& forall|i: int| 0 <= i < j ==> a[i] == b[i]
    &&& ((j == a.len() && j < b.len()) || (j < a.len() && j < b.len() && (a[j] as u32) < (b[j]
        as u32)))
}

/// Strict lexicographic order on character sequences, by code point, the
/// key order of the store.
pub open spec fn lex_lt(a: Seq<char>, b: Seq<char>) -> bool {
    exists|j: int| lex_lt_at(a, b, j)
}

pub proof fn lemma_lex_lt_irrefl(a: Seq<char>)
    ensures
        !lex_lt(a, a),
{
    if lex_lt(a, a) {
        let j = choose|j: int| lex_lt_at(a, a, j);
        assert(false);
    }
}

pub proof fn lemma_lex_lt_trans(a: Seq<char>, b: Seq<char>, c: Seq<char>)
    requires
        lex_lt(a, b),
        lex_lt(b, c),
    ensures
        lex_lt(a, c),
{
    let j1 = choose|j: int| lex_lt_at(a, b, j);
    let j2 = choose|j: int| lex_lt_at(b, c, j);
    if j1 <= j2 {
        assert(lex_lt_at(a, c, j1));
    } else {
        assert(lex_lt_at(a, c, j2));
    }
}

/// Ascending key order, the store's ordering invariant.
pub open spec fn sorted_keys(ks: Seq<Seq<char>>) -> bool {
    forall|i: int, j: int| 0 <= i < j < ks.len() ==> lex_lt(#[trigger] ks[i], #[trigger] ks[j])
}

/// Strictly sorted keys never repeat.
pub proof fn lemma_sorted_unique(ks: Seq<Seq<char>>)
    requires
        sorted_keys(ks),
    ensures
        forall|i: int, j: int| 0 <= i < j < ks.len() ==> #[trigger] ks[i] != #[trigger] ks[j],
{
    assert forall|i: int, j: int|
        0 <= i < j < ks.len() implies #[trigger] ks[i] != #[trigger] ks[j] by {
        if ks[i] == ks[j] {
            lemma_lex_lt_irrefl(ks[i]);
        }
    }
}

/// The abstract map denoted by an entry sequence: later entries win, though
/// with unique keys every entry is the only one for its key.
pub open spec fn map_of<V>(entries: Seq<(String, V)>) -> Map<Seq<char>, V>
    decreases entries.len(),
{
    if entries.len() == 0 {
        Map::empty()
    } else {
        map_of(entries.drop_last()).insert(entries.last().0@, entries.last().1)
    }
}

pub open spec fn key_seq<V>(entries: Seq<(String, V)>) -> Seq<Seq<char>> {
    entries.map_values(|e: (String, V)| e.0@)
}

pub open spec fn unique_keys<V>(entries: Seq<(String, V)>) -> bool {
    forall|i: int, j: int|
        0 <= i < j < entries.len() ==> entries[i].0@ != entries[j].0@
}

pub open spec fn has_key<V>(entries: Seq<(String, V)>, k: Seq<char>) -> bool {
    exists|i: int| 0 <= i < entries.len() && entries[i].0@ == k
}

proof fn lemma_map_of_domain<V>(entries: Seq<(String, V)>, k: Seq<char>)
    ensures
        map_of(entries).contains_key(k) <==> has_key(entries, k),
    decreases entries.len(),
{
    if entries.len() > 0 {
        lemma_map_of_domain(entries.drop_last(), k);
        if entries.last().0@ == k {
            assert(entries[entries.len() - 1].0@ == k);
        } else {
            if has_key(entries, k) {
                let i = choose|i: int| 0 <= i < entries.len() && entries[i].0@ == k;
                assert(i < entries.len() - 1);
                assert(entries.drop_last()[i].0@ == k);
                assert(has_key(entries.drop_last(), k));
            }
            if has_key(entries.drop_last(), k) {
                let i = choose|i: int|
                    0 <= i < entries.drop_last().len() && entries.drop_last()[i].0@ == k;
                assert(entries[i].0@ == k);
            }
        }
    }
}

proof fn lemma_map_of_get<V>(entries: Seq<(String, V)>, i: int)
    requires
        unique_keys(entries),
        0 <= i < entries.len(),
    ensures
        map_of(entries).contains_key(entries[i].0@),
        map_of(entries)[entries[i].0@] == entries[i].1,
    decreases entries.len(),
{
    if i < entries.len() - 1 {
        lemma_map_of_get(entries.drop_last(), i);
        assert(entries.drop_last()[i] == entries[i]);
        assert(entries.last().0@ != entries[i].0@);
    }
}

proof fn lemma_map_of_update<V>(entries: Seq<(String, V)>, i: int, e: (String, V))
    requires
        unique_keys(entries),
        0 <= i < entries.len(),
        e.0@ == entries[i].0@,
    ensures
        map_of(entries.update(i, e)) =~= map_of(entries).insert(e.0@, e.1),
        unique_keys(entries.update(i, e)),
        key_seq(entries.update(i, e)) =~= key_seq(entries),
    decreases entries.len(),
{
    if i == entries.len() - 1 {
        assert(entries.update(i, e).drop_last() =~= entries.drop_last());
        assert(entries.update(i, e).last() == e);
    } else {
        lemma_map_of_update(entries.drop_last(), i, e);
        assert(entries.update(i, e).drop_last() =~= entries.drop_last().update(i, e));
        assert(entries.update(i, e).last() == entries.last());
        assert(entries.last().0@ != e.0@);
        assert(map_of(entries.update(i, e)) =~= map_of(entries).insert(e.0@, e.1));
    }
}

proof fn lemma_map_of_insert_at<V>(entries: Seq<(String, V)>, i: int, e: (String, V))
    requires
        !has_key(entries, e.0@),
        0 <= i <= entries.len(),
    ensures
        map_of(entries.insert(i, e)) =~= map_of(entries).insert(e.0@, e.1),
        key_seq(entries.insert(i, e)) =~= key_seq(entries).insert(i, e.0@),
    decreases entries.len(),
{
    if i == entries.len() {
        assert(entries.insert(i, e).drop_last() =~= entries);
        assert(entries.insert(i, e).last() == e);
    } else {
        assert(entries.insert(i, e).drop_last() =~= entries.drop_last().insert(i, e));
        assert(entries.insert(i, e).last() == entries.last());
        assert(!has_key(entries.drop_last(), e.0@)) by {
            if has_key(entries.drop_last(), e.0@) {
                let t = choose|t: int|
                    0 <= t < entries.drop_last().len() && entries.drop_last()[t].0@ == e.0@;
                assert(entries[t].0@ == e.0@);
            }
        }
        lemma_map_of_insert_at(entries.drop_last(), i, e);
        assert(entries.last().0@ != e.0@) by {
            assert(entries[entries.len() - 1].0@ == entries.last().0@);
        }
        assert(map_of(entries.insert(i, e)) =~= map_of(entries).insert(e.0@, e.1));
    }
}

proof fn lemma_map_of_remove<V>(entries: Seq<(String, V)>, i: int)
    requires
        unique_keys(entries),
        0 <= i < entries.len(),
    ensures
        map_of(entries.remove(i)) =~= map_of(entries).remove(entries[i].0@),
        unique_keys(entries.remove(i)),
        key_seq(entries.remove(i)) =~= key_seq(entries).remove(i),
    decreases entries.len(),
{
    lemma_map_of_domain(entries.remove(i), entries[i].0@);
    if i == entries.len() - 1 {
        assert(entries.remove(i) =~= entries.drop_last());
        lemma_map_of_domain(entries.drop_last(), entries[i].0@);
        assert(!has_key(entries.drop_last(), entries[i].0@));
        assert(map_of(entries.drop_last()) =~= map_of(entries).remove(entries[i].0@)) by {
            lemma_map_of_domain(entries.drop_last(), entries[i].0@);
        }
    } else {
        lemma_map_of_remove(entries.drop_last(), i);
        assert(entries.remove(i).drop_last() =~= entries.drop_last().remove(i));
        assert(entries.remove(i).last() == entries.last());
        assert(entries.last().0@ != entries[i].0@);
        assert(map_of(entries.remove(i)) =~= map_of(entries).remove(entries[i].0@));
    }
}

/// Removing one element keeps a sorted sequence sorted.
proof fn lemma_sorted_remove(ks: Seq<Seq<char>>, i: int)
    requires
        sorted_keys(ks),
        0 <= i < ks.len(),
    ensures
        sorted_keys(ks.remove(i)),
{
    let r = ks.remove(i);
    assert forall|a: int, b: int| 0 <= a < b < r.len() implies lex_lt(
        #[trigger] r[a],
        #[trigger] r[b],
    ) by {
        let oa: int = if a < i { a } else { a + 1 };
        let ob: int = if b < i { b } else { b + 1 };
        assert(r[a] == ks[oa]);
        assert(r[b] == ks[ob]);
    }
}

/// Three-way string comparison in the store's key order.
fn str_cmp(a: &String, b: &String) -> (r: u8)
    ensures
        r == 0 || r == 1 || r == 2,
        r == 0 ==> a@ == b@,
        r == 1 ==> lex_lt(a@, b@),
        r == 2 ==> lex_lt(b@, a@),
{
    let sa = a.as_str();
    let sb = b.as_str();
    let na = sa.unicode_len();
    let nb = sb.unicode_len();
    let min = if na < nb {
        na
    } else {
        nb
    };
    let mut i: usize = 0;
    while i < min
        invariant
            0 <= i <= min,
            min <= na,
            min <= nb,
            min == if na < nb { na } else { nb },
            na == a@.len(),
            nb == b@.len(),
            sa@ == a@,
            sb@ == b@,
            forall|t: int| 0 <= t < i ==> a@[t] == b@[t],
        decreases min - i,
    {
        let ca = sa.get_char(i);
        let cb = sb.get_char(i);
        if ca != cb {
            if (ca as u32) < (cb as u32) {
                proof {
                    assert(lex_lt_at(a@, b@, i as int));
                }
                return 1;
            } else {
                proof {
                    assert((cb as u32) < (ca as u32));
                    assert(lex_lt_at(b@, a@, i as int));
                }
                return 2;
            }
        }
        i += 1;
    }
    if na == nb {
        proof {
            assert(a@ =~= b@);
        }
        0
    } else if na < nb {
        proof {
            assert(lex_lt_at(a@, b@, na as int));
        }
        1
    } else {
        proof {
            assert(lex_lt_at(b@, a@, nb as int));
        }
        2
    }
}

/// A map from string keys to values, with unique keys, kept in ascending
/// key order.
pub struct StrMap<V> {
    pub entries: Vec<(String, V)>,
}

impl<V> StrMap<V> {
    /// The finite map this store denotes.
    pub open spec fn view(self) -> Map<Seq<char>, V> {
        map_of(self.entries@)
    }

    /// The keys in storage order, which is ascending key order.
    pub open spec fn keys(self) -> Seq<Seq<char>> {
        key_seq(self.entries@)
    }

    /// Key uniqueness and ordering, the store's structural invariant.
    pub open spec fn wf(self) -> bool {
        &&& unique_keys(self.entries@)
        &&& sorted_keys(key_seq(self.entries@))
    }

    /// Every stored key is in the map and conversely.
    pub proof fn lemma_keys_in_map(self)
        ensures
            forall|k: Seq<char>| #[trigger] self.view().contains_key(k) <==> self.keys().contains(k),
            forall|i: int| 0 <= i < self.keys().len() ==> self.view().contains_key(#[trigger] self.keys()[i]),
    {
        assert forall|k: Seq<char>| #[trigger] self.view().contains_key(k) <==> self.keys().contains(k) by {
            lemma_map_of_domain(self.entries@, k);
            if has_key(self.entries@, k) {
                let i = choose|i: int| 0 <= i < self.entries@.len() && self.entries@[i].0@ == k;
                assert(self.keys()[i] == k);
            }
            if self.keys().contains(k) {
                let i = choose|i: int| 0 <= i < self.keys().len() && self.keys()[i] == k;
                assert(self.entries@[i].0@ == k);
            }
        }
        assert forall|i: int| 0 <= i < self.keys().len() implies self.view().contains_key(#[trigger] self.keys()[i]) by {
            assert(self.entries@[i].0@ == self.keys()[i]);
            lemma_map_of_domain(self.entries@, self.keys()[i]);
        }
    }

    pub fn new() -> (r: Self)
        ensures
            r.view() =~= Map::<Seq<char>, V>::empty(),
            r.keys() =~= Seq::<Seq<char>>::empty(),
            r.wf(),
    {
        StrMap { entries: Vec::new() }
    }

    pub fn len(&self) -> (n: usize)
        ensures
            n == self.keys().len(),
    {
        self.entries.len()
    }

    fn find_index(&self, k: &String) -> (r: Option<usize>)
        ensures
            match r {
                Some(i) => i < self.entries@.len() && self.entries@[i as int].0@ == k@,
                None => !has_key(self.entries@, k@),
            },
    {
        let n = self.entries.len();
        let mut i: usize = 0;
        while i < n
            invariant
                0 <= i <= n,
                n == self.entries@.len(),
                forall|j: int| 0 <= j < i ==> self.entries@[j].0@ != k@,
            decreases n - i,
        {
            if self.entries[i].0.eq(k) {
                return Some(i);
            }
            i += 1;
        }
        None
    }

    pub fn contains_key(&self, k: &String) -> (b: bool)
        ensures
            b == self.view().contains_key(k@),
    {
        proof {
            lemma_map_of_domain(self.entries@, k@);
        }
        self.find_index(k).is_some()
    }

    pub fn get<'a>(&'a self, k: &String) -> (r: Option<&'a V>)
        requires
            self.wf(),
        ensures
            match r {
                Some(v) => self.view().contains_key(k@) && *v == self.view()[k@],
                None => !self.view().contains_key(k@),
            },
    {
        proof {
            lemma_map_of_domain(self.entries@, k@);
        }
        match self.find_index(k) {
            Some(i) => {
                proof {
                    lemma_map_of_get(self.entries@, i as int);
                }
                Some(&self.entries[i].1)
            },
            None => None,
        }
    }

    /// Inserts, overwriting any entry under the same key.  A fresh key goes
    /// to its place in the key order; an overwrite keeps the order.
    pub fn insert(&mut self, k: String, v: V)
        requires
            old(self).wf(),
        ensures
            final(self).wf(),
            final(self).view() =~= old(self).view().insert(k@, v),
            old(self).view().contains_key(k@) ==> final(self).keys() =~= old(self).keys(),
            !old(self).view().contains_key(k@) ==> exists|i: int|
                0 <= i <= old(self).keys().len() && final(self).keys() =~= old(self).keys().insert(
                    i,
                    k@,
                ),
    {
        proof {
            lemma_map_of_domain(self.entries@, k@);
        }
        let ghost ks = key_seq(self.entries@);
        let n = self.entries.len();
        let mut idx: usize = 0;
        // 0 still scanning; 1 the key itself sits at idx; 2 the first
        // larger key sits at idx.
        let mut decided: u8 = 0;
        while decided == 0 && idx < n
            invariant
                0 <= idx <= n,
                n == self.entries@.len(),
                *self == *old(self),
                ks == key_seq(self.entries@),
                decided == 0 || decided == 1 || decided == 2,
                forall|t: int| 0 <= t < idx ==> lex_lt(#[trigger] ks[t], k@),
                decided == 1 ==> idx < n && self.entries@[idx as int].0@ == k@,
                decided == 2 ==> idx < n && lex_lt(k@, ks[idx as int]),
            decreases n - idx, (if decided == 0 { 1int } else { 0int }),
        {
            let cmp = str_cmp(&self.entries[idx].0, &k);
            if cmp == 0 {
                decided = 1;
            } else if cmp == 2 {
                proof {
                    assert(ks[idx as int] == self.entries@[idx as int].0@);
                }
                decided = 2;
            } else {
                proof {
                    assert(ks[idx as int] == self.entries@[idx as int].0@);
                }
                idx += 1;
            }
        }
        if decided == 1 {
            // Same key: overwrite in place, the order is untouched.
            proof {
                lemma_map_of_update(self.entries@, idx as int, (k, v));
            }
            self.entries.remove(idx);
            self.entries.insert(idx, (k, v));
            proof {
                assert(self.entries@ =~= old(self).entries@.update(idx as int, (k, v)));
            }
            return ;
        }
        // Every key before `idx` is below `k`, and the key at `idx`, when
        // there is one, is above it: `idx` is `k`'s place in the order.
        proof {
            assert(decided == 0 ==> idx == n);
            assert(!has_key(self.entries@, k@)) by {
                if has_key(self.entries@, k@) {
                    let t = choose|t: int|
                        0 <= t < self.entries@.len() && self.entries@[t].0@ == k@;
                    assert(ks[t] == k@);
                    if t < idx {
                        assert(lex_lt(ks[t], k@));
                        lemma_lex_lt_irrefl(k@);
                    } else if t == idx {
                        assert(lex_lt(k@, ks[idx as int]));
                        lemma_lex_lt_irrefl(k@);
                    } else {
                        assert(lex_lt(ks[idx as int], ks[t]));
                        lemma_lex_lt_trans(k@, ks[idx as int], ks[t]);
                        lemma_lex_lt_irrefl(k@);
                    }
                }
            }
            lemma_map_of_insert_at(self.entries@, idx as int, (k, v));
            let nks = ks.insert(idx as int, k@);
            assert(sorted_keys(nks)) by {
                assert forall|a: int, b: int| 0 <= a < b < nks.len() implies lex_lt(
                    #[trigger] nks[a],
                    #[trigger] nks[b],
                ) by {
                    if a == idx {
                        assert(nks[b] == ks[b - 1]);
                        assert(b - 1 >= idx);
                        if b - 1 == idx {
                            assert(lex_lt(k@, ks[idx as int]));
                        } else {
                            assert(lex_lt(ks[idx as int], ks[b - 1]));
                            lemma_lex_lt_trans(k@, ks[idx as int], ks[b - 1]);
                        }
                    } else if b == idx {
                        assert(nks[a] == ks[a]);
                        assert(lex_lt(ks[a], k@));
    } else if a < idx && b > idx {
                        assert(nks[a] == ks[a]);
                        assert(nks[b] == ks[b - 1]);
                        assert(a < b - 1) by {
                            assert(b - 1 >= idx);
                        }
                    } else if b < idx {
                        assert(nks[a] == ks[a]);
                        assert(nks[b] == ks[b]);
                    } else {
                        assert(nks[a] == ks[a - 1]);
                        assert(nks[b] == ks[b - 1]);
                    }
                }
            }
            lemma_sorted_unique(nks);
            let nentries = self.entries@.insert(idx as int, (k, v));
            assert(key_seq(nentries) =~= nks);
            assert(unique_keys(nentries)) by {
                assert forall|i: int, j: int|
                    0 <= i < j < nentries.len() implies nentries[i].0@ != nentries[j].0@ by {
                    assert(key_seq(nentries)[i] == nentries[i].0@);
                    assert(key_seq(nentries)[j] == nentries[j].0@);
                    assert(nks[i] != nks[j]);
                }
            }
        }
        self.entries.insert(idx, (k, v));
        proof {
            assert(0 <= idx as int <= old(self).keys().len() && self.keys() =~= old(
                self,
            ).keys().insert(idx as int, k@));
        }
    }

    /// Removes the entry under `k`, if any; the other entries keep their
    /// order.
    pub fn remove(&mut self, k: &String)
        requires
            old(self).wf(),
        ensures
            final(self).wf(),
            final(self).view() =~= old(self).view().remove(k@),
            !old(self).view().contains_key(k@) ==> *final(self) == *old(self),
            old(self).view().contains_key(k@) ==> exists|i: int|
                0 <= i < old(self).keys().len() && old(self).keys()[i] == k@ && final(self).keys()
                    =~= old(self).keys().remove(i),
    {
        proof {
            lemma_map_of_domain(self.entries@, k@);
        }
        match self.find_index(k) {
            Some(i) => {
                proof {
                    lemma_map_of_remove(self.entries@, i as int);
                    lemma_sorted_remove(key_seq(self.entries@), i as int);
                    assert(old(self).keys()[i as int] == k@);
                }
                self.entries.remove(i);
            },
            None => {
                proof {
                    assert(!self.view().contains_key(k@));
                    assert(self.view() =~= self.view().remove(k@));
                }
            },
        }
    }

    /// The key at position `i` of the key order.
    pub fn key_at(&self, i: usize) -> (r: &String)
        requires
            i < self.keys().len(),
        ensures
            r@ == self.keys()[i as int],
    {
        &self.entries[i].0
    }

    /// The value stored under the key at position `i`.
    pub fn value_at(&self, i: usize) -> (r: &V)
        requires
            self.wf(),
            i < self.keys().len(),
        ensures
            self.view().contains_key(self.keys()[i as int]),
            *r == self.view()[self.keys()[i as int]],
    {
        proof {
            lemma_map_of_get(self.entries@, i as int);
        }
        &self.entries[i].1
    }
}

} // verus!
