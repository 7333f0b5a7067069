//! Secondary indexes over interned keys: a hash-style point-lookup
//! index mapping a key to the ids that carry it, with an optional
//! uniqueness constraint, and a key-ordered index answering range
//! lookups in key order.

use vstd::prelude::*;

use crate::property::{
    assoc_map, distinct_keys, lemma_assoc_at, lemma_assoc_contains, lemma_assoc_update,
    lemma_push_contains,
};

verus! {

/// Point-lookup index: each key maps to the ids posted under it. A
/// unique index holds at most one id per key and reports the
/// conflict instead of storing a second.
pub struct HashIndex {
    /// One posting list per key.
    postings: Vec<(u64, Vec<u64>)>,
    /// Whether a key may carry at most one id.
    unique: bool,
}

impl HashIndex {
    /// Postings as (key, ids) pairs.
    pub closed spec fn postings_seq(self) -> Seq<(u64, Seq<u64>)> {
        self.postings@.map_values(|p: (u64, Vec<u64>)| (p.0, p.1@))
    }

    /// The index as a map from key to its posted ids, in posting
    /// order.
    pub open spec fn index_map(self) -> Map<u64, Seq<u64>> {
        assoc_map(self.postings_seq())
    }

    /// Whether the index enforces at most one id per key.
    pub closed spec fn spec_unique(self) -> bool {
        self.unique
    }

    /// Well-formed: one posting list per key, and under the
    /// uniqueness constraint no list holds two ids.
    pub open spec fn wf(self) -> bool {
        &&& distinct_keys(self.postings_seq())
        &&& (self.spec_unique() ==> forall|i: int|
            0 <= i < self.postings_seq().len() ==> (#[trigger] self.postings_seq()[i]).1.len()
                <= 1)
    }

    /// A fresh empty index; `unique` turns the uniqueness
    /// constraint on.
    pub fn new(unique: bool) -> (r: HashIndex)
        ensures
            r.wf(),
            r.spec_unique() == unique,
            r.index_map() == Map::<u64, Seq<u64>>::empty(),
    {
        let r = HashIndex { postings: Vec::new(), unique };
        proof {
            assert(r.postings_seq() =~= Seq::<(u64, Seq<u64>)>::empty());
        }
        r
    }

    /// Position of the posting list of `key`, if one exists.
    fn find_key(&self, key: u64) -> (r: Option<usize>)
        ensures
            match r {
                Some(i) => i < self.postings_seq().len() && self.postings_seq()[i as int].0 == key,
                None => forall|j: int|
                    0 <= j < self.postings_seq().len() ==> (#[trigger] self.postings_seq()[j]).0
                        != key,
            },
    {
        let n = self.postings.len();
        let mut j: usize = 0;
        while j < n
            invariant
                j <= n,
                n == self.postings@.len(),
                forall|a: int| 0 <= a < j ==> (#[trigger] self.postings_seq()[a]).0 != key,
            decreases n - j,
        {
            if self.postings[j].0 == key {
                return Some(j);
            }
            j = j + 1;
        }
        None
    }

    /// Posts an id under a key. On a unique index a key that
    /// already carries a different id is left unchanged and the
    /// conflict is reported as `false`; posting the same id again
    /// changes nothing. A non-unique index appends, duplicates
    /// included.
    pub fn insert(&mut self, key: u64, id: u64) -> (r: bool)
        requires
            old(self).wf(),
        ensures
            final(self).wf(),
            final(self).spec_unique() == old(self).spec_unique(),
            r <==> !(old(self).spec_unique() && old(self).index_map().contains_key(key) && old(
                self,
            ).index_map()[key].len() > 0 && old(self).index_map()[key][0] != id),
            r && old(self).spec_unique() && old(self).index_map().contains_key(key) && old(
                self,
            ).index_map()[key].len() > 0 ==> final(self).index_map() == old(self).index_map(),
            r && !(old(self).spec_unique() && old(self).index_map().contains_key(key) && old(
                self,
            ).index_map()[key].len() > 0) ==> final(self).index_map() == old(
                self,
            ).index_map().insert(
                key,
                (if old(self).index_map().contains_key(key) {
                    old(self).index_map()[key]
                } else {
                    Seq::<u64>::empty()
                }).push(id),
            ),
            !r ==> final(self).index_map() == old(self).index_map(),
    {
        let ghost old_postings = self.postings_seq();
        let found = self.find_key(key);
        match found {
            Some(i) => {
                proof {
                    lemma_assoc_at(old_postings, i as int);
                }
                if self.unique && self.postings[i].1.len() > 0 {
                    // The slot is taken: either by this id, which is
                    // fine, or by another, which is the conflict.
                    let existing = self.postings[i].1[0];
                    return existing == id;
                }
                let mut pair = self.postings.remove(i);
                pair.1.push(id);
                let ghost new_ids = pair.1@;
                self.postings.insert(i, pair);
                proof {
                    assert(self.postings_seq() =~= old_postings.update(i as int, (key, new_ids)));
                    lemma_assoc_update(old_postings, i as int, new_ids);
                }
                true
            },
            None => {
                proof {
                    lemma_assoc_contains(old_postings, key);
                }
                let mut ids: Vec<u64> = Vec::new();
                ids.push(id);
                let ghost new_ids = ids@;
                self.postings.push((key, ids));
                proof {
                    assert(self.postings_seq() =~= old_postings.push((key, new_ids)));
                    assert(self.postings_seq().drop_last() =~= old_postings);
                    assert(self.postings_seq().last() == (key, new_ids));
                    assert(self.index_map() =~= assoc_map(old_postings).insert(key, new_ids));
                    assert(new_ids =~= Seq::<u64>::empty().push(id));
                }
                true
            },
        }
    }

    /// The ids posted under a key, in posting order; empty for an
    /// unknown key.
    pub fn lookup(&self, key: u64) -> (r: Vec<u64>)
        requires
            self.wf(),
        ensures
            r@ == (if self.index_map().contains_key(key) {
                self.index_map()[key]
            } else {
                Seq::<u64>::empty()
            }),
    {
        let found = self.find_key(key);
        proof {
            lemma_assoc_contains(self.postings_seq(), key);
        }
        match found {
            Some(i) => {
                proof {
                    lemma_assoc_at(self.postings_seq(), i as int);
                }
                let ids = &self.postings[i].1;
                let n = ids.len();
                let mut out: Vec<u64> = Vec::new();
                let mut j: usize = 0;
                while j < n
                    invariant
                        j <= n,
                        n == ids@.len(),
                        out@.len() == j,
                        forall|k: int| 0 <= k < j ==> #[trigger] out@[k] == ids@[k],
                    decreases n - j,
                {
                    out.push(ids[j]);
                    j = j + 1;
                }
                proof {
                    assert(out@ =~= ids@);
                }
                out
            },
            None => Vec::new(),
        }
    }
}

/// Key-ordered index: (key, id) pairs kept sorted by key, answering
/// range lookups in key order.
pub struct OrderedIndex {
    /// The (key, id) pairs, sorted by key.
    entries: Vec<(u64, u64)>,
}

/// Whether a pair sequence is sorted by key.
pub open spec fn keys_sorted(s: Seq<(u64, u64)>) -> bool {
    forall|i: int, j: int| 0 <= i < j < s.len() ==> (#[trigger] s[i]).0 <= (#[trigger] s[j]).0
}

/// Position where a key belongs in a sorted pair list: after every
/// pair whose key is at or before it.
fn find_key_pos(entries: &Vec<(u64, u64)>, key: u64) -> (p: usize)
    requires
        keys_sorted(entries@),
    ensures
        p <= entries@.len(),
        forall|i: int| 0 <= i < p ==> (#[trigger] entries@[i]).0 <= key,
        p < entries@.len() ==> entries@[p as int].0 > key,
{
    let n = entries.len();
    let mut p: usize = 0;
    while p < n
        invariant
            p <= n,
            n == entries@.len(),
            forall|i: int| 0 <= i < p ==> (#[trigger] entries@[i]).0 <= key,
        decreases n - p,
    {
        if entries[p].0 > key {
            return p;
        }
        p = p + 1;
    }
    p
}

impl OrderedIndex {
    /// The stored pairs, in key order.
    pub closed spec fn entries_seq(self) -> Seq<(u64, u64)> {
        self.entries@
    }

    /// Well-formed: sorted by key.
    pub open spec fn wf(self) -> bool {
        keys_sorted(self.entries_seq())
    }

    /// A fresh empty index.
    pub fn new() -> (r: OrderedIndex)
        ensures
            r.wf(),
            r.entries_seq() == Seq::<(u64, u64)>::empty(),
    {
        OrderedIndex { entries: Vec::new() }
    }

    /// Inserts a pair at its place in key order; existing pairs of
    /// the same key stay before it.
    pub fn insert(&mut self, key: u64, id: u64)
        requires
            old(self).wf(),
        ensures
            final(self).wf(),
            final(self).entries_seq().len() == old(self).entries_seq().len() + 1,
            forall|p: (u64, u64)|
                final(self).entries_seq().contains(p) <==> (old(self).entries_seq().contains(p)
                    || p == (key, id)),
    {
        let p = find_key_pos(&self.entries, key);
        let ghost pre = self.entries@;
        let ghost pos = p as int;
        self.entries.insert(p, (key, id));
        proof {
            assert forall|i: int, j: int|
                0 <= i < j < self.entries@.len() implies (#[trigger] self.entries@[i]).0 <= (
            #[trigger] self.entries@[j]).0 by {
                if i < pos && j == pos {
                    assert(self.entries@[i] == pre[i]);
                } else if i == pos && j > pos {
                    assert(self.entries@[j] == pre[j - 1]);
                } else if i < pos && j > pos {
                    assert(self.entries@[i] == pre[i] && self.entries@[j] == pre[j - 1]);
                } else if i < pos && j < pos {
                    assert(self.entries@[i] == pre[i] && self.entries@[j] == pre[j]);
                } else if i > pos && j > pos {
                    assert(self.entries@[i] == pre[i - 1] && self.entries@[j] == pre[j - 1]);
                }
            }
            assert forall|q: (u64, u64)|
                self.entries@.contains(q) implies (pre.contains(q) || q == (key, id)) by {
                let k = choose|k: int| 0 <= k < self.entries@.len() && self.entries@[k] == q;
                if k < pos {
                    assert(pre[k] == q);
                } else if k > pos {
                    assert(pre[k - 1] == q);
                }
            }
            assert forall|q: (u64, u64)|
                (pre.contains(q) || q == (key, id)) implies self.entries@.contains(q) by {
                if q == (key, id) {
                    assert(self.entries@[pos] == q);
                } else {
                    let k = choose|k: int| 0 <= k < pre.len() && pre[k] == q;
                    if k < pos {
                        assert(self.entries@[k] == q);
                    } else {
                        assert(self.entries@[k + 1] == q);
                    }
                }
            }
        }
    }

    /// The pairs whose key lies in `[lo, hi]`, in key order: exactly
    /// the stored pairs of the range, sorted like the index.
    pub fn range(&self, lo: u64, hi: u64) -> (r: Vec<(u64, u64)>)
        requires
            self.wf(),
        ensures
            forall|p: (u64, u64)|
                r@.contains(p) <==> (self.entries_seq().contains(p) && lo <= p.0 <= hi),
            keys_sorted(r@),
    {
        let n = self.entries.len();
        let mut out: Vec<(u64, u64)> = Vec::new();
        let mut i: usize = 0;
        while i < n
            invariant
                i <= n,
                n == self.entries@.len(),
                self.wf(),
                keys_sorted(out@),
                forall|p: (u64, u64)| #[trigger]
                    out@.contains(p) ==> (self.entries_seq().contains(p) && lo <= p.0 <= hi),
                forall|k: int|
                    0 <= k < i && lo <= (#[trigger] self.entries@[k]).0 <= hi ==> out@.contains(
                        self.entries@[k],
                    ),
                out@.len() > 0 ==> (i > 0 && out@.last().0 <= self.entries@[i - 1].0),
            decreases n - i,
        {
            let e = self.entries[i];
            if lo <= e.0 && e.0 <= hi {
                let ghost pre = out@;
                out.push(e);
                proof {
                    assert(self.entries@[i as int] == e);
                    assert(self.entries@.contains(e));
                    lemma_push_contains(pre, e);
                    assert(out@ == pre.push(e));
                    assert forall|a: int, b: int|
                        0 <= a < b < out@.len() implies (#[trigger] out@[a]).0 <= (
                    #[trigger] out@[b]).0 by {
                        if b == out@.len() - 1 {
                            if pre.len() > 0 {
                                assert(out@[a].0 <= pre.last().0);
                                assert(pre.last().0 <= self.entries@[i - 1].0);
                                assert(self.entries@[i - 1].0 <= e.0);
                            }
                        }
                    }
                }
            }
            i = i + 1;
        }
        proof {
            assert forall|p: (u64, u64)|
                self.entries_seq().contains(p) && lo <= p.0 <= hi implies out@.contains(p) by {
                let k = choose|k: int|
                    0 <= k < self.entries@.len() && self.entries@[k] == p;
            }
        }
        out
    }
}

} // verus!
