//! Chunked adjacency: per-source adjacency triples stored in sorted
//! chunks, with a delta buffer for recent edits and tombstones for
//! deletes. The visible adjacency of a source is always exactly the
//! chunk entries that are not tombstoned, together with the delta
//! buffer.

use vstd::prelude::*;

use crate::property::{
    assoc_map, distinct_keys, lemma_assoc_at, lemma_assoc_contains, lemma_assoc_update,
    lemma_push_contains,
};
use crate::value::{EdgeId, NodeId};

verus! {

/// One adjacency triple: edge type, destination and edge identity,
/// all as raw 64-bit keys.
#[derive(Clone, Copy, Debug, PartialEq, Eq, Hash, Structural)]
pub struct AdjEntry {
    /// Interned key of the edge type.
    pub etype: u64,
    /// Raw key of the destination node.
    pub dst: u64,
    /// Raw key of the edge.
    pub edge: u64,
}

/// Chunk order of two entries: by edge type, then destination.
pub open spec fn entry_le(a: AdjEntry, b: AdjEntry) -> bool {
    a.etype < b.etype || (a.etype == b.etype && a.dst <= b.dst)
}

/// Whether a chunk is sorted by (edge type, destination).
pub open spec fn chunk_sorted(s: Seq<AdjEntry>) -> bool {
    forall|i: int, j: int| 0 <= i < j < s.len() ==> entry_le(#[trigger] s[i], #[trigger] s[j])
}

/// Position where an entry belongs in a sorted chunk: after every
/// entry that orders at or before it.
fn find_insert_pos(chunk: &Vec<AdjEntry>, x: AdjEntry) -> (p: usize)
    requires
        chunk_sorted(chunk@),
    ensures
        p <= chunk@.len(),
        forall|i: int| 0 <= i < p ==> entry_le(#[trigger] chunk@[i], x),
        p < chunk@.len() ==> !entry_le(chunk@[p as int], x),
{
    let n = chunk.len();
    let mut p: usize = 0;
    while p < n
        invariant
            p <= n,
            n == chunk@.len(),
            forall|i: int| 0 <= i < p ==> entry_le(#[trigger] chunk@[i], x),
        decreases n - p,
    {
        let e = chunk[p];
        if !(e.etype < x.etype || (e.etype == x.etype && e.dst <= x.dst)) {
            return p;
        }
        p = p + 1;
    }
    p
}

/// Inserts an entry into a sorted chunk at its place, keeping the
/// chunk sorted and growing its contents by exactly that entry.
fn insert_sorted(chunk: &mut Vec<AdjEntry>, x: AdjEntry)
    requires
        chunk_sorted(old(chunk)@),
    ensures
        chunk_sorted(final(chunk)@),
        final(chunk)@.len() == old(chunk)@.len() + 1,
        forall|t: AdjEntry| final(chunk)@.contains(t) <==> (old(chunk)@.contains(t) || t == x),
{
    let p = find_insert_pos(chunk, x);
    let ghost pre = chunk@;
    chunk.insert(p, x);
    proof {
        assert forall|i: int, j: int|
            0 <= i < j < chunk@.len() implies entry_le(#[trigger] chunk@[i], #[trigger] chunk@[j]) by {
            if i < p && j == p {
                assert(chunk@[i] == pre[i]);
            } else if i == p && j > p {
                assert(chunk@[j] == pre[j - 1]);
                assert(!entry_le(pre[p as int], x));
            } else if i < p && j > p {
                assert(chunk@[i] == pre[i] && chunk@[j] == pre[j - 1]);
            } else if i < p && j < p {
                assert(chunk@[i] == pre[i] && chunk@[j] == pre[j]);
            } else if i > p && j > p {
                assert(chunk@[i] == pre[i - 1] && chunk@[j] == pre[j - 1]);
            }
        }
        assert forall|t: AdjEntry|
            chunk@.contains(t) implies (pre.contains(t) || t == x) by {
            let k = choose|k: int| 0 <= k < chunk@.len() && chunk@[k] == t;
            if k < p {
                assert(pre[k] == t);
            } else if k > p {
                assert(pre[k - 1] == t);
            }
        }
        assert forall|t: AdjEntry|
            (pre.contains(t) || t == x) implies chunk@.contains(t) by {
            if t == x {
                assert(chunk@[p as int] == x);
            } else {
                let k = choose|k: int| 0 <= k < pre.len() && pre[k] == t;
                if k < p {
                    assert(chunk@[k] == t);
                } else {
                    assert(chunk@[k + 1] == t);
                }
            }
        }
    }
}

/// The adjacency of one source node: sorted chunks of settled
/// entries, a delta buffer of recent edits, and tombstones that mark
/// chunk entries as deleted until the next rewrite.
pub struct AdjacencyList {
    /// Settled entries, in sorted chunks.
    chunks: Vec<Vec<AdjEntry>>,
    /// Recent edits, visible to reads, merged into a chunk when the
    /// buffer crosses the flush threshold.
    delta: Vec<AdjEntry>,
    /// Edge keys whose chunk entries are deleted.
    tombstones: Vec<u64>,
    /// How many delta entries trigger a flush.
    delta_flush_threshold: usize,
}

impl AdjacencyList {
    /// The chunks, as sequences of entries.
    pub closed spec fn chunk_seqs(self) -> Seq<Seq<AdjEntry>> {
        self.chunks@.map_values(|c: Vec<AdjEntry>| c@)
    }

    /// The delta buffer.
    pub closed spec fn delta_seq(self) -> Seq<AdjEntry> {
        self.delta@
    }

    /// Whether the edge key is tombstoned.
    pub closed spec fn tombstoned(self, edge: u64) -> bool {
        self.tombstones@.contains(edge)
    }

    /// The flush threshold this adjacency was made with.
    pub closed spec fn flush_threshold(self) -> usize {
        self.delta_flush_threshold
    }

    /// Whether some chunk holds the entry.
    pub open spec fn in_chunks(self, t: AdjEntry) -> bool {
        exists|i: int|
            0 <= i < self.chunk_seqs().len() && (#[trigger] self.chunk_seqs()[i]).contains(t)
    }

    /// The visible adjacency: settled entries not tombstoned,
    /// together with the delta buffer.
    pub open spec fn visible(self) -> Set<AdjEntry> {
        Set::new(
            |t: AdjEntry|
                (self.in_chunks(t) && !self.tombstoned(t.edge)) || self.delta_seq().contains(t),
        )
    }

    /// Well-formed: every chunk is sorted, no delta entry is
    /// tombstoned, and the flush threshold is positive.
    pub open spec fn wf(self) -> bool {
        &&& forall|i: int|
            0 <= i < self.chunk_seqs().len() ==> chunk_sorted(#[trigger] self.chunk_seqs()[i])
        &&& forall|i: int|
            0 <= i < self.delta_seq().len() ==> !self.tombstoned(
                (#[trigger] self.delta_seq()[i]).edge,
            )
        &&& self.flush_threshold() >= 1
    }

    /// A new empty adjacency with the given flush threshold.
    pub fn new(delta_flush_threshold: usize) -> (r: AdjacencyList)
        requires
            delta_flush_threshold >= 1,
        ensures
            r.wf(),
            r.visible() == Set::<AdjEntry>::empty(),
            forall|e: u64| !r.tombstoned(e),
    {
        let r = AdjacencyList {
            chunks: Vec::new(),
            delta: Vec::new(),
            tombstones: Vec::new(),
            delta_flush_threshold,
        };
        proof {
            assert(r.visible() =~= Set::<AdjEntry>::empty());
        }
        r
    }

    /// Whether the edge key is tombstoned.
    fn is_tombstoned(&self, edge: u64) -> (r: bool)
        ensures
            r == self.tombstoned(edge),
    {
        let n = self.tombstones.len();
        let mut i: usize = 0;
        while i < n
            invariant
                i <= n,
                n == self.tombstones@.len(),
                forall|k: int| 0 <= k < i ==> self.tombstones@[k] != edge,
            decreases n - i,
        {
            if self.tombstones[i] == edge {
                return true;
            }
            i = i + 1;
        }
        false
    }

    /// Merges the delta buffer into a fresh sorted chunk. What is
    /// visible does not change.
    fn flush_delta(&mut self)
        requires
            old(self).wf(),
        ensures
            final(self).wf(),
            final(self).visible() == old(self).visible(),
            final(self).delta_seq().len() == 0,
    {
        let n = self.delta.len();
        let mut chunk: Vec<AdjEntry> = Vec::new();
        let mut i: usize = 0;
        while i < n
            invariant
                i <= n,
                n == self.delta@.len(),
                chunk_sorted(chunk@),
                forall|t: AdjEntry| chunk@.contains(t) <==> self.delta@.take(i as int).contains(t),
            decreases n - i,
        {
            let ghost pre = chunk@;
            insert_sorted(&mut chunk, self.delta[i]);
            proof {
                let shorter = self.delta@.take(i as int);
                let longer = self.delta@.take(i + 1);
                assert(longer.drop_last() =~= shorter);
                assert(longer.last() == self.delta@[i as int]);
                assert forall|t: AdjEntry| chunk@.contains(t) <==> longer.contains(t) by {
                    if chunk@.contains(t) {
                        if pre.contains(t) {
                            let k = choose|k: int|
                                0 <= k < shorter.len() && #[trigger] shorter[k] == t;
                            assert(longer[k] == t);
                        } else {
                            assert(longer[i as int] == t);
                        }
                    }
                    if longer.contains(t) {
                        let k = choose|k: int| 0 <= k < longer.len() && #[trigger] longer[k] == t;
                        if k < i {
                            assert(shorter[k] == t);
                            assert(pre.contains(t));
                        }
                    }
                }
            }
            i = i + 1;
        }
        let ghost old_self = *self;
        let ghost chunk_view = chunk@;
        self.chunks.push(chunk);
        self.delta = Vec::new();
        proof {
            assert(old_self.delta@.take(n as int) =~= old_self.delta@);
            assert(self.chunk_seqs() =~= old_self.chunk_seqs().push(chunk_view));
            assert forall|t: AdjEntry|
                self.visible().contains(t) <==> old_self.visible().contains(t) by {
                if self.in_chunks(t) {
                    let k = choose|k: int|
                        0 <= k < self.chunk_seqs().len() && (#[trigger] self.chunk_seqs()[k])
                            .contains(t);
                    if k < old_self.chunk_seqs().len() {
                        assert(old_self.chunk_seqs()[k].contains(t));
                        assert(old_self.in_chunks(t));
                    } else {
                        assert(chunk_view.contains(t));
                        assert(old_self.delta@.contains(t));
                    }
                }
                if old_self.in_chunks(t) {
                    let k = choose|k: int|
                        0 <= k < old_self.chunk_seqs().len() && (#[trigger] old_self.chunk_seqs()[
                            k
                        ]).contains(t);
                    assert(self.chunk_seqs()[k].contains(t));
                    assert(self.in_chunks(t));
                }
                if old_self.delta_seq().contains(t) {
                    assert(chunk_view.contains(t));
                    assert(self.chunk_seqs()[old_self.chunk_seqs().len() as int].contains(t));
                    assert(self.in_chunks(t));
                    assert(old_self.wf());
                    let k = choose|k: int|
                        0 <= k < old_self.delta_seq().len() && old_self.delta_seq()[k] == t;
                    assert(!old_self.tombstoned((old_self.delta_seq()[k]).edge));
                    assert(!old_self.tombstoned(t.edge));
                }
            }
            assert(self.visible() =~= old_self.visible());
        }
    }

    /// Adds an entry. It lands in the delta buffer, immediately
    /// visible; the buffer is merged into a chunk when it crosses
    /// the threshold.
    pub fn add(&mut self, entry: AdjEntry)
        requires
            old(self).wf(),
            !old(self).tombstoned(entry.edge),
        ensures
            final(self).wf(),
            final(self).visible() == old(self).visible().insert(entry),
    {
        let ghost old_self = *self;
        self.delta.push(entry);
        proof {
            lemma_push_contains(old_self.delta@, entry);
            assert(self.delta@ == old_self.delta@.push(entry));
            assert(self.chunks == old_self.chunks);
            assert(self.tombstones == old_self.tombstones);
            assert forall|t: AdjEntry|
                self.visible().contains(t) <==> old_self.visible().insert(entry).contains(t) by {
                assert(old_self.delta@.push(entry).contains(t) <==> (old_self.delta@.contains(t)
                    || t == entry));
                assert(self.delta_seq().contains(t) <==> (old_self.delta_seq().contains(t) || t
                    == entry));
                assert(self.chunk_seqs() == old_self.chunk_seqs());
                if self.in_chunks(t) {
                    let ci = choose|ci: int|
                        0 <= ci < self.chunk_seqs().len() && (#[trigger] self.chunk_seqs()[ci])
                            .contains(t);
                    assert(old_self.chunk_seqs()[ci].contains(t));
                }
                if old_self.in_chunks(t) {
                    let ci = choose|ci: int|
                        0 <= ci < old_self.chunk_seqs().len() && (
                        #[trigger] old_self.chunk_seqs()[ci]).contains(t);
                    assert(self.chunk_seqs()[ci].contains(t));
                }
                assert(self.in_chunks(t) == old_self.in_chunks(t));
                assert(self.tombstoned(t.edge) == old_self.tombstoned(t.edge));
                assert(self.visible().contains(t) == ((self.in_chunks(t) && !self.tombstoned(
                    t.edge,
                )) || self.delta_seq().contains(t)));
                assert(old_self.visible().contains(t) == ((old_self.in_chunks(t)
                    && !old_self.tombstoned(t.edge)) || old_self.delta_seq().contains(t)));
            }
            assert(self.visible() =~= old_self.visible().insert(entry));
            assert(self.chunk_seqs() == old_self.chunk_seqs());
            assert(self.flush_threshold() == old_self.flush_threshold());
            assert(old_self.wf());
            assert forall|i2: int|
                0 <= i2 < self.delta_seq().len() implies !self.tombstoned(
                (#[trigger] self.delta_seq()[i2]).edge,
            ) by {
                if i2 < old_self.delta_seq().len() {
                    assert(self.delta_seq()[i2] == old_self.delta_seq()[i2]);
                    assert(!old_self.tombstoned((old_self.delta_seq()[i2]).edge));
                } else {
                    assert(self.delta_seq()[i2] == entry);
                }
            }
        }
        if self.delta.len() >= self.delta_flush_threshold {
            self.flush_delta();
        }
    }

    /// Whether some chunk holds an entry with this edge key.
    fn chunks_have_edge(&self, edge: u64) -> (r: bool)
        ensures
            r == exists|t: AdjEntry| #[trigger] self.in_chunks(t) && t.edge == edge,
    {
        let nc = self.chunks.len();
        let mut i: usize = 0;
        while i < nc
            invariant
                i <= nc,
                nc == self.chunks@.len(),
                forall|a: int, b: int|
                    0 <= a < i && 0 <= b < self.chunk_seqs()[a].len()
                        ==> (#[trigger] self.chunk_seqs()[a][b]).edge != edge,
            decreases nc - i,
        {
            let m = self.chunks[i].len();
            let mut j: usize = 0;
            while j < m
                invariant
                    j <= m,
                    i < nc,
                    nc == self.chunks@.len(),
                    m == self.chunk_seqs()[i as int].len(),
                    forall|b: int| 0 <= b < j ==> self.chunk_seqs()[i as int][b].edge != edge,
                decreases m - j,
            {
                if self.chunks[i][j].edge == edge {
                    proof {
                        let t = self.chunk_seqs()[i as int][j as int];
                        assert(self.chunk_seqs()[i as int].contains(t));
                        assert(self.in_chunks(t) && t.edge == edge);
                    }
                    return true;
                }
                j = j + 1;
            }
            i = i + 1;
        }
        proof {
            assert forall|t: AdjEntry| #[trigger]
                self.in_chunks(t) implies t.edge != edge by {
                let k = choose|k: int|
                    0 <= k < self.chunk_seqs().len() && (#[trigger] self.chunk_seqs()[k]).contains(
                        t,
                    );
                let b = choose|b: int|
                    0 <= b < self.chunk_seqs()[k].len() && self.chunk_seqs()[k][b] == t;
            }
        }
        false
    }

    /// Removes every entry with this edge key: it leaves the delta
    /// buffer at once, and a tombstone hides it in the chunks until
    /// their next rewrite.
    pub fn remove(&mut self, edge: u64)
        requires
            old(self).wf(),
        ensures
            final(self).wf(),
            final(self).visible() == old(self).visible().filter(|t: AdjEntry| t.edge != edge),
    {
        let ghost old_self = *self;
        let n = self.delta.len();
        let mut kept: Vec<AdjEntry> = Vec::new();
        let mut i: usize = 0;
        while i < n
            invariant
                i <= n,
                n == old_self.delta@.len(),
                self.delta@ == old_self.delta@,
                self.chunks@ == old_self.chunks@,
                self.tombstones@ == old_self.tombstones@,
                self.delta_flush_threshold == old_self.delta_flush_threshold,
                forall|t: AdjEntry| #[trigger]
                    kept@.contains(t) ==> (old_self.delta@.contains(t) && t.edge != edge),
                forall|k: int|
                    0 <= k < i && (#[trigger] old_self.delta@[k]).edge != edge ==> kept@.contains(
                        old_self.delta@[k],
                    ),
            decreases n - i,
        {
            let e = self.delta[i];
            if e.edge != edge {
                let ghost pre_kept = kept@;
                kept.push(e);
                proof {
                    lemma_push_contains(pre_kept, e);
                    assert(kept@ == pre_kept.push(e));
                    assert(old_self.delta@.contains(e)) by {
                        assert(old_self.delta@[i as int] == e);
                    }
                }
            }
            i = i + 1;
        }
        let ghost kept_view = kept@;
        self.delta = kept;
        let in_chunks = self.chunks_have_edge(edge);
        let ghost mid_tombstones = self.tombstones@;
        if in_chunks {
            self.tombstones.push(edge);
        }
        proof {
            assert(old_self.wf());
            if in_chunks {
                lemma_push_contains(mid_tombstones, edge);
                assert(self.tombstones@ == mid_tombstones.push(edge));
            }
            assert(mid_tombstones == old_self.tombstones@);
            assert(self.chunk_seqs() == old_self.chunk_seqs());
            assert forall|t: AdjEntry|
                self.visible().contains(t) <==> (old_self.visible().contains(t) && t.edge
                    != edge) by {
                // The tombstone set grew by at most the removed key.
                assert(self.tombstoned(t.edge) == (old_self.tombstoned(t.edge) || (in_chunks
                    && t.edge == edge)));
                // The chunks are untouched.
                if self.in_chunks(t) {
                    let ci = choose|ci: int|
                        0 <= ci < self.chunk_seqs().len() && (#[trigger] self.chunk_seqs()[ci])
                            .contains(t);
                    assert(old_self.chunk_seqs()[ci].contains(t));
                }
                if old_self.in_chunks(t) {
                    let ci = choose|ci: int|
                        0 <= ci < old_self.chunk_seqs().len() && (
                        #[trigger] old_self.chunk_seqs()[ci]).contains(t);
                    assert(self.chunk_seqs()[ci].contains(t));
                }
                assert(self.in_chunks(t) == old_self.in_chunks(t));
                // A chunk entry with the removed key means the flag
                // was set.
                if self.in_chunks(t) && t.edge == edge {
                    assert(in_chunks);
                }
                // The delta kept exactly the entries with another key.
                if self.delta_seq().contains(t) {
                    assert(old_self.delta_seq().contains(t) && t.edge != edge);
                }
                if old_self.delta_seq().contains(t) && t.edge != edge {
                    let k = choose|k: int|
                        0 <= k < old_self.delta@.len() && #[trigger] old_self.delta@[k] == t;
                    assert(kept_view.contains(old_self.delta@[k]));
                    assert(self.delta_seq().contains(t));
                }
            }
            assert(self.visible() =~= old_self.visible().filter(|t: AdjEntry| t.edge != edge));
            assert forall|i2: int|
                0 <= i2 < self.delta_seq().len() implies !self.tombstoned(
                (#[trigger] self.delta_seq()[i2]).edge,
            ) by {
                let t = self.delta_seq()[i2];
                assert(kept_view.contains(t));
                assert(old_self.delta_seq().contains(t) && t.edge != edge);
                let k = choose|k: int|
                    0 <= k < old_self.delta_seq().len() && old_self.delta_seq()[k] == t;
                assert(!old_self.tombstoned((old_self.delta_seq()[k]).edge));
                assert(self.tombstoned(t.edge) == (old_self.tombstoned(t.edge) || (in_chunks
                    && t.edge == edge)));
            }
        }
    }

    /// The visible adjacency, as a vector.
    ///
    /// Law: adjacency consistency. After any sequence of adds and
    /// removals, the entries handed out are exactly the chunk
    /// entries that are not tombstoned, together with the delta
    /// buffer.
    pub fn neighbors(&self) -> (r: Vec<AdjEntry>)
        requires
            self.wf(),
        ensures
            forall|t: AdjEntry| r@.contains(t) <==> self.visible().contains(t),
    {
        let mut out: Vec<AdjEntry> = Vec::new();
        let nc = self.chunks.len();
        let mut i: usize = 0;
        while i < nc
            invariant
                i <= nc,
                nc == self.chunks@.len(),
                self.wf(),
                forall|t: AdjEntry| #[trigger]
                    out@.contains(t) ==> self.visible().contains(t),
                forall|a: int, b: int|
                    0 <= a < i && 0 <= b < self.chunk_seqs()[a].len()
                        && !self.tombstoned((#[trigger] self.chunk_seqs()[a][b]).edge)
                        ==> out@.contains(self.chunk_seqs()[a][b]),
            decreases nc - i,
        {
            let m = self.chunks[i].len();
            let mut j: usize = 0;
            while j < m
                invariant
                    j <= m,
                    i < nc,
                    nc == self.chunks@.len(),
                    self.wf(),
                    m == self.chunk_seqs()[i as int].len(),
                    forall|t: AdjEntry| #[trigger]
                        out@.contains(t) ==> self.visible().contains(t),
                    forall|a: int, b: int|
                        0 <= a < i && 0 <= b < self.chunk_seqs()[a].len()
                            && !self.tombstoned(self.chunk_seqs()[a][b].edge) ==> out@.contains(
                            self.chunk_seqs()[a][b],
                        ),
                    forall|b: int|
                        0 <= b < j && !self.tombstoned(
                            (#[trigger] self.chunk_seqs()[i as int][b]).edge,
                        ) ==> out@.contains(self.chunk_seqs()[i as int][b]),
                decreases m - j,
            {
                let e = self.chunks[i][j];
                if !self.is_tombstoned(e.edge) {
                    let ghost pre = out@;
                    out.push(e);
                    proof {
                        assert(self.chunk_seqs()[i as int].contains(e));
                        assert(self.in_chunks(e));
                        lemma_push_contains(pre, e);
                        assert(out@ == pre.push(e));
                    }
                }
                j = j + 1;
            }
            i = i + 1;
        }
        let nd = self.delta.len();
        let mut k: usize = 0;
        while k < nd
            invariant
                k <= nd,
                nd == self.delta@.len(),
                self.wf(),
                forall|t: AdjEntry| #[trigger]
                    out@.contains(t) ==> self.visible().contains(t),
                forall|a: int, b: int|
                    0 <= a < self.chunk_seqs().len() && 0 <= b < self.chunk_seqs()[a].len() && !self.tombstoned(
                        (#[trigger] self.chunk_seqs()[a][b]).edge,
                    ) ==> out@.contains(self.chunk_seqs()[a][b]),
                forall|b: int| 0 <= b < k ==> out@.contains(#[trigger] self.delta@[b]),
            decreases nd - k,
        {
            let e = self.delta[k];
            let ghost pre = out@;
            out.push(e);
            proof {
                assert(self.delta@.contains(e)) by {
                    assert(self.delta@[k as int] == e);
                }
                lemma_push_contains(pre, e);
                assert(out@ == pre.push(e));
            }
            k = k + 1;
        }
        proof {
            assert forall|t: AdjEntry|
                self.visible().contains(t) implies out@.contains(t) by {
                if self.in_chunks(t) && !self.tombstoned(t.edge) {
                    let a = choose|a: int|
                        0 <= a < self.chunk_seqs().len() && (#[trigger] self.chunk_seqs()[a])
                            .contains(t);
                    let b = choose|b: int|
                        0 <= b < self.chunk_seqs()[a].len() && self.chunk_seqs()[a][b] == t;
                } else {
                    let b = choose|b: int| 0 <= b < self.delta@.len() && self.delta@[b] == t;
                }
            }
        }
        out
    }

    /// The visible adjacency restricted to one edge type. A chunk is
    /// skipped wholesale when the wanted type falls outside the
    /// range its sorted order pins down — the per-chunk zone check.
    pub fn neighbors_by_type(&self, etype: u64) -> (r: Vec<AdjEntry>)
        requires
            self.wf(),
        ensures
            forall|t: AdjEntry|
                r@.contains(t) <==> (self.visible().contains(t) && t.etype == etype),
    {
        let mut out: Vec<AdjEntry> = Vec::new();
        let nc = self.chunks.len();
        let mut i: usize = 0;
        while i < nc
            invariant
                i <= nc,
                nc == self.chunks@.len(),
                self.wf(),
                forall|t: AdjEntry| #[trigger]
                    out@.contains(t) ==> (self.visible().contains(t) && t.etype == etype),
                forall|a: int, b: int|
                    0 <= a < i && 0 <= b < self.chunk_seqs()[a].len()
                        && !self.tombstoned((#[trigger] self.chunk_seqs()[a][b]).edge)
                        && self.chunk_seqs()[a][b].etype == etype ==> out@.contains(
                        self.chunk_seqs()[a][b],
                    ),
            decreases nc - i,
        {
            let m = self.chunks[i].len();
            // The chunk is sorted, so its first and last entries
            // bound every edge type it holds.
            let mut skip = m == 0;
            if m > 0 {
                let lo = self.chunks[i][0].etype;
                let hi = self.chunks[i][m - 1].etype;
                skip = etype < lo || hi < etype;
            }
            if skip {
                proof {
                    assert forall|b: int|
                        0 <= b < self.chunk_seqs()[i as int].len() implies (
                    #[trigger] self.chunk_seqs()[i as int][b]).etype != etype by {
                        let c = self.chunk_seqs()[i as int];
                        if c.len() > 0 {
                            if b > 0 {
                                assert(entry_le(c[0], c[b]));
                            }
                            if b < c.len() - 1 {
                                assert(entry_le(c[b], c[c.len() - 1]));
                            }
                        }
                    }
                }
            } else {
                let mut j: usize = 0;
                while j < m
                    invariant
                        j <= m,
                        i < nc,
                        nc == self.chunks@.len(),
                        self.wf(),
                        m == self.chunk_seqs()[i as int].len(),
                        forall|t: AdjEntry| #[trigger]
                            out@.contains(t) ==> (self.visible().contains(t) && t.etype == etype),
                        forall|a: int, b: int|
                            0 <= a < i && 0 <= b < self.chunk_seqs()[a].len()
                                && !self.tombstoned(self.chunk_seqs()[a][b].edge)
                                && self.chunk_seqs()[a][b].etype == etype ==> out@.contains(
                                self.chunk_seqs()[a][b],
                            ),
                        forall|b: int|
                            0 <= b < j && !self.tombstoned(
                                (#[trigger] self.chunk_seqs()[i as int][b]).edge,
                            ) && self.chunk_seqs()[i as int][b].etype == etype ==> out@.contains(
                                self.chunk_seqs()[i as int][b],
                            ),
                    decreases m - j,
                {
                    let e = self.chunks[i][j];
                    if e.etype == etype && !self.is_tombstoned(e.edge) {
                        let ghost pre = out@;
                        out.push(e);
                        proof {
                            assert(self.chunk_seqs()[i as int].contains(e));
                            assert(self.in_chunks(e));
                            lemma_push_contains(pre, e);
                            assert(out@ == pre.push(e));
                        }
                    }
                    j = j + 1;
                }
            }
            i = i + 1;
        }
        let nd = self.delta.len();
        let mut k: usize = 0;
        while k < nd
            invariant
                k <= nd,
                nd == self.delta@.len(),
                self.wf(),
                forall|t: AdjEntry| #[trigger]
                    out@.contains(t) ==> (self.visible().contains(t) && t.etype == etype),
                forall|a: int, b: int|
                    0 <= a < self.chunk_seqs().len() && 0 <= b < self.chunk_seqs()[a].len() && !self.tombstoned(
                        (#[trigger] self.chunk_seqs()[a][b]).edge,
                    ) && self.chunk_seqs()[a][b].etype == etype ==> out@.contains(
                        self.chunk_seqs()[a][b],
                    ),
                forall|b: int|
                    0 <= b < k && (#[trigger] self.delta@[b]).etype == etype ==> out@.contains(
                        self.delta@[b],
                    ),
            decreases nd - k,
        {
            let e = self.delta[k];
            if e.etype == etype {
                let ghost pre = out@;
                out.push(e);
                proof {
                    assert(self.delta@.contains(e)) by {
                        assert(self.delta@[k as int] == e);
                    }
                    lemma_push_contains(pre, e);
                    assert(out@ == pre.push(e));
                }
            }
            k = k + 1;
        }
        proof {
            assert forall|t: AdjEntry|
                self.visible().contains(t) && t.etype == etype implies out@.contains(t) by {
                if self.in_chunks(t) && !self.tombstoned(t.edge) {
                    let a = choose|a: int|
                        0 <= a < self.chunk_seqs().len() && (#[trigger] self.chunk_seqs()[a])
                            .contains(t);
                    let b = choose|b: int|
                        0 <= b < self.chunk_seqs()[a].len() && self.chunk_seqs()[a][b] == t;
                } else {
                    let b = choose|b: int| 0 <= b < self.delta@.len() && self.delta@[b] == t;
                }
            }
        }
        out
    }
}

/// Forward adjacency for all sources: one [`AdjacencyList`] per
/// source node, created lazily on first edge.
pub struct ChunkedAdjacency {
    /// One adjacency per source, keyed by the source's raw key.
    sources: Vec<(u64, AdjacencyList)>,
    /// Flush threshold handed to each new per-source adjacency.
    delta_flush_threshold: usize,
}

impl ChunkedAdjacency {
    /// Sources as (key, adjacency) pairs.
    pub closed spec fn sources_seq(self) -> Seq<(u64, AdjacencyList)> {
        self.sources@
    }

    /// The flush threshold handed to each per-source adjacency.
    pub closed spec fn flush_threshold(self) -> usize {
        self.delta_flush_threshold
    }

    /// The index as a map from source key to its adjacency.
    pub open spec fn source_map(self) -> Map<u64, AdjacencyList> {
        assoc_map(self.sources_seq())
    }

    /// The visible adjacency of one source; empty when the source
    /// has no entries yet.
    pub open spec fn visible_of(self, src: u64) -> Set<AdjEntry> {
        if self.source_map().contains_key(src) {
            self.source_map()[src].visible()
        } else {
            Set::empty()
        }
    }

    /// Well-formed: one adjacency per source, each well-formed, and
    /// a positive flush threshold.
    pub open spec fn wf(self) -> bool {
        &&& distinct_keys(self.sources_seq())
        &&& forall|i: int|
            0 <= i < self.sources_seq().len() ==> (#[trigger] self.sources_seq()[i]).1.wf()
        &&& self.flush_threshold() >= 1
    }

    /// A new empty index with the given flush threshold.
    pub fn new(delta_flush_threshold: usize) -> (r: ChunkedAdjacency)
        requires
            delta_flush_threshold >= 1,
        ensures
            r.wf(),
            forall|src: u64| #[trigger] r.visible_of(src) == Set::<AdjEntry>::empty(),
    {
        let r = ChunkedAdjacency { sources: Vec::new(), delta_flush_threshold };
        proof {
            assert(r.sources_seq() =~= Seq::<(u64, AdjacencyList)>::empty());
        }
        r
    }

    /// Position of the adjacency of `src`, if one exists.
    fn find_source(&self, src: u64) -> (r: Option<usize>)
        ensures
            match r {
                Some(i) => i < self.sources_seq().len() && self.sources_seq()[i as int].0 == src,
                None => forall|j: int|
                    0 <= j < self.sources_seq().len() ==> (#[trigger] self.sources_seq()[j]).0
                        != src,
            },
    {
        let n = self.sources.len();
        let mut j: usize = 0;
        while j < n
            invariant
                j <= n,
                n == self.sources@.len(),
                forall|a: int| 0 <= a < j ==> (#[trigger] self.sources_seq()[a]).0 != src,
            decreases n - j,
        {
            if self.sources[j].0 == src {
                return Some(j);
            }
            j = j + 1;
        }
        None
    }

    /// Adds a directed edge `src -[etype]-> dst` with identity
    /// `edge` to the source's visible adjacency. An edge key that is
    /// still tombstoned for this source may not be reused.
    pub fn add_edge(&mut self, src: NodeId, etype: u64, dst: NodeId, edge: EdgeId)
        requires
            old(self).wf(),
            old(self).source_map().contains_key(src.raw) ==> !old(
                self,
            ).source_map()[src.raw].tombstoned(edge.raw),
        ensures
            final(self).wf(),
            final(self).visible_of(src.raw) == old(self).visible_of(src.raw).insert(
                AdjEntry { etype, dst: dst.raw, edge: edge.raw },
            ),
            forall|other: u64|
                other != src.raw ==> #[trigger] final(self).visible_of(other) == old(
                    self,
                ).visible_of(other),
    {
        let entry = AdjEntry { etype, dst: dst.raw, edge: edge.raw };
        let ghost old_sources = self.sources_seq();
        let found = self.find_source(src.raw);
        match found {
            Some(i) => {
                proof {
                    lemma_assoc_at(old_sources, i as int);
                    assert(old_sources[i as int].1.wf());
                    assert(old(self).source_map().contains_key(src.raw));
                    assert(old(self).source_map()[src.raw] == old_sources[i as int].1);
                }
                let mut pair = self.sources.remove(i);
                pair.1.add(entry);
                let ghost new_list = pair.1;
                self.sources.insert(i, pair);
                proof {
                    assert(self.sources_seq() =~= old_sources.update(i as int, (src.raw, new_list)));
                    lemma_assoc_update(old_sources, i as int, new_list);
                }
            },
            None => {
                proof {
                    lemma_assoc_contains(old_sources, src.raw);
                }
                let mut list = AdjacencyList::new(self.delta_flush_threshold);
                list.add(entry);
                let ghost new_list = list;
                self.sources.push((src.raw, list));
                proof {
                    assert(self.sources_seq() =~= old_sources.push((src.raw, new_list)));
                    assert(self.sources_seq().drop_last() =~= old_sources);
                    assert(self.sources_seq().last() == (src.raw, new_list));
                    assert(self.source_map() =~= assoc_map(old_sources).insert(
                        src.raw,
                        new_list,
                    ));
                    assert(old(self).visible_of(src.raw) =~= Set::<AdjEntry>::empty());
                }
            },
        }
    }

    /// Removes every entry with this edge key from the source's
    /// visible adjacency.
    pub fn remove_edge(&mut self, src: NodeId, edge: EdgeId)
        requires
            old(self).wf(),
        ensures
            final(self).wf(),
            final(self).visible_of(src.raw) == old(self).visible_of(src.raw).filter(
                |t: AdjEntry| t.edge != edge.raw,
            ),
            forall|other: u64|
                other != src.raw ==> #[trigger] final(self).visible_of(other) == old(
                    self,
                ).visible_of(other),
    {
        let ghost old_sources = self.sources_seq();
        let found = self.find_source(src.raw);
        match found {
            Some(i) => {
                proof {
                    lemma_assoc_at(old_sources, i as int);
                }
                let mut pair = self.sources.remove(i);
                pair.1.remove(edge.raw);
                let ghost new_list = pair.1;
                self.sources.insert(i, pair);
                proof {
                    assert(self.sources_seq() =~= old_sources.update(i as int, (src.raw, new_list)));
                    lemma_assoc_update(old_sources, i as int, new_list);
                }
            },
            None => {
                proof {
                    lemma_assoc_contains(old_sources, src.raw);
                    assert(old(self).visible_of(src.raw).filter(|t: AdjEntry| t.edge != edge.raw)
                        =~= Set::<AdjEntry>::empty());
                }
            },
        }
    }

    /// The visible adjacency of one source, as a vector.
    ///
    /// Law: adjacency consistency, lifted over sources: what comes
    /// out is exactly the source's settled, untombstoned entries
    /// together with its delta buffer.
    pub fn neighbors(&self, src: NodeId) -> (r: Vec<AdjEntry>)
        requires
            self.wf(),
        ensures
            forall|t: AdjEntry| r@.contains(t) <==> self.visible_of(src.raw).contains(t),
    {
        let found = self.find_source(src.raw);
        proof {
            lemma_assoc_contains(self.sources_seq(), src.raw);
        }
        match found {
            Some(i) => {
                proof {
                    lemma_assoc_at(self.sources_seq(), i as int);
                }
                self.sources[i].1.neighbors()
            },
            None => Vec::new(),
        }
    }

    /// The visible adjacency of one source restricted to one edge
    /// type, as a vector.
    pub fn neighbors_by_type(&self, src: NodeId, etype: u64) -> (r: Vec<AdjEntry>)
        requires
            self.wf(),
        ensures
            forall|t: AdjEntry|
                r@.contains(t) <==> (self.visible_of(src.raw).contains(t) && t.etype == etype),
    {
        let found = self.find_source(src.raw);
        proof {
            lemma_assoc_contains(self.sources_seq(), src.raw);
        }
        match found {
            Some(i) => {
                proof {
                    lemma_assoc_at(self.sources_seq(), i as int);
                }
                self.sources[i].1.neighbors_by_type(etype)
            },
            None => Vec::new(),
        }
    }
}

} // verus!
