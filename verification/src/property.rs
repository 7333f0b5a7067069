//! Columnar property storage: one column per property key, each with
//! an incrementally maintained zone map used to skip columns that
//! cannot satisfy a predicate.

use vstd::prelude::*;

use crate::value::{
    cmp_value, comparable_kind, kind_code, lemma_cmp_comparability, lemma_cmp_value_eq,
    lemma_cmp_value_flip, lemma_cmp_value_trans, ord_le, EdgeId, NodeId, PropertyKey, Value,
    ValueView,
};
use crate::zone_map::{
    zone_bounds, zone_might_eq, zone_might_gt, zone_might_lt, zone_of, zone_step, ZoneMapEntry,
    ZoneView,
};

verus! {

/// Comparison operator for zone-map predicate checks.
#[derive(Debug, Clone, Copy, PartialEq, Eq, Structural)]
pub enum CompareOp {
    /// Equal to value.
    Eq,
    /// Not equal to value.
    Ne,
    /// Less than value.
    Lt,
    /// Less than or equal to value.
    Le,
    /// Greater than value.
    Gt,
    /// Greater than or equal to value.
    Ge,
}

/// Whether a stored value `w` satisfies the predicate `w op v`.
/// Comparisons follow [`cmp_value`]: incomparable values satisfy no
/// predicate, `Ne` included, and nulls satisfy nothing.
pub open spec fn value_satisfies(w: ValueView, op: CompareOp, v: ValueView) -> bool {
    match op {
        CompareOp::Eq => cmp_value(w, v) == Some(core::cmp::Ordering::Equal),
        CompareOp::Ne => cmp_value(w, v) == Some(core::cmp::Ordering::Less) || cmp_value(w, v)
            == Some(core::cmp::Ordering::Greater),
        CompareOp::Lt => cmp_value(w, v) == Some(core::cmp::Ordering::Less),
        CompareOp::Le => ord_le(cmp_value(w, v)),
        CompareOp::Gt => cmp_value(w, v) == Some(core::cmp::Ordering::Greater),
        CompareOp::Ge => cmp_value(w, v) == Some(core::cmp::Ordering::Greater) || cmp_value(w, v)
            == Some(core::cmp::Ordering::Equal),
    }
}

/// Whether a fresh zone summary allows a predicate to match: the
/// per-operator dispatch of the zone-map check.
pub open spec fn zone_might(z: ZoneView, op: CompareOp, v: ValueView) -> bool {
    match op {
        CompareOp::Eq => zone_might_eq(z, v),
        CompareOp::Ne => match (z.min, z.max) {
            (Some(m), Some(x)) => !(cmp_value(m, v) == Some(core::cmp::Ordering::Equal)
                && cmp_value(x, v) == Some(core::cmp::Ordering::Equal)),
            _ => true,
        },
        CompareOp::Lt => zone_might_lt(z, v, false),
        CompareOp::Le => zone_might_lt(z, v, true),
        CompareOp::Gt => zone_might_gt(z, v, false),
        CompareOp::Ge => zone_might_gt(z, v, true),
    }
}

/// Law: zone-map soundness. When a sound summary rules a predicate
/// out, no value of the zone satisfies it.
pub proof fn lemma_zone_might_sound(z: ZoneView, s: Seq<ValueView>, op: CompareOp, v: ValueView)
    requires
        zone_bounds(z, s),
        !zone_might(z, op, v),
    ensures
        forall|i: int| 0 <= i < s.len() ==> !value_satisfies(#[trigger] s[i], op, v),
{
    assert forall|i: int| 0 <= i < s.len() implies !value_satisfies(#[trigger] s[i], op, v) by {
        let w = s[i];
        if !(w is Null) {
            let m = z.min->0;
            let x = z.max->0;
            lemma_cmp_comparability(w, v);
            lemma_cmp_comparability(m, w);
            lemma_cmp_comparability(w, x);
            lemma_cmp_value_flip(w, v);
            lemma_cmp_value_flip(m, w);
            lemma_cmp_value_flip(m, v);
            lemma_cmp_value_flip(x, v);
            match op {
                CompareOp::Eq => {
                    if z.min is Some {
                        if cmp_value(v, m) == Some(core::cmp::Ordering::Less) {
                            lemma_cmp_comparability(v, m);
                            if kind_code(w) == kind_code(m) && comparable_kind(w) {
                                lemma_cmp_value_trans(v, m, w);
                                lemma_cmp_value_flip(v, w);
                            }
                        } else {
                            lemma_cmp_comparability(v, x);
                            if kind_code(w) == kind_code(x) && comparable_kind(w) {
                                lemma_cmp_value_flip(v, x);
                                lemma_cmp_value_trans(w, x, v);
                            }
                        }
                    }
                },
                CompareOp::Ne => {
                    lemma_cmp_value_eq(m, v);
                    lemma_cmp_value_eq(x, v);
                    if kind_code(w) == kind_code(m) && comparable_kind(w) {
                        if cmp_value(w, v) == Some(core::cmp::Ordering::Less) {
                            lemma_cmp_value_flip(v, w);
                        }
                    }
                },
                CompareOp::Lt | CompareOp::Le => {
                    if z.min is Some {
                        lemma_cmp_comparability(m, v);
                        if kind_code(w) == kind_code(m) && comparable_kind(w) {
                            if cmp_value(m, v) == Some(core::cmp::Ordering::Greater) {
                                lemma_cmp_value_flip(v, m);
                                lemma_cmp_value_trans(v, m, w);
                                lemma_cmp_value_flip(v, w);
                            } else {
                                lemma_cmp_value_eq(m, v);
                            }
                        }
                    }
                },
                CompareOp::Gt | CompareOp::Ge => {
                    if z.max is Some {
                        lemma_cmp_comparability(x, v);
                        if kind_code(w) == kind_code(x) && comparable_kind(w) {
                            if cmp_value(x, v) == Some(core::cmp::Ordering::Less) {
                                lemma_cmp_value_trans(w, x, v);
                            } else {
                                lemma_cmp_value_eq(x, v);
                            }
                        }
                    }
                },
            }
        }
    }
}

/// Entity identifiers usable as property-storage keys: copyable
/// values identified by a 64-bit key.
pub trait EntityId: Sized + Copy {
    /// The 64-bit key that identifies the entity.
    spec fn key(self) -> u64;

    /// Whether two identifiers name the same entity.
    fn id_eq(self, other: Self) -> (r: bool)
        ensures
            r == (self.key() == other.key()),
    ;
}

impl EntityId for NodeId {
    open spec fn key(self) -> u64 {
        self.raw
    }

    fn id_eq(self, other: Self) -> (r: bool)
        ensures
            r == (self.key() == other.key()),
    {
        self.raw == other.raw
    }
}

impl EntityId for EdgeId {
    open spec fn key(self) -> u64 {
        self.raw
    }

    fn id_eq(self, other: Self) -> (r: bool)
        ensures
            r == (self.key() == other.key()),
    {
        self.raw == other.raw
    }
}

/// The map an association list denotes; later entries win.
pub open spec fn assoc_map<K, V>(s: Seq<(K, V)>) -> Map<K, V>
    decreases s.len(),
{
    if s.len() == 0 {
        Map::empty()
    } else {
        assoc_map(s.drop_last()).insert(s.last().0, s.last().1)
    }
}

/// Whether the keys of an association list are pairwise distinct.
pub open spec fn distinct_keys<K, V>(s: Seq<(K, V)>) -> bool {
    forall|i: int, j: int|
        0 <= i < j < s.len() ==> (#[trigger] s[i]).0 != (#[trigger] s[j]).0
}

/// Pushing onto a sequence grows what it contains by exactly the
/// pushed element.
pub proof fn lemma_push_contains<A>(s: Seq<A>, x: A)
    ensures
        forall|t: A| #[trigger] s.push(x).contains(t) <==> (s.contains(t) || t == x),
{
    assert forall|t: A| #[trigger] s.push(x).contains(t) implies (s.contains(t) || t == x) by {
        let q = choose|q: int| 0 <= q < s.push(x).len() && s.push(x)[q] == t;
        if q < s.len() {
            assert(s[q] == t);
        }
    }
    assert forall|t: A| (s.contains(t) || t == x) implies #[trigger] s.push(x).contains(t) by {
        if t == x {
            assert(s.push(x)[s.len() as int] == t);
        } else {
            let q = choose|q: int| 0 <= q < s.len() && s[q] == t;
            assert(s.push(x)[q] == t);
        }
    }
}

/// A key is in the denoted map exactly when some entry carries it.
pub proof fn lemma_assoc_contains<K, V>(s: Seq<(K, V)>, k: K)
    ensures
        assoc_map(s).contains_key(k) <==> exists|i: int| 0 <= i < s.len() && (#[trigger] s[i]).0
            == k,
    decreases s.len(),
{
    if s.len() > 0 {
        lemma_assoc_contains(s.drop_last(), k);
        if s.last().0 == k {
            assert(s[s.len() - 1].0 == k);
        } else {
            assert forall|i: int| 0 <= i < s.len() && (#[trigger] s[i]).0 == k implies exists|
                j: int,
            | 0 <= j < s.len() - 1 && (#[trigger] s.drop_last()[j]).0 == k by {
                assert(s.drop_last()[i] == s[i]);
            }
        }
    }
}

/// With distinct keys, each entry is what the denoted map holds at
/// its key.
pub proof fn lemma_assoc_at<K, V>(s: Seq<(K, V)>, i: int)
    requires
        distinct_keys(s),
        0 <= i < s.len(),
    ensures
        assoc_map(s).contains_key(s[i].0),
        assoc_map(s)[s[i].0] == s[i].1,
    decreases s.len(),
{
    if i == s.len() - 1 {
    } else {
        assert(distinct_keys(s.drop_last())) by {
            assert(forall|a: int|
                0 <= a < s.len() - 1 ==> #[trigger] s.drop_last()[a] == s[a]);
        }
        lemma_assoc_at(s.drop_last(), i);
        assert(s.drop_last()[i] == s[i]);
        assert(s[i].0 != s.last().0);
    }
}

/// Overwriting the value of one entry updates the denoted map at
/// that entry's key and keeps the keys distinct.
pub proof fn lemma_assoc_update<K, V>(s: Seq<(K, V)>, i: int, v: V)
    requires
        distinct_keys(s),
        0 <= i < s.len(),
    ensures
        distinct_keys(s.update(i, (s[i].0, v))),
        assoc_map(s.update(i, (s[i].0, v))) == assoc_map(s).insert(s[i].0, v),
    decreases s.len(),
{
    let t = s.update(i, (s[i].0, v));
    assert(forall|a: int| 0 <= a < s.len() && a != i ==> #[trigger] t[a] == s[a]);
    if i == s.len() - 1 {
        assert(t.drop_last() =~= s.drop_last());
        assert(assoc_map(t) =~= assoc_map(s).insert(s[i].0, v));
    } else {
        assert(distinct_keys(s.drop_last())) by {
            assert(forall|a: int|
                0 <= a < s.len() - 1 ==> #[trigger] s.drop_last()[a] == s[a]);
        }
        lemma_assoc_update(s.drop_last(), i, v);
        assert(t.drop_last() =~= s.drop_last().update(i, (s[i].0, v)));
        assert(s.drop_last()[i] == s[i]);
        assert(t.last() == s.last());
        assert(s[i].0 != s.last().0);
        assert(assoc_map(t) =~= assoc_map(s).insert(s[i].0, v));
    }
}

/// Removing one entry removes exactly that entry's key from the
/// denoted map and keeps the keys distinct.
pub proof fn lemma_assoc_remove<K, V>(s: Seq<(K, V)>, i: int)
    requires
        distinct_keys(s),
        0 <= i < s.len(),
    ensures
        distinct_keys(s.remove(i)),
        assoc_map(s.remove(i)) == assoc_map(s).remove(s[i].0),
    decreases s.len(),
{
    let t = s.remove(i);
    assert(forall|a: int| 0 <= a < i ==> #[trigger] t[a] == s[a]);
    assert(forall|a: int| i <= a < s.len() - 1 ==> #[trigger] t[a] == s[a + 1]);
    if i == s.len() - 1 {
        assert(t =~= s.drop_last());
        lemma_assoc_contains(s.drop_last(), s[i].0);
        assert(forall|a: int|
            0 <= a < s.len() - 1 ==> #[trigger] s.drop_last()[a] == s[a]);
        assert(!assoc_map(s.drop_last()).contains_key(s[i].0));
        assert(assoc_map(t) =~= assoc_map(s).remove(s[i].0));
    } else {
        assert(distinct_keys(s.drop_last())) by {
            assert(forall|a: int|
                0 <= a < s.len() - 1 ==> #[trigger] s.drop_last()[a] == s[a]);
        }
        lemma_assoc_remove(s.drop_last(), i);
        assert(t.drop_last() =~= s.drop_last().remove(i));
        assert(t.last() == s.last());
        assert(s.drop_last()[i] == s[i]);
        assert(s[i].0 != s.last().0);
        assert(assoc_map(t) =~= assoc_map(s).remove(s[i].0));
    }
}

/// With distinct keys the denoted map is finite with one slot per
/// entry.
pub proof fn lemma_assoc_len<K, V>(s: Seq<(K, V)>)
    requires
        distinct_keys(s),
    ensures
        assoc_map(s).dom().finite(),
        assoc_map(s).dom().len() == s.len(),
    decreases s.len(),
{
    if s.len() > 0 {
        assert(distinct_keys(s.drop_last())) by {
            assert(forall|a: int|
                0 <= a < s.len() - 1 ==> #[trigger] s.drop_last()[a] == s[a]);
        }
        lemma_assoc_len(s.drop_last());
        lemma_assoc_contains(s.drop_last(), s.last().0);
        assert(forall|a: int|
            0 <= a < s.len() - 1 ==> #[trigger] s.drop_last()[a] == s[a]);
        assert(!assoc_map(s.drop_last()).contains_key(s.last().0));
    }
}

/// A single property column with zone-map tracking: the values one
/// property key takes across all entities, plus a `(min, max,
/// null_count, row_count)` summary for predicate pushdown.
pub struct PropertyColumn<Id: EntityId> {
    /// Sparse storage: one entry per entity holding the property.
    values: Vec<(Id, Value)>,
    /// Summary of the stored values, maintained incrementally.
    zone_map: ZoneMapEntry,
    /// Whether the summary is stale after removals.
    zone_map_dirty: bool,
}

impl<Id: EntityId> PropertyColumn<Id> {
    /// Entries as (entity key, abstract value) pairs, in storage
    /// order.
    pub closed spec fn entries(self) -> Seq<(u64, ValueView)> {
        self.values@.map_values(|p: (Id, Value)| (p.0.key(), p.1@))
    }

    /// The column as a map from entity key to abstract value.
    pub open spec fn contents(self) -> Map<u64, ValueView> {
        assoc_map(self.entries())
    }

    /// The stored abstract values, in storage order.
    pub open spec fn vals(self) -> Seq<ValueView> {
        self.entries().map_values(|p: (u64, ValueView)| p.1)
    }

    /// Whether the zone map is stale after removals.
    pub closed spec fn dirty(self) -> bool {
        self.zone_map_dirty
    }

    /// The zone summary.
    pub closed spec fn zone(self) -> ZoneView {
        self.zone_map@
    }

    /// Well-formed: one entry per entity, and a zone summary that
    /// soundly bounds the stored values unless marked stale.
    pub open spec fn wf(self) -> bool {
        &&& distinct_keys(self.entries())
        &&& !self.dirty() ==> zone_bounds(self.zone(), self.vals())
    }

    /// Creates a new empty column.
    pub fn new() -> (r: PropertyColumn<Id>)
        ensures
            r.wf(),
            r.contents() == Map::<u64, ValueView>::empty(),
            r.vals() == Seq::<ValueView>::empty(),
            !r.dirty(),
            r.zone() == crate::zone_map::zone_empty(),
    {
        let r = PropertyColumn {
            values: Vec::new(),
            zone_map: ZoneMapEntry::new(),
            zone_map_dirty: false,
        };
        proof {
            assert(r.entries() =~= Seq::<(u64, ValueView)>::empty());
            assert(r.vals() =~= Seq::<ValueView>::empty());
        }
        r
    }

    /// Position of the entry for `id`, if the column holds one.
    fn find(&self, id: Id) -> (r: Option<usize>)
        ensures
            match r {
                Some(i) => i < self.entries().len() && self.entries()[i as int].0 == id.key(),
                None => forall|j: int|
                    0 <= j < self.entries().len() ==> (#[trigger] self.entries()[j]).0 != id.key(),
            },
    {
        let n = self.values.len();
        let mut j: usize = 0;
        while j < n
            invariant
                j <= n,
                n == self.values@.len(),
                forall|a: int|
                    0 <= a < j ==> (#[trigger] self.entries()[a]).0 != id.key(),
            decreases n - j,
        {
            if self.values[j].0.id_eq(id) {
                assert(self.entries()[j as int].0 == id.key());
                return Some(j);
            }
            j = j + 1;
        }
        None
    }

    /// Folds one value into the zone summary, as [`zone_step`] says.
    fn update_zone_map_on_insert(&mut self, value: &Value)
        ensures
            final(self).zone() == zone_step(old(self).zone(), value@),
            final(self).entries() == old(self).entries(),
            final(self).dirty() == old(self).dirty(),
    {
        self.zone_map.add(value);
    }

    /// Sets the value for an entity, updating the zone map
    /// incrementally.
    pub fn set(&mut self, id: Id, value: Value)
        requires
            old(self).wf(),
        ensures
            final(self).wf(),
            final(self).contents() == old(self).contents().insert(id.key(), value@),
            final(self).dirty() == old(self).dirty(),
            final(self).zone() == zone_step(old(self).zone(), value@),
    {
        let ghost old_entries = self.entries();
        let ghost old_vals = self.vals();
        let ghost old_zone = self.zone();
        let ghost w = value@;
        self.update_zone_map_on_insert(&value);
        proof {
            if !self.dirty() {
                crate::zone_map::lemma_zone_step_bounds(old_zone, old_vals, w);
            }
        }
        let found = self.find(id);
        match found {
            Some(i) => {
                self.values.set(i, (id, value));
                proof {
                    assert(self.entries() =~= old_entries.update(
                        i as int,
                        (old_entries[i as int].0, w),
                    ));
                    lemma_assoc_update(old_entries, i as int, w);
                    assert(self.vals() =~= old_vals.update(i as int, w));
                    if !self.dirty() {
                        let stepped = zone_step(old_zone, w);
                        let pushed = old_vals.push(w);
                        assert forall|a: int|
                            0 <= a < self.vals().len() && !(#[trigger] self.vals()[a]
                                is Null) implies {
                            &&& stepped.min is Some
                            &&& (comparable_kind(self.vals()[a]) && kind_code(self.vals()[a])
                                == kind_code(stepped.min->0) ==> ord_le(
                                cmp_value(stepped.min->0, self.vals()[a]),
                            ) && ord_le(cmp_value(self.vals()[a], stepped.max->0)))
                        } by {
                            if a == i as int {
                                assert(self.vals()[a] == pushed[pushed.len() - 1]);
                            } else {
                                assert(self.vals()[a] == pushed[a]);
                            }
                        }
                    }
                }
            },
            None => {
                self.values.push((id, value));
                proof {
                    assert(self.entries() =~= old_entries.push((id.key(), w)));
                    assert(self.vals() =~= old_vals.push(w));
                    lemma_assoc_contains(old_entries, id.key());
                    assert(self.entries().drop_last() =~= old_entries);
                    assert(self.entries().last() == (id.key(), w));
                    assert(self.contents() =~= assoc_map(old_entries).insert(id.key(), w));
                }
            },
        }
    }

    /// Gets the value stored for an entity, if any.
    pub fn get(&self, id: Id) -> (r: Option<Value>)
        requires
            self.wf(),
        ensures
            r is Some <==> self.contents().contains_key(id.key()),
            r is Some ==> r->0@ == self.contents()[id.key()],
    {
        let found = self.find(id);
        proof {
            lemma_assoc_contains(self.entries(), id.key());
        }
        match found {
            Some(i) => {
                proof {
                    lemma_assoc_at(self.entries(), i as int);
                }
                Some(self.values[i].1.clone())
            },
            None => None,
        }
    }

    /// Removes the value stored for an entity, marking the zone map
    /// stale when a removal happened.
    pub fn remove(&mut self, id: Id) -> (r: Option<Value>)
        requires
            old(self).wf(),
        ensures
            final(self).wf(),
            final(self).contents() == old(self).contents().remove(id.key()),
            r is Some <==> old(self).contents().contains_key(id.key()),
            r is Some ==> r->0@ == old(self).contents()[id.key()],
            final(self).dirty() == (old(self).dirty() || r is Some),
            final(self).zone() == old(self).zone(),
    {
        let ghost old_entries = self.entries();
        let found = self.find(id);
        proof {
            lemma_assoc_contains(old_entries, id.key());
        }
        match found {
            Some(i) => {
                proof {
                    lemma_assoc_at(old_entries, i as int);
                    lemma_assoc_remove(old_entries, i as int);
                }
                let pair = self.values.remove(i);
                self.zone_map_dirty = true;
                proof {
                    assert(self.entries() =~= old_entries.remove(i as int));
                }
                Some(pair.1)
            },
            None => {
                proof {
                    assert(self.contents() =~= self.contents().remove(id.key()));
                }
                None
            },
        }
    }

    /// Returns the number of values in this column.
    pub fn len(&self) -> (r: usize)
        requires
            self.wf(),
        ensures
            r == self.vals().len(),
            r == self.contents().dom().len(),
    {
        proof {
            lemma_assoc_len(self.entries());
        }
        self.values.len()
    }

    /// Returns true if this column holds no values.
    pub fn is_empty(&self) -> (r: bool)
        requires
            self.wf(),
        ensures
            r == (self.vals().len() == 0),
    {
        self.values.len() == 0
    }

    /// A snapshot of all (id, value) pairs, in storage order.
    pub fn iter(&self) -> (r: Vec<(Id, Value)>)
        ensures
            r@.len() == self.entries().len(),
            forall|i: int|
                0 <= i < r@.len() ==> ((#[trigger] r@[i]).0.key() == self.entries()[i].0
                    && r@[i].1@ == self.entries()[i].1),
    {
        let n = self.values.len();
        let mut out: Vec<(Id, Value)> = Vec::new();
        let mut j: usize = 0;
        while j < n
            invariant
                j <= n,
                n == self.values@.len(),
                out@.len() == j,
                forall|i: int|
                    0 <= i < j ==> ((#[trigger] out@[i]).0.key() == self.entries()[i].0
                        && out@[i].1@ == self.entries()[i].1),
            decreases n - j,
        {
            let id = self.values[j].0;
            let v = self.values[j].1.clone();
            out.push((id, v));
            j = j + 1;
        }
        out
    }

    /// Returns the zone summary of this column.
    pub fn zone_map(&self) -> (r: &ZoneMapEntry)
        ensures
            r@ == self.zone(),
    {
        &self.zone_map
    }

    /// Checks if a predicate might match any value in this column.
    ///
    /// Law: zone-map soundness. A `false` answer proves that no
    /// stored value satisfies `value op v`; while the zone map is
    /// stale the answer is conservatively `true`.
    pub fn might_match(&self, op: CompareOp, value: &Value) -> (r: bool)
        requires
            self.wf(),
        ensures
            r == (self.dirty() || zone_might(self.zone(), op, value@)),
            !r ==> forall|k: u64| #[trigger]
                self.contents().contains_key(k) ==> !value_satisfies(
                    self.contents()[k],
                    op,
                    value@,
                ),
    {
        if self.zone_map_dirty {
            return true;
        }
        let r = match op {
            CompareOp::Eq => self.zone_map.might_contain_equal(value),
            CompareOp::Ne => {
                match (&self.zone_map.min, &self.zone_map.max) {
                    (Some(min), Some(max)) => {
                        let min_eq = match crate::value::compare_values(min, value) {
                            Some(core::cmp::Ordering::Equal) => true,
                            _ => false,
                        };
                        let max_eq = match crate::value::compare_values(max, value) {
                            Some(core::cmp::Ordering::Equal) => true,
                            _ => false,
                        };
                        !(min_eq && max_eq)
                    },
                    _ => true,
                }
            },
            CompareOp::Lt => self.zone_map.might_contain_less_than(value, false),
            CompareOp::Le => self.zone_map.might_contain_less_than(value, true),
            CompareOp::Gt => self.zone_map.might_contain_greater_than(value, false),
            CompareOp::Ge => self.zone_map.might_contain_greater_than(value, true),
        };
        proof {
            if !r {
                lemma_zone_might_sound(self.zone(), self.vals(), op, value@);
                assert forall|k: u64| #[trigger]
                    self.contents().contains_key(k) implies !value_satisfies(
                    self.contents()[k],
                    op,
                    value@,
                ) by {
                    lemma_assoc_contains(self.entries(), k);
                    let i = choose|i: int|
                        0 <= i < self.entries().len() && (#[trigger] self.entries()[i]).0 == k;
                    lemma_assoc_at(self.entries(), i);
                    assert(self.vals()[i] == self.entries()[i].1);
                }
            }
        }
        r
    }

    /// Rebuilds the zone summary from the stored values and clears
    /// the stale mark.
    pub fn rebuild_zone_map(&mut self)
        requires
            old(self).wf(),
        ensures
            final(self).wf(),
            final(self).entries() == old(self).entries(),
            final(self).contents() == old(self).contents(),
            final(self).vals() == old(self).vals(),
            !final(self).dirty(),
            final(self).zone() == zone_of(old(self).vals()),
            final(self).zone().row_count == old(self).vals().len(),
            final(self).zone().null_count == crate::zone_map::count_nulls(old(self).vals()),
    {
        let ghost vals = self.vals();
        let mut zm = ZoneMapEntry::new();
        let n = self.values.len();
        let mut j: usize = 0;
        proof {
            assert(vals.take(0) =~= Seq::<ValueView>::empty());
        }
        while j < n
            invariant
                j <= n,
                n == self.values@.len(),
                vals == self.vals(),
                vals.len() == n,
                zm@ == zone_of(vals.take(j as int)),
            decreases n - j,
        {
            zm.add(&self.values[j].1);
            proof {
                assert(vals.take(j + 1).drop_last() =~= vals.take(j as int));
                assert(vals.take(j + 1).last() == vals[j as int]);
                assert(vals[j as int] == self.values@[j as int].1@);
            }
            j = j + 1;
        }
        proof {
            assert(vals.take(n as int) =~= vals);
        }
        self.zone_map = zm;
        self.zone_map_dirty = false;
        proof {
            crate::zone_map::lemma_zone_of_bounds(vals);
            crate::zone_map::lemma_zone_of_counts(vals);
        }
    }
}

impl<Id: EntityId> Default for PropertyColumn<Id> {
    /// Same as [`PropertyColumn::new`]: an empty column.
    fn default() -> (r: PropertyColumn<Id>)
        ensures
            r.wf(),
            r.contents() == Map::<u64, ValueView>::empty(),
            r.vals() == Seq::<ValueView>::empty(),
            !r.dirty(),
    {
        PropertyColumn::new()
    }
}

/// Columnar property storage: one [`PropertyColumn`] per property
/// key, created lazily on first set. An entity's complete property
/// set is the union of the columns that hold its id.
pub struct PropertyStorage<Id: EntityId> {
    /// One column per property key.
    columns: Vec<(PropertyKey, PropertyColumn<Id>)>,
}

impl<Id: EntityId> PropertyStorage<Id> {
    /// Columns as (key name, column) pairs, in creation order.
    pub closed spec fn cols(self) -> Seq<(Seq<char>, PropertyColumn<Id>)> {
        self.columns@.map_values(|p: (PropertyKey, PropertyColumn<Id>)| (p.0@, p.1))
    }

    /// The storage as a map from property name to column.
    pub open spec fn columns_map(self) -> Map<Seq<char>, PropertyColumn<Id>> {
        assoc_map(self.cols())
    }

    /// Well-formed: one column per property name, each column
    /// well-formed.
    pub open spec fn wf(self) -> bool {
        &&& distinct_keys(self.cols())
        &&& forall|i: int| 0 <= i < self.cols().len() ==> (#[trigger] self.cols()[i]).1.wf()
    }

    /// What [`get_all`](Self::get_all) yields over the columns `s`:
    /// one (key, value) pair per column holding the entity.
    pub open spec fn props_of(
        s: Seq<(Seq<char>, PropertyColumn<Id>)>,
        idk: u64,
    ) -> Seq<(Seq<char>, ValueView)>
        decreases s.len(),
    {
        if s.len() == 0 {
            Seq::empty()
        } else {
            let rest = Self::props_of(s.drop_last(), idk);
            if s.last().1.contents().contains_key(idk) {
                rest.push((s.last().0, s.last().1.contents()[idk]))
            } else {
                rest
            }
        }
    }

    /// Creates a new property storage with no columns.
    pub fn new() -> (r: PropertyStorage<Id>)
        ensures
            r.wf(),
            r.columns_map() == Map::<Seq<char>, PropertyColumn<Id>>::empty(),
    {
        let r = PropertyStorage { columns: Vec::new() };
        proof {
            assert(r.cols() =~= Seq::<(Seq<char>, PropertyColumn<Id>)>::empty());
        }
        r
    }

    /// Position of the column for `key`, if one exists.
    fn find_col(&self, key: &PropertyKey) -> (r: Option<usize>)
        ensures
            match r {
                Some(i) => i < self.cols().len() && self.cols()[i as int].0 == key@,
                None => forall|j: int|
                    0 <= j < self.cols().len() ==> (#[trigger] self.cols()[j]).0 != key@,
            },
    {
        let n = self.columns.len();
        let mut j: usize = 0;
        while j < n
            invariant
                j <= n,
                n == self.columns@.len(),
                forall|a: int| 0 <= a < j ==> (#[trigger] self.cols()[a]).0 != key@,
            decreases n - j,
        {
            if self.columns[j].0.key_eq(key) {
                assert(self.cols()[j as int].0 == key@);
                return Some(j);
            }
            j = j + 1;
        }
        None
    }

    /// Sets a property value for an entity, creating the column on
    /// first use and updating its zone map incrementally.
    pub fn set(&mut self, id: Id, key: PropertyKey, value: Value)
        requires
            old(self).wf(),
        ensures
            final(self).wf(),
            final(self).columns_map().contains_key(key@),
            final(self).columns_map()[key@].contents() == (if old(
                self,
            ).columns_map().contains_key(key@) {
                old(self).columns_map()[key@].contents()
            } else {
                Map::<u64, ValueView>::empty()
            }).insert(id.key(), value@),
            final(self).columns_map()[key@].zone() == zone_step(
                if old(self).columns_map().contains_key(key@) {
                    old(self).columns_map()[key@].zone()
                } else {
                    crate::zone_map::zone_empty()
                },
                value@,
            ),
            final(self).columns_map()[key@].dirty() == (old(self).columns_map().contains_key(key@)
                && old(self).columns_map()[key@].dirty()),
            forall|k: Seq<char>|
                k != key@ ==> (#[trigger] final(self).columns_map().contains_key(k) == old(
                    self,
                ).columns_map().contains_key(k) && (old(self).columns_map().contains_key(k)
                    ==> final(self).columns_map()[k] == old(self).columns_map()[k])),
    {
        let ghost old_cols = self.cols();
        let found = self.find_col(&key);
        match found {
            Some(i) => {
                proof {
                    lemma_assoc_at(old_cols, i as int);
                }
                let mut pair = self.columns.remove(i);
                pair.1.set(id, value);
                let ghost new_col = pair.1;
                self.columns.insert(i, pair);
                proof {
                    assert(self.cols() =~= old_cols.update(i as int, (key@, new_col)));
                    lemma_assoc_update(old_cols, i as int, new_col);
                }
            },
            None => {
                proof {
                    lemma_assoc_contains(old_cols, key@);
                }
                let mut col = PropertyColumn::new();
                col.set(id, value);
                let ghost new_col = col;
                self.columns.push((key, col));
                proof {
                    assert(self.cols() =~= old_cols.push((key@, new_col)));
                    assert(self.cols().drop_last() =~= old_cols);
                    assert(self.cols().last() == (key@, new_col));
                    assert(self.columns_map() =~= assoc_map(old_cols).insert(key@, new_col));
                }
            },
        }
    }

    /// Gets a property value for an entity.
    pub fn get(&self, id: Id, key: &PropertyKey) -> (r: Option<Value>)
        requires
            self.wf(),
        ensures
            r is Some <==> (self.columns_map().contains_key(key@)
                && self.columns_map()[key@].contents().contains_key(id.key())),
            r is Some ==> r->0@ == self.columns_map()[key@].contents()[id.key()],
    {
        let found = self.find_col(key);
        proof {
            lemma_assoc_contains(self.cols(), key@);
        }
        match found {
            Some(i) => {
                proof {
                    lemma_assoc_at(self.cols(), i as int);
                }
                self.columns[i].1.get(id)
            },
            None => None,
        }
    }

    /// Removes a property value for an entity; the column's zone map
    /// goes stale when a removal happened.
    pub fn remove(&mut self, id: Id, key: &PropertyKey) -> (r: Option<Value>)
        requires
            old(self).wf(),
        ensures
            final(self).wf(),
            r is Some <==> (old(self).columns_map().contains_key(key@) && old(
                self,
            ).columns_map()[key@].contents().contains_key(id.key())),
            r is Some ==> r->0@ == old(self).columns_map()[key@].contents()[id.key()],
            forall|k: Seq<char>| #[trigger]
                final(self).columns_map().contains_key(k) == old(
                    self,
                ).columns_map().contains_key(k),
            old(self).columns_map().contains_key(key@) ==> {
                &&& final(self).columns_map()[key@].contents() == old(
                    self,
                ).columns_map()[key@].contents().remove(id.key())
                &&& final(self).columns_map()[key@].zone() == old(self).columns_map()[key@].zone()
                &&& final(self).columns_map()[key@].dirty() == (old(
                    self,
                ).columns_map()[key@].dirty() || r is Some)
            },
            forall|k: Seq<char>|
                k != key@ && old(self).columns_map().contains_key(k)
                    ==> #[trigger] final(self).columns_map()[k] == old(self).columns_map()[k],
    {
        let ghost old_cols = self.cols();
        let found = self.find_col(key);
        proof {
            lemma_assoc_contains(old_cols, key@);
        }
        match found {
            Some(i) => {
                proof {
                    lemma_assoc_at(old_cols, i as int);
                }
                let mut pair = self.columns.remove(i);
                let r = pair.1.remove(id);
                let ghost new_col = pair.1;
                self.columns.insert(i, pair);
                proof {
                    assert(self.cols() =~= old_cols.update(i as int, (key@, new_col)));
                    lemma_assoc_update(old_cols, i as int, new_col);
                }
                r
            },
            None => None,
        }
    }

    /// Removes all properties of an entity, across every column.
    pub fn remove_all(&mut self, id: Id)
        requires
            old(self).wf(),
        ensures
            final(self).wf(),
            forall|k: Seq<char>| #[trigger]
                final(self).columns_map().contains_key(k) == old(
                    self,
                ).columns_map().contains_key(k),
            forall|k: Seq<char>| #[trigger]
                old(self).columns_map().contains_key(k) ==> {
                    &&& final(self).columns_map()[k].contents() == old(
                        self,
                    ).columns_map()[k].contents().remove(id.key())
                    &&& final(self).columns_map()[k].zone() == old(self).columns_map()[k].zone()
                    &&& final(self).columns_map()[k].dirty() == (old(
                        self,
                    ).columns_map()[k].dirty() || old(
                        self,
                    ).columns_map()[k].contents().contains_key(id.key()))
                },
    {
        let ghost old_cols = self.cols();
        let n = self.columns.len();
        let mut j: usize = 0;
        while j < n
            invariant
                j <= n,
                n == self.columns@.len(),
                old_cols == old(self).cols(),
                old(self).wf(),
                old_cols.len() == n,
                forall|a: int| 0 <= a < n ==> (#[trigger] self.cols()[a]).0 == old_cols[a].0,
                forall|a: int| j <= a < n ==> (#[trigger] self.cols()[a]).1 == old_cols[a].1,
                forall|a: int|
                    0 <= a < j ==> ((#[trigger] self.cols()[a]).1.contents()
                        == old_cols[a].1.contents().remove(id.key()) && self.cols()[a].1.zone()
                        == old_cols[a].1.zone() && self.cols()[a].1.wf()
                        && self.cols()[a].1.dirty() == (old_cols[a].1.dirty()
                        || old_cols[a].1.contents().contains_key(id.key()))),
                distinct_keys(self.cols()),
            decreases n - j,
        {
            let ghost pre_cols = self.cols();
            let mut pair = self.columns.remove(j);
            proof {
                assert(old(self).cols()[j as int].1.wf());
                assert(pre_cols[j as int].1 == old_cols[j as int].1);
            }
            pair.1.remove(id);
            let ghost new_col = pair.1;
            self.columns.insert(j, pair);
            proof {
                assert(self.cols() =~= pre_cols.update(j as int, (pre_cols[j as int].0, new_col)));
            }
            j = j + 1;
        }
        proof {
            assert forall|k: Seq<char>| #[trigger]
                self.columns_map().contains_key(k) == old(
                self,
            ).columns_map().contains_key(k) by {
                lemma_assoc_contains(old_cols, k);
                lemma_assoc_contains(self.cols(), k);
                if exists|i: int| 0 <= i < old_cols.len() && (#[trigger] old_cols[i]).0 == k {
                    let i = choose|i: int|
                        0 <= i < old_cols.len() && (#[trigger] old_cols[i]).0 == k;
                    assert(self.cols()[i].0 == k);
                }
                if exists|i: int|
                    0 <= i < self.cols().len() && (#[trigger] self.cols()[i]).0 == k {
                    let i = choose|i: int|
                        0 <= i < self.cols().len() && (#[trigger] self.cols()[i]).0 == k;
                    assert(old_cols[i].0 == k);
                }
            }
            assert forall|k: Seq<char>| #[trigger]
                old(self).columns_map().contains_key(k) implies {
                &&& self.columns_map()[k].contents() == old(
                    self,
                ).columns_map()[k].contents().remove(id.key())
                &&& self.columns_map()[k].zone() == old(self).columns_map()[k].zone()
                &&& self.columns_map()[k].dirty() == (old(self).columns_map()[k].dirty() || old(
                    self,
                ).columns_map()[k].contents().contains_key(id.key()))
            } by {
                lemma_assoc_contains(old_cols, k);
                let i = choose|i: int| 0 <= i < old_cols.len() && (#[trigger] old_cols[i]).0 == k;
                lemma_assoc_at(old_cols, i);
                assert(self.cols()[i].0 == k);
                lemma_assoc_at(self.cols(), i);
            }
        }
    }

    /// Gets all properties of an entity, as (key, value) pairs in
    /// column order.
    pub fn get_all(&self, id: Id) -> (r: Vec<(PropertyKey, Value)>)
        requires
            self.wf(),
        ensures
            r@.map_values(|p: (PropertyKey, Value)| (p.0@, p.1@)) == Self::props_of(
                self.cols(),
                id.key(),
            ),
    {
        let n = self.columns.len();
        let mut out: Vec<(PropertyKey, Value)> = Vec::new();
        let mut j: usize = 0;
        proof {
            assert(self.cols().take(0) =~= Seq::<(Seq<char>, PropertyColumn<Id>)>::empty());
            assert(out@.map_values(|p: (PropertyKey, Value)| (p.0@, p.1@)) =~= Self::props_of(
                self.cols().take(0),
                id.key(),
            ));
        }
        while j < n
            invariant
                j <= n,
                n == self.columns@.len(),
                self.wf(),
                out@.map_values(|p: (PropertyKey, Value)| (p.0@, p.1@)) == Self::props_of(
                    self.cols().take(j as int),
                    id.key(),
                ),
            decreases n - j,
        {
            let ghost pre = out@;
            proof {
                assert(self.cols()[j as int].1.wf());
                assert(self.cols().take(j + 1).drop_last() =~= self.cols().take(j as int));
                assert(self.cols().take(j + 1).last() == self.cols()[j as int]);
            }
            let got = self.columns[j].1.get(id);
            match got {
                Some(v) => {
                    let k = self.columns[j].0.clone();
                    out.push((k, v));
                    proof {
                        assert(out@.map_values(|p: (PropertyKey, Value)| (p.0@, p.1@))
                            =~= pre.map_values(|p: (PropertyKey, Value)| (p.0@, p.1@)).push(
                            (self.cols()[j as int].0, self.cols()[j as int].1.contents()[id.key()]),
                        ));
                    }
                },
                None => {},
            }
            j = j + 1;
        }
        proof {
            assert(self.cols().take(n as int) =~= self.cols());
        }
        out
    }

    /// Returns the number of property columns.
    pub fn column_count(&self) -> (r: usize)
        requires
            self.wf(),
        ensures
            r == self.columns_map().dom().len(),
    {
        proof {
            lemma_assoc_len(self.cols());
        }
        self.columns.len()
    }

    /// Returns the keys of all columns, in column order.
    pub fn keys(&self) -> (r: Vec<PropertyKey>)
        ensures
            r@.len() == self.cols().len(),
            forall|i: int| 0 <= i < r@.len() ==> (#[trigger] r@[i])@ == self.cols()[i].0,
    {
        let n = self.columns.len();
        let mut out: Vec<PropertyKey> = Vec::new();
        let mut j: usize = 0;
        while j < n
            invariant
                j <= n,
                n == self.columns@.len(),
                out@.len() == j,
                forall|i: int| 0 <= i < j ==> (#[trigger] out@[i])@ == self.cols()[i].0,
            decreases n - j,
        {
            out.push(self.columns[j].0.clone());
            j = j + 1;
        }
        out
    }

    /// Gets a column by key for bulk access.
    pub fn column(&self, key: &PropertyKey) -> (r: Option<&PropertyColumn<Id>>)
        requires
            self.wf(),
        ensures
            r is Some <==> self.columns_map().contains_key(key@),
            r is Some ==> *r->0 == self.columns_map()[key@],
    {
        let found = self.find_col(key);
        proof {
            lemma_assoc_contains(self.cols(), key@);
        }
        match found {
            Some(i) => {
                proof {
                    lemma_assoc_at(self.cols(), i as int);
                }
                Some(&self.columns[i].1)
            },
            None => None,
        }
    }

    /// Checks if a predicate on a property might match any values.
    ///
    /// Law: zone-map soundness. A `false` answer proves that no
    /// stored value of that property satisfies `value op v`; a
    /// missing column or a stale zone map answers `true`.
    pub fn might_match(&self, key: &PropertyKey, op: CompareOp, value: &Value) -> (r: bool)
        requires
            self.wf(),
        ensures
            r == (!self.columns_map().contains_key(key@) || self.columns_map()[key@].dirty()
                || zone_might(self.columns_map()[key@].zone(), op, value@)),
            !r ==> forall|k: u64| #[trigger]
                self.columns_map()[key@].contents().contains_key(k) ==> !value_satisfies(
                    self.columns_map()[key@].contents()[k],
                    op,
                    value@,
                ),
    {
        let found = self.find_col(key);
        proof {
            lemma_assoc_contains(self.cols(), key@);
        }
        match found {
            Some(i) => {
                proof {
                    lemma_assoc_at(self.cols(), i as int);
                }
                self.columns[i].1.might_match(op, value)
            },
            None => true,
        }
    }

    /// Gets a copy of the zone summary of a property column.
    pub fn zone_map(&self, key: &PropertyKey) -> (r: Option<ZoneMapEntry>)
        requires
            self.wf(),
        ensures
            r is Some <==> self.columns_map().contains_key(key@),
            r is Some ==> r->0@ == self.columns_map()[key@].zone(),
    {
        let found = self.find_col(key);
        proof {
            lemma_assoc_contains(self.cols(), key@);
        }
        match found {
            Some(i) => {
                proof {
                    lemma_assoc_at(self.cols(), i as int);
                }
                Some(self.columns[i].1.zone_map().clone())
            },
            None => None,
        }
    }

    /// Rebuilds the zone maps of all columns (call after bulk
    /// removes); afterwards no column is stale.
    pub fn rebuild_zone_maps(&mut self)
        requires
            old(self).wf(),
        ensures
            final(self).wf(),
            forall|k: Seq<char>| #[trigger]
                final(self).columns_map().contains_key(k) == old(
                    self,
                ).columns_map().contains_key(k),
            forall|k: Seq<char>| #[trigger]
                old(self).columns_map().contains_key(k) ==> {
                    &&& final(self).columns_map()[k].contents() == old(
                        self,
                    ).columns_map()[k].contents()
                    &&& final(self).columns_map()[k].vals() == old(self).columns_map()[k].vals()
                    &&& final(self).columns_map()[k].zone() == zone_of(
                        old(self).columns_map()[k].vals(),
                    )
                    &&& !final(self).columns_map()[k].dirty()
                },
    {
        let ghost old_cols = self.cols();
        let n = self.columns.len();
        let mut j: usize = 0;
        while j < n
            invariant
                j <= n,
                n == self.columns@.len(),
                old_cols == old(self).cols(),
                old(self).wf(),
                old_cols.len() == n,
                forall|a: int| 0 <= a < n ==> (#[trigger] self.cols()[a]).0 == old_cols[a].0,
                forall|a: int| j <= a < n ==> (#[trigger] self.cols()[a]).1 == old_cols[a].1,
                forall|a: int|
                    0 <= a < j ==> ((#[trigger] self.cols()[a]).1.contents()
                        == old_cols[a].1.contents() && self.cols()[a].1.vals()
                        == old_cols[a].1.vals() && self.cols()[a].1.zone() == zone_of(
                        old_cols[a].1.vals(),
                    ) && !self.cols()[a].1.dirty() && self.cols()[a].1.wf()),
                distinct_keys(self.cols()),
            decreases n - j,
        {
            let ghost pre_cols = self.cols();
            let mut pair = self.columns.remove(j);
            proof {
                assert(old(self).cols()[j as int].1.wf());
                assert(pre_cols[j as int].1 == old_cols[j as int].1);
            }
            pair.1.rebuild_zone_map();
            let ghost new_col = pair.1;
            self.columns.insert(j, pair);
            proof {
                assert(self.cols() =~= pre_cols.update(j as int, (pre_cols[j as int].0, new_col)));
            }
            j = j + 1;
        }
        proof {
            assert forall|k: Seq<char>| #[trigger]
                self.columns_map().contains_key(k) == old(
                self,
            ).columns_map().contains_key(k) by {
                lemma_assoc_contains(old_cols, k);
                lemma_assoc_contains(self.cols(), k);
                if exists|i: int| 0 <= i < old_cols.len() && (#[trigger] old_cols[i]).0 == k {
                    let i = choose|i: int|
                        0 <= i < old_cols.len() && (#[trigger] old_cols[i]).0 == k;
                    assert(self.cols()[i].0 == k);
                }
                if exists|i: int|
                    0 <= i < self.cols().len() && (#[trigger] self.cols()[i]).0 == k {
                    let i = choose|i: int|
                        0 <= i < self.cols().len() && (#[trigger] self.cols()[i]).0 == k;
                    assert(old_cols[i].0 == k);
                }
            }
            assert forall|k: Seq<char>| #[trigger]
                old(self).columns_map().contains_key(k) implies {
                &&& self.columns_map()[k].contents() == old(
                    self,
                ).columns_map()[k].contents()
                &&& self.columns_map()[k].vals() == old(self).columns_map()[k].vals()
                &&& self.columns_map()[k].zone() == zone_of(
                    old(self).columns_map()[k].vals(),
                )
                &&& !self.columns_map()[k].dirty()
            } by {
                lemma_assoc_contains(old_cols, k);
                let i = choose|i: int| 0 <= i < old_cols.len() && (#[trigger] old_cols[i]).0 == k;
                lemma_assoc_at(old_cols, i);
                assert(self.cols()[i].0 == k);
                lemma_assoc_at(self.cols(), i);
            }
        }
    }
}

impl<Id: EntityId> Default for PropertyStorage<Id> {
    /// Same as [`PropertyStorage::new`]: a storage with no columns.
    fn default() -> (r: PropertyStorage<Id>)
        ensures
            r.wf(),
            r.columns_map() == Map::<Seq<char>, PropertyColumn<Id>>::empty(),
    {
        PropertyStorage::new()
    }
}

/// Law: round-trip property storage. A value just set for a key is
/// exactly what a lookup of that key yields.
pub proof fn lemma_set_then_get(m: Map<u64, ValueView>, k: u64, v: ValueView)
    ensures
        m.insert(k, v).contains_key(k),
        m.insert(k, v)[k] == v,
{
}

/// Law: zone-map rebuild idempotence. A second rebuild over unchanged
/// values recomputes the same summary and leaves the same stale mark,
/// so the column ends bitwise as the first rebuild left it.
pub proof fn lemma_rebuild_idempotent(
    vals: Seq<ValueView>,
    zone1: ZoneView,
    dirty1: bool,
    zone2: ZoneView,
    dirty2: bool,
)
    requires
        zone1 == zone_of(vals),
        !dirty1,
        zone2 == zone_of(vals),
        !dirty2,
    ensures
        zone1 == zone2,
        dirty1 == dirty2,
{
}

} // verus!

