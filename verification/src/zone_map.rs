//! Zone-map summaries: per-zone `(min, max, null_count, row_count)`
//! statistics used to skip storage zones that cannot satisfy a
//! predicate. The structures are advisory: a false positive merely
//! forces the scan, a false negative is forbidden.

use vstd::prelude::*;

use crate::value::{
    cmp_value, comparable_kind, compare_values, kind_code, lemma_cmp_comparability,
    lemma_cmp_value_flip, lemma_cmp_value_refl, lemma_cmp_value_trans, ord_le, Value, ValueView,
};

verus! {

/// Mathematical form of a [`ZoneMapEntry`].
pub struct ZoneView {
    /// How many values the zone holds, nulls included.
    pub row_count: int,
    /// How many of them are null.
    pub null_count: int,
    /// Least non-null value among those comparable with it, if any.
    pub min: Option<ValueView>,
    /// Greatest non-null value among those comparable with it, if any.
    pub max: Option<ValueView>,
}

/// Summary of the values of one zone (for property columns, the whole
/// column). `min` and `max` exclude nulls. The counters saturate at
/// the largest machine value instead of wrapping.
///
/// Between rebuilds the summary over-approximates: an overwrite
/// counts as a further row, an overwritten null stays counted, and
/// the bounds only ever widen. A rebuild restores exact counters and
/// tight bounds, as [`lemma_zone_of_counts`] states; the skip checks
/// stay sound throughout because they only consult the widened
/// bounds.
#[derive(Debug, PartialEq, Eq)]
pub struct ZoneMapEntry {
    /// How many values were added to the zone, overwrites included.
    pub row_count: u64,
    /// How many of them were null.
    pub null_count: u64,
    /// Least non-null value among those comparable with it, if any.
    pub min: Option<Value>,
    /// Greatest non-null value among those comparable with it, if any.
    pub max: Option<Value>,
}

impl View for ZoneMapEntry {
    type V = ZoneView;

    open spec fn view(&self) -> ZoneView {
        ZoneView {
            row_count: self.row_count as int,
            null_count: self.null_count as int,
            min: match self.min {
                Some(v) => Some(v@),
                None => None,
            },
            max: match self.max {
                Some(v) => Some(v@),
                None => None,
            },
        }
    }
}

impl Clone for ZoneMapEntry {
    /// Deep copy; the copy denotes the same summary.
    fn clone(&self) -> (r: ZoneMapEntry)
        ensures
            r@ == self@,
    {
        ZoneMapEntry {
            row_count: self.row_count,
            null_count: self.null_count,
            min: match &self.min {
                Some(v) => Some(v.clone()),
                None => None,
            },
            max: match &self.max {
                Some(v) => Some(v.clone()),
                None => None,
            },
        }
    }
}

/// The summary of a zone with no values.
pub open spec fn zone_empty() -> ZoneView {
    ZoneView { row_count: 0, null_count: 0, min: None, max: None }
}

/// The largest value a saturating counter can reach.
pub open spec fn counter_limit() -> int {
    u64::MAX as int
}

/// One step of the incremental summary update: how the summary
/// changes when the value `w` is added to the zone.
pub open spec fn zone_step(z: ZoneView, w: ValueView) -> ZoneView {
    let row_count = if z.row_count < counter_limit() {
        z.row_count + 1
    } else {
        z.row_count
    };
    if w is Null {
        let null_count = if z.null_count < counter_limit() {
            z.null_count + 1
        } else {
            z.null_count
        };
        ZoneView { row_count, null_count, min: z.min, max: z.max }
    } else {
        let min = match z.min {
            None => Some(w),
            Some(m) => if cmp_value(w, m) == Some(core::cmp::Ordering::Less) {
                Some(w)
            } else {
                Some(m)
            },
        };
        let max = match z.max {
            None => Some(w),
            Some(m) => if cmp_value(w, m) == Some(core::cmp::Ordering::Greater) {
                Some(w)
            } else {
                Some(m)
            },
        };
        ZoneView { row_count, null_count: z.null_count, min, max }
    }
}

/// The summary obtained by adding the values of `s` in order to an
/// empty zone.
pub open spec fn zone_of(s: Seq<ValueView>) -> ZoneView
    decreases s.len(),
{
    if s.len() == 0 {
        zone_empty()
    } else {
        zone_step(zone_of(s.drop_last()), s.last())
    }
}

/// How many of the values are null.
pub open spec fn count_nulls(s: Seq<ValueView>) -> nat
    decreases s.len(),
{
    if s.len() == 0 {
        0
    } else {
        count_nulls(s.drop_last()) + (if s.last() is Null {
            1nat
        } else {
            0nat
        })
    }
}

/// A summary rebuilt from scratch carries exact counters: one row
/// per stored value, one null per stored null.
pub proof fn lemma_zone_of_counts(s: Seq<ValueView>)
    requires
        s.len() <= u64::MAX,
    ensures
        zone_of(s).row_count == s.len(),
        zone_of(s).null_count == count_nulls(s),
        count_nulls(s) <= s.len(),
    decreases s.len(),
{
    if s.len() > 0 {
        lemma_zone_of_counts(s.drop_last());
    }
}

/// Whether the zone may hold a value equal to `v`: true unless `v`
/// provably falls outside `[min, max]`.
pub open spec fn zone_might_eq(z: ZoneView, v: ValueView) -> bool {
    match (z.min, z.max) {
        (Some(m), Some(x)) => cmp_value(v, m) != Some(core::cmp::Ordering::Less) && cmp_value(
            v,
            x,
        ) != Some(core::cmp::Ordering::Greater),
        _ => false,
    }
}

/// Whether the zone may hold a value less than `v` (or equal to it,
/// when `inclusive` is set).
pub open spec fn zone_might_lt(z: ZoneView, v: ValueView, inclusive: bool) -> bool {
    match z.min {
        None => false,
        Some(m) => match cmp_value(m, v) {
            Some(core::cmp::Ordering::Less) => true,
            Some(core::cmp::Ordering::Equal) => inclusive,
            Some(core::cmp::Ordering::Greater) => false,
            None => true,
        },
    }
}

/// Whether the zone may hold a value greater than `v` (or equal to
/// it, when `inclusive` is set).
pub open spec fn zone_might_gt(z: ZoneView, v: ValueView, inclusive: bool) -> bool {
    match z.max {
        None => false,
        Some(m) => match cmp_value(m, v) {
            Some(core::cmp::Ordering::Greater) => true,
            Some(core::cmp::Ordering::Equal) => inclusive,
            Some(core::cmp::Ordering::Less) => false,
            None => true,
        },
    }
}

/// The summary `z` soundly bounds the values of `s`: the bounds exist
/// and share a kind as soon as a non-null value does, and every value
/// of the bounds' own kind lies between them. Values of other kinds
/// are incomparable with the bounds and are not constrained.
pub open spec fn zone_bounds(z: ZoneView, s: Seq<ValueView>) -> bool {
    &&& (z.min is Some <==> z.max is Some)
    &&& (z.min is Some ==> kind_code(z.min->0) == kind_code(z.max->0))
    &&& forall|i: int|
        0 <= i < s.len() && !(#[trigger] s[i] is Null) ==> {
            &&& z.min is Some
            &&& (comparable_kind(s[i]) && kind_code(s[i]) == kind_code(z.min->0) ==> ord_le(
                cmp_value(z.min->0, s[i]),
            ) && ord_le(cmp_value(s[i], z.max->0)))
        }
}

/// Adding a value keeps the summary sound for the grown zone.
pub proof fn lemma_zone_step_bounds(z: ZoneView, s: Seq<ValueView>, w: ValueView)
    requires
        zone_bounds(z, s),
    ensures
        zone_bounds(zone_step(z, w), s.push(w)),
{
    let z2 = zone_step(z, w);
    let t = s.push(w);
    assert(forall|i: int| 0 <= i < s.len() ==> t[i] == s[i]);
    assert(t[s.len() as int] == w);
    if w is Null {
        assert(z2.min == z.min && z2.max == z.max);
    } else {
        match z.min {
            None => {
                assert(z2.min == Some(w) && z2.max == Some(w));
                if comparable_kind(w) {
                    lemma_cmp_value_refl(w);
                }
            },
            Some(m) => {
                let x = z.max->0;
                let m2 = z2.min->0;
                let x2 = z2.max->0;
                if cmp_value(w, m) == Some(core::cmp::Ordering::Less) {
                    lemma_cmp_comparability(w, m);
                }
                if cmp_value(w, x) == Some(core::cmp::Ordering::Greater) {
                    lemma_cmp_comparability(w, x);
                }
                assert(kind_code(m2) == kind_code(m));
                assert(kind_code(x2) == kind_code(x));
                assert forall|i: int|
                    0 <= i < t.len() && !(#[trigger] t[i] is Null) && comparable_kind(t[i])
                        && kind_code(t[i]) == kind_code(m2) implies ord_le(cmp_value(m2, t[i]))
                    && ord_le(cmp_value(t[i], x2)) by {
                    let e = t[i];
                    lemma_cmp_comparability(e, m);
                    lemma_cmp_comparability(m, e);
                    lemma_cmp_comparability(e, x);
                    lemma_cmp_comparability(x, e);
                    lemma_cmp_comparability(e, w);
                    lemma_cmp_comparability(w, e);
                    lemma_cmp_comparability(w, m);
                    lemma_cmp_comparability(w, x);
                    lemma_cmp_value_flip(w, m);
                    lemma_cmp_value_flip(w, x);
                    lemma_cmp_value_flip(w, e);
                    if i < s.len() {
                        // an old element: bounded by the old bounds,
                        // which the new ones only widen
                        if cmp_value(w, m) == Some(core::cmp::Ordering::Less) {
                            lemma_cmp_value_trans(w, m, e);
                        }
                        if cmp_value(w, x) == Some(core::cmp::Ordering::Greater) {
                            lemma_cmp_value_trans(e, x, w);
                        }
                    } else {
                        // the new element itself
                        lemma_cmp_value_refl(e);
                        if cmp_value(w, m) != Some(core::cmp::Ordering::Less) {
                            assert(ord_le(cmp_value(m2, e)));
                        }
                        if cmp_value(w, x) != Some(core::cmp::Ordering::Greater) {
                            assert(ord_le(cmp_value(e, x2)));
                        }
                    }
                }
            },
        }
    }
}

/// The summary computed from a sequence of values soundly bounds it.
pub proof fn lemma_zone_of_bounds(s: Seq<ValueView>)
    ensures
        zone_bounds(zone_of(s), s),
    decreases s.len(),
{
    if s.len() == 0 {
    } else {
        lemma_zone_of_bounds(s.drop_last());
        lemma_zone_step_bounds(zone_of(s.drop_last()), s.drop_last(), s.last());
        assert(s.drop_last().push(s.last()) =~= s);
    }
}

impl ZoneMapEntry {
    /// An empty summary: no rows, no bounds.
    pub fn new() -> (r: ZoneMapEntry)
        ensures
            r@ == zone_empty(),
    {
        ZoneMapEntry { row_count: 0, null_count: 0, min: None, max: None }
    }

    /// Adds one value to the summary, per [`zone_step`].
    pub fn add(&mut self, value: &Value)
        ensures
            final(self)@ == zone_step(old(self)@, value@),
    {
        if self.row_count < u64::MAX {
            self.row_count = self.row_count + 1;
        }
        match value {
            Value::Null => {
                if self.null_count < u64::MAX {
                    self.null_count = self.null_count + 1;
                }
            },
            _ => {
                let replace_min = match &self.min {
                    None => true,
                    Some(m) => match compare_values(value, m) {
                        Some(core::cmp::Ordering::Less) => true,
                        _ => false,
                    },
                };
                if replace_min {
                    self.min = Some(value.clone());
                }
                let replace_max = match &self.max {
                    None => true,
                    Some(m) => match compare_values(value, m) {
                        Some(core::cmp::Ordering::Greater) => true,
                        _ => false,
                    },
                };
                if replace_max {
                    self.max = Some(value.clone());
                }
            },
        }
    }

    /// Whether the zone may hold a value equal to `v`.
    pub fn might_contain_equal(&self, v: &Value) -> (r: bool)
        ensures
            r == zone_might_eq(self@, v@),
    {
        match (&self.min, &self.max) {
            (Some(m), Some(x)) => {
                let below = match compare_values(v, m) {
                    Some(core::cmp::Ordering::Less) => true,
                    _ => false,
                };
                let above = match compare_values(v, x) {
                    Some(core::cmp::Ordering::Greater) => true,
                    _ => false,
                };
                !below && !above
            },
            _ => false,
        }
    }

    /// Whether the zone may hold a value less than `v` (or equal to
    /// it, when `inclusive` is set).
    pub fn might_contain_less_than(&self, v: &Value, inclusive: bool) -> (r: bool)
        ensures
            r == zone_might_lt(self@, v@, inclusive),
    {
        match &self.min {
            None => false,
            Some(m) => match compare_values(m, v) {
                Some(core::cmp::Ordering::Less) => true,
                Some(core::cmp::Ordering::Equal) => inclusive,
                Some(core::cmp::Ordering::Greater) => false,
                None => true,
            },
        }
    }

    /// Whether the zone may hold a value greater than `v` (or equal
    /// to it, when `inclusive` is set).
    pub fn might_contain_greater_than(&self, v: &Value, inclusive: bool) -> (r: bool)
        ensures
            r == zone_might_gt(self@, v@, inclusive),
    {
        match &self.max {
            None => false,
            Some(m) => match compare_values(m, v) {
                Some(core::cmp::Ordering::Greater) => true,
                Some(core::cmp::Ordering::Equal) => inclusive,
                Some(core::cmp::Ordering::Less) => false,
                None => true,
            },
        }
    }
}

} // verus!
