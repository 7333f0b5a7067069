//! Tagged scalar values, entity identifiers, and the partial order on
//! values used by zone maps and filters.

use vstd::prelude::*;

verus! {

broadcast use vstd::utf8::char_u32_cast, vstd::std_specs::vec::axiom_vec_index_decreases;

/// Mathematical form of a [`Value`]: strings and byte strings become
/// sequences, machine integers become unbounded integers, and the
/// compound kinds carry sequences of views.
pub enum ValueView {
    /// Absent / unknown value.
    Null,
    /// Boolean.
    Bool(bool),
    /// Signed integer.
    Int64(int),
    /// Unicode string, as a sequence of characters.
    Str(Seq<char>),
    /// Raw byte string.
    Bytes(Seq<u8>),
    /// List of values.
    List(Seq<ValueView>),
    /// Map from strings to values, as a sequence of entries.
    Dict(Seq<(Seq<char>, ValueView)>),
}

/// A tagged scalar stored in the graph: property values and query
/// literals. Values of different kinds are mutually incomparable,
/// except as laid out in [`cmp_value`].
#[derive(Debug, PartialEq, Eq)]
pub enum Value {
    /// Absent / unknown value. Never equal to anything, itself included.
    Null,
    /// Boolean.
    Bool(bool),
    /// Signed 64-bit integer.
    Int64(i64),
    /// Unicode string.
    Str(String),
    /// Raw byte string.
    Bytes(Vec<u8>),
    /// List of values.
    List(Vec<Value>),
    /// Map from strings to values, as key-value entries.
    Dict(Vec<(String, Value)>),
}

/// The view of a value, recursive through lists and maps.
pub open spec fn value_view(v: Value) -> ValueView
    decreases v,
{
    match v {
        Value::Null => ValueView::Null,
        Value::Bool(b) => ValueView::Bool(b),
        Value::Int64(i) => ValueView::Int64(i as int),
        Value::Str(s) => ValueView::Str(s@),
        Value::Bytes(b) => ValueView::Bytes(b@),
        Value::List(l) => {
            proof {
                assert forall|i: int| 0 <= i < l@.len() implies decreases_to!(v => l@[i]) by {
                    assert(decreases_to!(v => v->List_0));
                    assert(decreases_to!(l => l[i]));
                }
            }
            ValueView::List(
                Seq::new(
                    l@.len(),
                    |i: int|
                        if 0 <= i < l@.len() {
                            value_view(l@[i])
                        } else {
                            ValueView::Null
                        },
                ),
            )
        },
        Value::Dict(d) => {
            proof {
                assert forall|i: int| 0 <= i < d@.len() implies decreases_to!(v => d@[i].1) by {
                    assert(decreases_to!(v => v->Dict_0));
                    assert(decreases_to!(d => d[i]));
                    assert(decreases_to!(d@[i] => d@[i].1));
                }
            }
            ValueView::Dict(
                Seq::new(
                    d@.len(),
                    |i: int|
                        if 0 <= i < d@.len() {
                            (d@[i].0@, value_view(d@[i].1))
                        } else {
                            (Seq::empty(), ValueView::Null)
                        },
                ),
            )
        },
    }
}

impl View for Value {
    type V = ValueView;

    open spec fn view(&self) -> ValueView {
        value_view(*self)
    }
}

impl Clone for Value {
    /// Deep copy; the copy denotes the same abstract value.
    fn clone(&self) -> (r: Value)
        ensures
            r@ == self@,
        decreases self,
    {
        match self {
            Value::Null => Value::Null,
            Value::Bool(b) => Value::Bool(*b),
            Value::Int64(i) => Value::Int64(*i),
            Value::Str(s) => Value::Str(s.clone()),
            Value::Bytes(b) => {
                let c = b.clone();
                assert(c@ =~= b@);
                Value::Bytes(c)
            },
            Value::List(l) => {
                let n = l.len();
                let mut out: Vec<Value> = Vec::new();
                let mut j: usize = 0;
                while j < n
                    invariant
                        *self == Value::List(*l),
                        j <= n,
                        n == l@.len(),
                        out@.len() == j,
                        forall|i: int| 0 <= i < j ==> (#[trigger] out@[i])@ == l@[i]@,
                    decreases n - j,
                {
                    proof {
                        assert(decreases_to!(*self => self->List_0));
                        assert(self->List_0 == *l);
                        assert(decreases_to!(*l => l@));
                        assert(decreases_to!(l@ => l@[j as int]));
                    }
                    out.push(l[j].clone());
                    j = j + 1;
                }
                let r = Value::List(out);
                proof {
                    assert(r@->List_0 =~= self@->List_0);
                }
                r
            },
            Value::Dict(d) => {
                let n = d.len();
                let mut out: Vec<(String, Value)> = Vec::new();
                let mut j: usize = 0;
                while j < n
                    invariant
                        *self == Value::Dict(*d),
                        j <= n,
                        n == d@.len(),
                        out@.len() == j,
                        forall|i: int|
                            0 <= i < j ==> ((#[trigger] out@[i]).0@ == d@[i].0@ && out@[i].1@
                                == d@[i].1@),
                    decreases n - j,
                {
                    proof {
                        assert(decreases_to!(*self => self->Dict_0));
                        assert(self->Dict_0 == *d);
                        assert(decreases_to!(*d => d@));
                        assert(decreases_to!(d@ => d@[j as int]));
                        assert(decreases_to!(d@[j as int] => d@[j as int].1));
                    }
                    let key = d[j].0.clone();
                    let value = d[j].1.clone();
                    out.push((key, value));
                    j = j + 1;
                }
                let r = Value::Dict(out);
                proof {
                    assert(r@->Dict_0 =~= self@->Dict_0);
                }
                r
            },
        }
    }
}

/// Identifier of a node. Opaque 64-bit value, totally ordered,
/// cheaply copyable, carrying no payload.
#[derive(Clone, Copy, Debug, PartialEq, Eq, Hash, PartialOrd, Ord, Structural)]
pub struct NodeId {
    /// Raw 64-bit identifier.
    pub raw: u64,
}

impl NodeId {
    /// Wraps a raw 64-bit identifier.
    pub fn new(raw: u64) -> (r: NodeId)
        ensures
            r.raw == raw,
    {
        NodeId { raw }
    }
}

/// Identifier of an edge. Opaque 64-bit value, totally ordered,
/// cheaply copyable, carrying no payload.
#[derive(Clone, Copy, Debug, PartialEq, Eq, Hash, PartialOrd, Ord, Structural)]
pub struct EdgeId {
    /// Raw 64-bit identifier.
    pub raw: u64,
}

impl EdgeId {
    /// Wraps a raw 64-bit identifier.
    pub fn new(raw: u64) -> (r: EdgeId)
        ensures
            r.raw == raw,
    {
        EdgeId { raw }
    }
}

/// Name of a property; compared by content.
#[derive(Debug, PartialEq, Eq, Hash)]
pub struct PropertyKey {
    name: String,
}

impl View for PropertyKey {
    type V = Seq<char>;

    closed spec fn view(&self) -> Seq<char> {
        self.name@
    }
}

impl Clone for PropertyKey {
    /// Copy; the copy denotes the same key.
    fn clone(&self) -> (r: PropertyKey)
        ensures
            r@ == self@,
    {
        PropertyKey { name: self.name.clone() }
    }
}

impl PropertyKey {
    /// Makes a key from its textual name.
    pub fn new(name: &str) -> (r: PropertyKey)
        ensures
            r@ == name@,
    {
        PropertyKey { name: name.to_owned() }
    }

    /// The key's textual name.
    pub fn as_str(&self) -> (r: &str)
        ensures
            r@ == self@,
    {
        self.name.as_str()
    }

    /// Whether two keys name the same property.
    pub fn key_eq(&self, other: &PropertyKey) -> (r: bool)
        ensures
            r == (self@ == other@),
    {
        self.name == other.name
    }
}

/// Lexicographic order on character sequences, by Unicode code point.
pub open spec fn lex_cmp_chars(a: Seq<char>, b: Seq<char>) -> core::cmp::Ordering
    decreases a.len(),
{
    if a.len() == 0 && b.len() == 0 {
        core::cmp::Ordering::Equal
    } else if a.len() == 0 {
        core::cmp::Ordering::Less
    } else if b.len() == 0 {
        core::cmp::Ordering::Greater
    } else if (a[0] as u32) < (b[0] as u32) {
        core::cmp::Ordering::Less
    } else if (b[0] as u32) < (a[0] as u32) {
        core::cmp::Ordering::Greater
    } else {
        lex_cmp_chars(a.skip(1), b.skip(1))
    }
}

/// Order of two abstract values. Same-kind values compare natively;
/// values of different kinds are incomparable, and `Null` compares
/// with nothing, itself included.
pub open spec fn cmp_value(a: ValueView, b: ValueView) -> Option<core::cmp::Ordering> {
    match (a, b) {
        (ValueView::Int64(x), ValueView::Int64(y)) => if x < y {
            Some(core::cmp::Ordering::Less)
        } else if y < x {
            Some(core::cmp::Ordering::Greater)
        } else {
            Some(core::cmp::Ordering::Equal)
        },
        (ValueView::Str(x), ValueView::Str(y)) => Some(lex_cmp_chars(x, y)),
        (ValueView::Bool(x), ValueView::Bool(y)) => if !x && y {
            Some(core::cmp::Ordering::Less)
        } else if x && !y {
            Some(core::cmp::Ordering::Greater)
        } else {
            Some(core::cmp::Ordering::Equal)
        },
        _ => None,
    }
}

/// Compares two character sequences lexicographically, by code point.
fn str_cmp(a: &str, b: &str) -> (r: core::cmp::Ordering)
    ensures
        r == lex_cmp_chars(a@, b@),
{
    let a_len = a.unicode_len();
    let b_len = b.unicode_len();
    let mut i: usize = 0;
    proof {
        assert(a@.skip(0) =~= a@);
        assert(b@.skip(0) =~= b@);
    }
    while i < a_len && i < b_len
        invariant
            i <= a_len,
            i <= b_len,
            a_len == a@.len(),
            b_len == b@.len(),
            lex_cmp_chars(a@, b@) == lex_cmp_chars(a@.skip(i as int), b@.skip(i as int)),
        decreases a_len - i,
    {
        let ca = a.get_char(i);
        let cb = b.get_char(i);
        let ca_code = ca as u32;
        let cb_code = cb as u32;
        proof {
            assert(a@.skip(i as int)[0] == a@[i as int]);
            assert(b@.skip(i as int)[0] == b@[i as int]);
        }
        if ca_code < cb_code {
            return core::cmp::Ordering::Less;
        }
        if cb_code < ca_code {
            return core::cmp::Ordering::Greater;
        }
        proof {
            assert(a@.skip(i as int).skip(1) =~= a@.skip(i as int + 1));
            assert(b@.skip(i as int).skip(1) =~= b@.skip(i as int + 1));
        }
        i = i + 1;
    }
    proof {
        assert(a@.skip(i as int).len() == a@.len() - i);
        assert(b@.skip(i as int).len() == b@.len() - i);
        if a_len < b_len {
            assert(lex_cmp_chars(a@.skip(i as int), b@.skip(i as int))
                == core::cmp::Ordering::Less);
        } else if b_len < a_len {
            assert(lex_cmp_chars(a@.skip(i as int), b@.skip(i as int))
                == core::cmp::Ordering::Greater);
        } else {
            assert(lex_cmp_chars(a@.skip(i as int), b@.skip(i as int))
                == core::cmp::Ordering::Equal);
        }
    }
    if a_len < b_len {
        core::cmp::Ordering::Less
    } else if b_len < a_len {
        core::cmp::Ordering::Greater
    } else {
        core::cmp::Ordering::Equal
    }
}

/// Compares two values for ordering, following [`cmp_value`]:
/// same-kind values compare natively, anything else is incomparable.
pub fn compare_values(a: &Value, b: &Value) -> (r: Option<core::cmp::Ordering>)
    ensures
        r == cmp_value(a@, b@),
{
    match (a, b) {
        (Value::Int64(x), Value::Int64(y)) => if x < y {
            Some(core::cmp::Ordering::Less)
        } else if y < x {
            Some(core::cmp::Ordering::Greater)
        } else {
            Some(core::cmp::Ordering::Equal)
        },
        (Value::Str(x), Value::Str(y)) => Some(str_cmp(x.as_str(), y.as_str())),
        (Value::Bool(x), Value::Bool(y)) => if !*x && *y {
            Some(core::cmp::Ordering::Less)
        } else if *x && !*y {
            Some(core::cmp::Ordering::Greater)
        } else {
            Some(core::cmp::Ordering::Equal)
        },
        _ => None,
    }
}

/// A sequence compares equal to itself.
pub proof fn lemma_lex_refl(a: Seq<char>)
    ensures
        lex_cmp_chars(a, a) == core::cmp::Ordering::Equal,
    decreases a.len(),
{
    if a.len() > 0 {
        lemma_lex_refl(a.skip(1));
    }
}

/// Sequences that compare equal are equal.
pub proof fn lemma_lex_eq(a: Seq<char>, b: Seq<char>)
    requires
        lex_cmp_chars(a, b) == core::cmp::Ordering::Equal,
    ensures
        a == b,
    decreases a.len(),
{
    if a.len() > 0 && b.len() > 0 {
        lemma_lex_eq(a.skip(1), b.skip(1));
        vstd::utf8::char_u32_cast(a[0], a[0] as u32);
        vstd::utf8::char_u32_cast(b[0], b[0] as u32);
        assert(a[0] == b[0]);
        assert(a.len() == b.len());
        assert forall|i: int| 0 <= i < a.len() implies a[i] == b[i] by {
            if i >= 1 {
                assert(a[i] == a.skip(1)[i - 1]);
                assert(b[i] == b.skip(1)[i - 1]);
            }
        }
        assert(a =~= b);
    } else {
        assert(a =~= b);
    }
}

/// Swapping the arguments reverses the comparison.
pub proof fn lemma_lex_flip(a: Seq<char>, b: Seq<char>)
    ensures
        (lex_cmp_chars(a, b) == core::cmp::Ordering::Less) <==> (lex_cmp_chars(b, a)
            == core::cmp::Ordering::Greater),
        (lex_cmp_chars(a, b) == core::cmp::Ordering::Equal) <==> (lex_cmp_chars(b, a)
            == core::cmp::Ordering::Equal),
    decreases a.len(),
{
    if a.len() > 0 && b.len() > 0 {
        lemma_lex_flip(a.skip(1), b.skip(1));
    }
}

/// The lexicographic order is transitive, strictly so as soon as one
/// of the two steps is strict.
pub proof fn lemma_lex_trans(a: Seq<char>, b: Seq<char>, c: Seq<char>)
    requires
        lex_cmp_chars(a, b) != core::cmp::Ordering::Greater,
        lex_cmp_chars(b, c) != core::cmp::Ordering::Greater,
    ensures
        lex_cmp_chars(a, c) != core::cmp::Ordering::Greater,
        (lex_cmp_chars(a, b) == core::cmp::Ordering::Less || lex_cmp_chars(b, c)
            == core::cmp::Ordering::Less) ==> lex_cmp_chars(a, c) == core::cmp::Ordering::Less,
    decreases a.len() + b.len() + c.len(),
{
    if a.len() == 0 {
        if c.len() > 0 {
            assert(lex_cmp_chars(a, c) == core::cmp::Ordering::Less);
        }
    } else if b.len() == 0 {
        assert(lex_cmp_chars(a, b) == core::cmp::Ordering::Greater);
    } else if c.len() == 0 {
        assert(lex_cmp_chars(b, c) == core::cmp::Ordering::Greater);
    } else {
        if (a[0] as u32) < (b[0] as u32) {
            if !((c[0] as u32) < (b[0] as u32)) {
                assert(lex_cmp_chars(a, c) == core::cmp::Ordering::Less);
            }
        } else {
            if (b[0] as u32) < (c[0] as u32) {
                assert(lex_cmp_chars(a, c) == core::cmp::Ordering::Less);
            } else {
                lemma_lex_trans(a.skip(1), b.skip(1), c.skip(1));
            }
        }
    }
}

/// Whether the comparison result means "less than or equal".
pub open spec fn ord_le(o: Option<core::cmp::Ordering>) -> bool {
    o == Some(core::cmp::Ordering::Less) || o == Some(core::cmp::Ordering::Equal)
}

/// A small code for the kind of a value; values compare only within
/// a kind.
pub open spec fn kind_code(v: ValueView) -> int {
    match v {
        ValueView::Null => 0,
        ValueView::Bool(_) => 1,
        ValueView::Int64(_) => 2,
        ValueView::Str(_) => 3,
        ValueView::Bytes(_) => 4,
        ValueView::List(_) => 5,
        ValueView::Dict(_) => 6,
    }
}

/// Whether values of this kind participate in ordering comparisons
/// at all.
pub open spec fn comparable_kind(v: ValueView) -> bool {
    1 <= kind_code(v) <= 3
}

/// Two values are comparable exactly when they are of the same
/// comparable kind.
pub proof fn lemma_cmp_comparability(a: ValueView, b: ValueView)
    ensures
        cmp_value(a, b) is Some <==> (comparable_kind(a) && kind_code(a) == kind_code(b)),
{
}

/// A value of a comparable kind compares equal to itself.
pub proof fn lemma_cmp_value_refl(a: ValueView)
    requires
        comparable_kind(a),
    ensures
        cmp_value(a, a) == Some(core::cmp::Ordering::Equal),
{
    match a {
        ValueView::Str(x) => {
            lemma_lex_refl(x);
        },
        _ => {},
    }
}

/// Swapping the arguments of [`cmp_value`] reverses the result.
pub proof fn lemma_cmp_value_flip(a: ValueView, b: ValueView)
    ensures
        (cmp_value(a, b) == Some(core::cmp::Ordering::Less)) <==> (cmp_value(b, a) == Some(
            core::cmp::Ordering::Greater,
        )),
        (cmp_value(a, b) == Some(core::cmp::Ordering::Equal)) <==> (cmp_value(b, a) == Some(
            core::cmp::Ordering::Equal,
        )),
        cmp_value(a, b) is Some <==> cmp_value(b, a) is Some,
{
    match (a, b) {
        (ValueView::Str(x), ValueView::Str(y)) => {
            lemma_lex_flip(x, y);
            lemma_lex_flip(y, x);
        },
        _ => {},
    }
}

/// [`cmp_value`] is transitive, strictly so as soon as one step is strict.
pub proof fn lemma_cmp_value_trans(a: ValueView, b: ValueView, c: ValueView)
    requires
        ord_le(cmp_value(a, b)),
        ord_le(cmp_value(b, c)),
    ensures
        ord_le(cmp_value(a, c)),
        (cmp_value(a, b) == Some(core::cmp::Ordering::Less) || cmp_value(b, c) == Some(
            core::cmp::Ordering::Less,
        )) ==> cmp_value(a, c) == Some(core::cmp::Ordering::Less),
{
    match (a, b, c) {
        (ValueView::Str(x), ValueView::Str(y), ValueView::Str(z)) => {
            lemma_lex_trans(x, y, z);
            if lex_cmp_chars(x, y) == core::cmp::Ordering::Equal {
                lemma_lex_eq(x, y);
            }
            if lex_cmp_chars(y, z) == core::cmp::Ordering::Equal {
                lemma_lex_eq(y, z);
            }
        },
        _ => {},
    }
}

/// Values that compare equal have the same kind, and comparable values
/// of equal content are the same abstract value.
pub proof fn lemma_cmp_value_eq(a: ValueView, b: ValueView)
    requires
        cmp_value(a, b) == Some(core::cmp::Ordering::Equal),
    ensures
        a == b,
{
    match (a, b) {
        (ValueView::Str(x), ValueView::Str(y)) => {
            lemma_lex_eq(x, y);
        },
        _ => {},
    }
}

} // verus!
