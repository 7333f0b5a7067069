//! Columnar execution batches: typed value vectors with validity
//! bitmaps, a selection vector naming the logically active rows, and
//! the data chunk that carries them through a pipeline.
//!
//! The chunk width invariant: in a well-formed chunk, every value
//! vector has the chunk's capacity, and every selection index lies
//! below it. Every constructor here establishes that invariant and
//! every operation preserves it.

use vstd::prelude::*;

use crate::value::{Value, ValueView};

verus! {

/// A typed column of `capacity` slots with a parallel validity
/// bitmap; a cleared bit means the slot is null.
pub struct ValueVector {
    /// The stored values.
    slots: Vec<Value>,
    /// One bit per slot; set means the slot holds a value.
    validity: Vec<bool>,
}

impl ValueVector {
    /// How many slots the vector has.
    pub closed spec fn spec_capacity(self) -> nat {
        self.slots@.len()
    }

    /// The value a slot holds, or `None` for a null slot.
    pub closed spec fn value_at(self, i: int) -> Option<ValueView> {
        if self.validity@[i] {
            Some(self.slots@[i]@)
        } else {
            None
        }
    }

    /// Well-formed: the bitmap covers exactly the slots.
    pub closed spec fn wf(self) -> bool {
        self.slots@.len() == self.validity@.len()
    }

    /// A vector of `capacity` null slots.
    pub fn new(capacity: usize) -> (r: ValueVector)
        ensures
            r.wf(),
            r.spec_capacity() == capacity,
            forall|i: int| 0 <= i < capacity ==> r.value_at(i) is None,
    {
        let mut slots: Vec<Value> = Vec::new();
        let mut validity: Vec<bool> = Vec::new();
        let mut i: usize = 0;
        while i < capacity
            invariant
                i <= capacity,
                slots@.len() == i,
                validity@.len() == i,
                forall|k: int| 0 <= k < i ==> !validity@[k],
            decreases capacity - i,
        {
            slots.push(Value::Null);
            validity.push(false);
            i = i + 1;
        }
        ValueVector { slots, validity }
    }

    /// How many slots the vector has.
    pub fn capacity(&self) -> (r: usize)
        requires
            self.wf(),
        ensures
            r == self.spec_capacity(),
    {
        self.slots.len()
    }

    /// Stores a value in a slot; a null value clears the slot's
    /// validity bit.
    pub fn set(&mut self, i: usize, value: Value)
        requires
            old(self).wf(),
            i < old(self).spec_capacity(),
        ensures
            final(self).wf(),
            final(self).spec_capacity() == old(self).spec_capacity(),
            final(self).value_at(i as int) == (match value@ {
                ValueView::Null => None::<ValueView>,
                v => Some(v),
            }),
            forall|k: int|
                0 <= k < old(self).spec_capacity() && k != i ==> final(self).value_at(k) == old(
                    self,
                ).value_at(k),
    {
        let valid = match &value {
            Value::Null => false,
            _ => true,
        };
        self.slots.set(i, value);
        self.validity.set(i, valid);
    }

    /// Reads a slot: the value it holds, or `None` for a null slot.
    pub fn get(&self, i: usize) -> (r: Option<Value>)
        requires
            self.wf(),
            i < self.spec_capacity(),
        ensures
            r is Some <==> self.value_at(i as int) is Some,
            r is Some ==> r->0@ == self.value_at(i as int)->0,
    {
        if self.validity[i] {
            Some(self.slots[i].clone())
        } else {
            None
        }
    }
}

/// Which rows of a chunk are logically active: all of the first `n`
/// rows, or an explicit index list.
pub enum SelectionVector {
    /// Rows `0 .. n` are active.
    Flat(usize),
    /// Exactly the listed rows are active, in the listed order.
    Indexed(Vec<usize>),
}

/// The active row indices a selection denotes, in order.
pub open spec fn selection_rows(s: SelectionVector) -> Seq<int> {
    match s {
        SelectionVector::Flat(n) => Seq::new(n as nat, |i: int| i),
        SelectionVector::Indexed(v) => v@.map_values(|x: usize| x as int),
    }
}

/// Whether every active row lies below the capacity.
pub open spec fn selection_in_bounds(s: SelectionVector, capacity: nat) -> bool {
    forall|i: int|
        0 <= i < selection_rows(s).len() ==> 0 <= #[trigger] selection_rows(s)[i] < capacity
}

/// A column-parallel batch of rows: value vectors sharing one
/// capacity, plus the selection of logically active rows.
pub struct DataChunk {
    /// The shared slot count of every vector.
    capacity: usize,
    /// The columns.
    vectors: Vec<ValueVector>,
    /// The logically active rows.
    selection: SelectionVector,
}

impl DataChunk {
    /// The shared capacity.
    pub closed spec fn spec_capacity(self) -> nat {
        self.capacity as nat
    }

    /// The columns.
    pub closed spec fn spec_vectors(self) -> Seq<ValueVector> {
        self.vectors@
    }

    /// The selection.
    pub closed spec fn spec_selection(self) -> SelectionVector {
        self.selection
    }

    /// The chunk width invariant: every vector is well formed with
    /// the chunk's capacity, and every selection index lies below
    /// that capacity.
    pub open spec fn wf(self) -> bool {
        &&& forall|i: int|
            0 <= i < self.spec_vectors().len() ==> ((#[trigger] self.spec_vectors()[i]).wf()
                && self.spec_vectors()[i].spec_capacity() == self.spec_capacity())
        &&& selection_in_bounds(self.spec_selection(), self.spec_capacity())
    }

    /// A chunk of `width` null columns with all `capacity` rows
    /// active.
    pub fn new(capacity: usize, width: usize) -> (r: DataChunk)
        ensures
            r.wf(),
            r.spec_capacity() == capacity,
            r.spec_vectors().len() == width,
            selection_rows(r.spec_selection()).len() == capacity,
    {
        let mut vectors: Vec<ValueVector> = Vec::new();
        let mut i: usize = 0;
        while i < width
            invariant
                i <= width,
                vectors@.len() == i,
                forall|k: int|
                    0 <= k < i ==> ((#[trigger] vectors@[k]).wf()
                        && vectors@[k].spec_capacity() == capacity),
            decreases width - i,
        {
            vectors.push(ValueVector::new(capacity));
            i = i + 1;
        }
        DataChunk { capacity, vectors, selection: SelectionVector::Flat(capacity) }
    }

    /// Wraps columns as a chunk when they agree on one capacity;
    /// `None` exactly when two columns disagree or a column is
    /// malformed. All rows start active.
    pub fn from_vectors(capacity: usize, vectors: Vec<ValueVector>) -> (r: Option<DataChunk>)
        ensures
            r is Some <==> (forall|i: int|
                0 <= i < vectors@.len() ==> ((#[trigger] vectors@[i]).wf()
                    && vectors@[i].spec_capacity() == capacity)),
            r is Some ==> r->0.wf() && r->0.spec_capacity() == capacity && r->0.spec_vectors()
                == vectors@,
    {
        let n = vectors.len();
        let mut i: usize = 0;
        while i < n
            invariant
                i <= n,
                n == vectors@.len(),
                forall|k: int|
                    0 <= k < i ==> ((#[trigger] vectors@[k]).wf() && vectors@[k].spec_capacity()
                        == capacity),
            decreases n - i,
        {
            let v = &vectors[i];
            if v.slots.len() != v.validity.len() || v.slots.len() != capacity {
                proof {
                    assert(!((vectors@[i as int]).wf() && vectors@[i as int].spec_capacity()
                        == capacity));
                }
                return None;
            }
            i = i + 1;
        }
        Some(DataChunk { capacity, vectors, selection: SelectionVector::Flat(capacity) })
    }

    /// Narrows the active rows to the given indices, without
    /// copying any column. Refused — leaving the chunk unchanged —
    /// exactly when an index lies at or beyond the capacity.
    pub fn narrow(&mut self, indices: Vec<usize>) -> (ok: bool)
        requires
            old(self).wf(),
        ensures
            final(self).wf(),
            final(self).spec_capacity() == old(self).spec_capacity(),
            final(self).spec_vectors() == old(self).spec_vectors(),
            ok <==> (forall|i: int|
                0 <= i < indices@.len() ==> (#[trigger] indices@[i]) < old(self).spec_capacity()),
            ok ==> final(self).spec_selection() == SelectionVector::Indexed(indices),
            !ok ==> final(self).spec_selection() == old(self).spec_selection(),
    {
        let n = indices.len();
        let mut i: usize = 0;
        while i < n
            invariant
                *self == *old(self),
                old(self).wf(),
                i <= n,
                n == indices@.len(),
                forall|k: int| 0 <= k < i ==> (#[trigger] indices@[k]) < self.spec_capacity(),
            decreases n - i,
        {
            if indices[i] >= self.capacity {
                proof {
                    assert(!((indices@[i as int]) < self.spec_capacity()));
                }
                return false;
            }
            i = i + 1;
        }
        proof {
            assert forall|k: int|
                0 <= k < selection_rows(SelectionVector::Indexed(indices)).len() implies 0
                <= #[trigger] selection_rows(SelectionVector::Indexed(indices))[k]
                < self.spec_capacity() by {
                assert(selection_rows(SelectionVector::Indexed(indices))[k] == indices@[k] as int);
            }
        }
        self.selection = SelectionVector::Indexed(indices);
        proof {
            assert(self.spec_vectors() == old(self).spec_vectors());
            assert(self.spec_capacity() == old(self).spec_capacity());
            assert forall|k: int|
                0 <= k < self.spec_vectors().len() implies ((#[trigger] self.spec_vectors()[k])
                .wf() && self.spec_vectors()[k].spec_capacity() == self.spec_capacity()) by {
                assert(old(self).spec_vectors()[k].wf());
                assert(old(self).spec_vectors()[k].spec_capacity() == old(self).spec_capacity());
            }
        }
        true
    }

    /// How many rows are logically active.
    pub fn active_count(&self) -> (r: usize)
        requires
            self.wf(),
        ensures
            r == selection_rows(self.spec_selection()).len(),
    {
        match &self.selection {
            SelectionVector::Flat(n) => *n,
            SelectionVector::Indexed(v) => v.len(),
        }
    }

    /// The active row indices, in order; each lies below the
    /// capacity.
    pub fn active_rows(&self) -> (r: Vec<usize>)
        requires
            self.wf(),
        ensures
            r@.map_values(|x: usize| x as int) == selection_rows(self.spec_selection()),
            forall|i: int| 0 <= i < r@.len() ==> (#[trigger] r@[i]) < self.spec_capacity(),
    {
        match &self.selection {
            SelectionVector::Flat(n) => {
                let count = *n;
                let mut out: Vec<usize> = Vec::new();
                let mut i: usize = 0;
                while i < count
                    invariant
                        i <= count,
                        count == self.spec_selection()->Flat_0,
                        self.wf(),
                        out@.len() == i,
                        forall|k: int| 0 <= k < i ==> #[trigger] out@[k] == k,
                    decreases count - i,
                {
                    out.push(i);
                    i = i + 1;
                }
                proof {
                    assert(out@.map_values(|x: usize| x as int) =~= selection_rows(
                        self.spec_selection(),
                    ));
                    assert forall|k: int|
                        0 <= k < out@.len() implies (#[trigger] out@[k])
                        < self.spec_capacity() by {
                        assert(selection_rows(self.spec_selection())[k] == out@[k] as int);
                    }
                }
                out
            },
            SelectionVector::Indexed(v) => {
                let out = clone_indices(v);
                proof {
                    assert(out@.map_values(|x: usize| x as int) =~= selection_rows(
                        self.spec_selection(),
                    ));
                    assert forall|k: int|
                        0 <= k < out@.len() implies (#[trigger] out@[k])
                        < self.spec_capacity() by {
                        assert(selection_rows(self.spec_selection())[k] == out@[k] as int);
                    }
                }
                out
            },
        }
    }

    /// Reads one slot of one column.
    pub fn get(&self, column: usize, row: usize) -> (r: Option<Value>)
        requires
            self.wf(),
            column < self.spec_vectors().len(),
            row < self.spec_capacity(),
        ensures
            r is Some <==> self.spec_vectors()[column as int].value_at(row as int) is Some,
            r is Some ==> r->0@ == self.spec_vectors()[column as int].value_at(row as int)->0,
    {
        self.vectors[column].get(row)
    }

    /// Writes one slot of one column.
    pub fn set(&mut self, column: usize, row: usize, value: Value)
        requires
            old(self).wf(),
            column < old(self).spec_vectors().len(),
            row < old(self).spec_capacity(),
        ensures
            final(self).wf(),
            final(self).spec_capacity() == old(self).spec_capacity(),
            final(self).spec_vectors().len() == old(self).spec_vectors().len(),
            final(self).spec_selection() == old(self).spec_selection(),
            final(self).spec_vectors()[column as int].value_at(row as int) == (match value@ {
                ValueView::Null => None::<ValueView>,
                v => Some(v),
            }),
            forall|c: int, k: int|
                0 <= c < old(self).spec_vectors().len() && 0 <= k < old(self).spec_capacity() && (c
                    != column || k != row) ==> #[trigger] final(self).spec_vectors()[c].value_at(k)
                    == old(self).spec_vectors()[c].value_at(k),
    {
        let ghost old_vectors = self.vectors@;
        let mut v = self.vectors.remove(column);
        v.set(row, value);
        let ghost new_vec = v;
        self.vectors.insert(column, v);
        proof {
            assert(self.vectors@ =~= old_vectors.update(column as int, new_vec));
            assert(self.spec_capacity() == old(self).spec_capacity());
            assert(self.spec_selection() == old(self).spec_selection());
            assert forall|k: int|
                0 <= k < self.spec_vectors().len() implies ((#[trigger] self.spec_vectors()[k])
                .wf() && self.spec_vectors()[k].spec_capacity() == self.spec_capacity()) by {
                if k != column {
                    assert(self.spec_vectors()[k] == old(self).spec_vectors()[k]);
                }
                assert(old(self).spec_vectors()[k].wf());
                assert(old(self).spec_vectors()[k].spec_capacity() == old(self).spec_capacity());
            }
            assert forall|k: int|
                0 <= k < selection_rows(self.spec_selection()).len() implies 0 <= #[trigger]
            selection_rows(self.spec_selection())[k] < self.spec_capacity() by {
                assert(0 <= selection_rows(old(self).spec_selection())[k] < old(
                    self,
                ).spec_capacity());
            }
        }
    }
}

/// A copy of an index vector.
fn clone_indices(v: &Vec<usize>) -> (r: Vec<usize>)
    ensures
        r@ == v@,
{
    let n = v.len();
    let mut out: Vec<usize> = Vec::new();
    let mut i: usize = 0;
    while i < n
        invariant
            i <= n,
            n == v@.len(),
            out@.len() == i,
            forall|k: int| 0 <= k < i ==> #[trigger] out@[k] == v@[k],
        decreases n - i,
    {
        out.push(v[i]);
        i = i + 1;
    }
    proof {
        assert(out@ =~= v@);
    }
    out
}

} // verus!
