//! The string dictionary: labels, edge types and property names are
//! interned once and carried as small ids afterwards. Two names get
//! the same id exactly when they are the same text, so comparing ids
//! compares names.

use vstd::prelude::*;

use crate::parser::str_eq;

verus! {

/// Interns names to dense ids: the id of a name is its position in
/// the order of first appearance.
pub struct Dictionary {
    /// The interned names, in first-appearance order.
    names: Vec<String>,
}

impl Dictionary {
    /// The interned names, as character sequences.
    pub closed spec fn names_seq(self) -> Seq<Seq<char>> {
        self.names@.map_values(|s: String| s@)
    }

    /// Whether the name is interned.
    pub open spec fn has_name(self, name: Seq<char>) -> bool {
        exists|i: int| 0 <= i < self.names_seq().len() && self.names_seq()[i] == name
    }

    /// Well-formed: no name is interned twice, so ids compare like
    /// names.
    pub open spec fn wf(self) -> bool {
        forall|i: int, j: int|
            0 <= i < j < self.names_seq().len() ==> (#[trigger] self.names_seq()[i]) != (
            #[trigger] self.names_seq()[j])
    }

    /// An empty dictionary.
    pub fn new() -> (r: Dictionary)
        ensures
            r.wf(),
            r.names_seq() == Seq::<Seq<char>>::empty(),
    {
        let r = Dictionary { names: Vec::new() };
        proof {
            assert(r.names_seq() =~= Seq::<Seq<char>>::empty());
        }
        r
    }

    /// The id of an interned name, if any.
    pub fn lookup(&self, name: &str) -> (r: Option<usize>)
        ensures
            r is Some <==> self.has_name(name@),
            r is Some ==> (r->0 < self.names_seq().len() && self.names_seq()[r->0 as int]
                == name@),
    {
        let n = self.names.len();
        let mut i: usize = 0;
        while i < n
            invariant
                i <= n,
                n == self.names@.len(),
                forall|k: int| 0 <= k < i ==> (#[trigger] self.names_seq()[k]) != name@,
            decreases n - i,
        {
            if str_eq(self.names[i].as_str(), name) {
                proof {
                    assert(self.names_seq()[i as int] == name@);
                }
                return Some(i);
            }
            i = i + 1;
        }
        None
    }

    /// Interns a name: a known name keeps its id, a new one gets
    /// the next id. Either way the returned id resolves back to
    /// exactly this name.
    pub fn intern(&mut self, name: &str) -> (id: usize)
        requires
            old(self).wf(),
        ensures
            final(self).wf(),
            id < final(self).names_seq().len(),
            final(self).names_seq()[id as int] == name@,
            old(self).has_name(name@) ==> final(self).names_seq() == old(self).names_seq(),
            !old(self).has_name(name@) ==> (final(self).names_seq() == old(self).names_seq().push(
                name@,
            ) && id == old(self).names_seq().len()),
    {
        let found = self.lookup(name);
        match found {
            Some(i) => i,
            None => {
                let id = self.names.len();
                self.names.push(name.to_owned());
                proof {
                    assert(self.names_seq() =~= old(self).names_seq().push(name@));
                    assert forall|i: int, j: int|
                        0 <= i < j < self.names_seq().len() implies (
                    #[trigger] self.names_seq()[i]) != (#[trigger] self.names_seq()[j]) by {
                        if j == self.names_seq().len() - 1 {
                            assert(self.names_seq()[i] == old(self).names_seq()[i]);
                        } else {
                            assert(self.names_seq()[i] == old(self).names_seq()[i]);
                            assert(self.names_seq()[j] == old(self).names_seq()[j]);
                        }
                    }
                }
                id
            },
        }
    }

    /// The name an id was given for, if the id is in use.
    pub fn resolve(&self, id: usize) -> (r: Option<&str>)
        ensures
            r is Some <==> id < self.names_seq().len(),
            r is Some ==> r->0@ == self.names_seq()[id as int],
    {
        if id < self.names.len() {
            Some(self.names[id].as_str())
        } else {
            None
        }
    }

    /// How many names are interned.
    pub fn len(&self) -> (r: usize)
        ensures
            r == self.names_seq().len(),
    {
        self.names.len()
    }
}

/// Law: interned ids compare like names. In a well-formed
/// dictionary, two ids hold the same text exactly when they are the
/// same id.
pub proof fn lemma_ids_compare_like_names(d: Dictionary, i: int, j: int)
    requires
        d.wf(),
        0 <= i < d.names_seq().len(),
        0 <= j < d.names_seq().len(),
    ensures
        (d.names_seq()[i] == d.names_seq()[j]) <==> (i == j),
{
    if i < j {
        assert(d.names_seq()[i] != d.names_seq()[j]);
    } else if j < i {
        assert(d.names_seq()[j] != d.names_seq()[i]);
    }
}

} // verus!
