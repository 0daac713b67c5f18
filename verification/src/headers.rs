//! Header fields: a mapping from names to values that keeps the order in
//! which the names were first written.

use crate::text::same_text;
use vstd::prelude::*;

verus! {

/// The mathematical model of a set of header fields: name and value of each
/// field, in order.
pub type Fields = Seq<(Seq<char>, Seq<char>)>;

/// Position of the first field called `name`, or `fields.len()` where there is
/// none.
pub open spec fn position(fields: Fields, name: Seq<char>) -> nat
    decreases fields.len(),
{
    if fields.len() == 0 || fields[0].0 == name {
        0
    } else {
        1 + position(fields.drop_first(), name)
    }
}

/// The value of the field called `name`, if there is one.
pub open spec fn lookup(fields: Fields, name: Seq<char>) -> Option<Seq<char>> {
    let p = position(fields, name);
    if p < fields.len() {
        Some(fields[p as int].1)
    } else {
        None
    }
}

/// The fields after `name` has been written with `value`: a field of that
/// name keeps its place and takes the new value; a new name goes to the end.
pub open spec fn written(fields: Fields, name: Seq<char>, value: Seq<char>) -> Fields {
    let p = position(fields, name);
    if p < fields.len() {
        fields.update(p as int, (name, value))
    } else {
        fields.push((name, value))
    }
}

/// Whether no name occurs twice.
pub open spec fn distinct(fields: Fields) -> bool {
    forall|i: int, j: int|
        0 <= i < j < fields.len() ==> (#[trigger] fields[i]).0 != (#[trigger] fields[j]).0
}

/// What `position` returns: the least index that holds `name`.
pub proof fn lemma_position(fields: Fields, name: Seq<char>)
    ensures
        position(fields, name) <= fields.len(),
        position(fields, name) < fields.len() ==> fields[position(fields, name) as int].0 == name,
        forall|i: int| 0 <= i < position(fields, name) ==> (#[trigger] fields[i]).0 != name,
    decreases fields.len(),
{
    if fields.len() == 0 || fields[0].0 == name {
    } else {
        let rest = fields.drop_first();
        lemma_position(rest, name);
        assert forall|i: int| 0 <= i < position(fields, name) implies (#[trigger] fields[i]).0
            != name by {
            if i > 0 {
                assert(fields[i] == rest[i - 1]);
            }
        }
    }
}

/// An index that holds `name` with no earlier one that does is its position.
pub proof fn lemma_position_is(fields: Fields, name: Seq<char>, p: int)
    requires
        0 <= p <= fields.len(),
        p < fields.len() ==> fields[p].0 == name,
        forall|i: int| 0 <= i < p ==> (#[trigger] fields[i]).0 != name,
    ensures
        position(fields, name) == p,
{
    lemma_position(fields, name);
    let q = position(fields, name) as int;
    if q < p {
        assert(fields[q].0 != name);
    }
}

/// A set of header fields. No name occurs twice in it.
#[derive(Debug)]
pub struct Headers {
    entries: Vec<(String, String)>,
}

impl View for Headers {
    type V = Fields;

    closed spec fn view(&self) -> Fields {
        model(self.entries@)
    }
}

/// The model of the stored pairs.
spec fn model(entries: Seq<(String, String)>) -> Fields {
    Seq::new(entries.len(), |i: int| (entries[i].0@, entries[i].1@))
}

impl Headers {
    /// What holds of every set of header fields: no name occurs twice.
    #[verifier::type_invariant]
    pub open spec fn names_differ(&self) -> bool {
        distinct(self@)
    }

    /// No fields.
    pub fn new() -> (h: Headers)
        ensures
            h@ == Fields::empty(),
    {
        let h = Headers { entries: Vec::new() };
        proof {
            assert(h@ =~= Fields::empty());
        }
        h
    }

    /// The number of fields.
    pub fn len(&self) -> (n: usize)
        ensures
            n == self@.len(),
    {
        self.entries.len()
    }

    /// Name and value of the field at place `i`.
    pub fn entry(&self, i: usize) -> (r: (&str, &str))
        requires
            i < self@.len(),
        ensures
            r.0@ == self@[i as int].0,
            r.1@ == self@[i as int].1,
    {
        (self.entries[i].0.as_str(), self.entries[i].1.as_str())
    }

    /// The place of the field called `name`, or `len()`.
    fn place(&self, name: &str) -> (p: usize)
        ensures
            p == position(self@, name@),
            p <= self@.len(),
    {
        let mut p: usize = 0;
        while p < self.entries.len() && !same_text(self.entries[p].0.as_str(), name)
            invariant
                p <= self@.len(),
                self@.len() == self.entries@.len(),
                forall|i: int| 0 <= i < p ==> (#[trigger] self@[i]).0 != name@,
            decreases self@.len() - p,
        {
            p += 1;
        }
        proof {
            lemma_position_is(self@, name@, p as int);
        }
        p
    }

    /// The value of the field called `name`.
    pub fn get(&self, name: &str) -> (r: Option<&str>)
        ensures
            match r {
                Some(v) => lookup(self@, name@) == Some(v@),
                None => lookup(self@, name@) is None,
            },
    {
        let p: usize = self.place(name);
        if p < self.entries.len() {
            Some(self.entries[p].1.as_str())
        } else {
            None
        }
    }

    /// Writes the field `name` with `value`. A field of that name keeps its
    /// place and takes the new value; a new name goes to the end.
    pub fn insert(&mut self, name: String, value: String)
        ensures
            final(self)@ == written(old(self)@, name@, value@),
    {
        proof {
            use_type_invariant(&*self);
            lemma_position(self@, name@);
            lemma_written_distinct(self@, name@, value@);
        }
        let p: usize = self.place(name.as_str());
        let mut held = Headers { entries: Vec::new() };
        core::mem::swap(self, &mut held);
        let mut entries = held.entries;
        if p < entries.len() {
            entries[p] = (name, value);
        } else {
            entries.push((name, value));
        }
        proof {
            assert(model(entries@) =~= written(old(self)@, name@, value@));
        }
        *self = Headers { entries };
    }
}

/// Writing a field leaves no name twice.
pub proof fn lemma_written_distinct(fields: Fields, name: Seq<char>, value: Seq<char>)
    requires
        distinct(fields),
    ensures
        distinct(written(fields, name, value)),
{
    lemma_position(fields, name);
    let p = position(fields, name) as int;
    let after = written(fields, name, value);
    assert forall|i: int, j: int| 0 <= i < j < after.len() implies (#[trigger] after[i]).0 != (
    #[trigger] after[j]).0 by {
        if p < fields.len() {
            if i == p {
                assert(fields[j].0 != fields[p].0);
            } else if j == p {
                assert(fields[i].0 != fields[p].0);
            } else {
                assert(fields[i].0 != fields[j].0);
            }
        } else {
            if j == fields.len() {
                assert(fields[i].0 != name);
            } else {
                assert(fields[i].0 != fields[j].0);
            }
        }
    }
}

/// A field that was written is found with the value it was written with.
pub proof fn lemma_written_is_found(fields: Fields, name: Seq<char>, value: Seq<char>)
    ensures
        lookup(written(fields, name, value), name) == Some(value),
{
    lemma_position(fields, name);
    let p = position(fields, name) as int;
    let after = written(fields, name, value);
    assert forall|i: int| 0 <= i < p implies (#[trigger] after[i]).0 != name by {
        assert(after[i] == fields[i]);
    }
    lemma_position_is(after, name, p);
}

/// Writing a field changes the value of no other.
pub proof fn lemma_written_keeps_others(
    fields: Fields,
    name: Seq<char>,
    value: Seq<char>,
    other: Seq<char>,
)
    requires
        other != name,
    ensures
        lookup(written(fields, name, value), other) == lookup(fields, other),
{
    lemma_position(fields, name);
    lemma_position(fields, other);
    let p = position(fields, name) as int;
    let q = position(fields, other) as int;
    let after = written(fields, name, value);
    assert forall|i: int| 0 <= i < q implies (#[trigger] after[i]).0 != other by {
        if i != p {
            assert(after[i] == fields[i]);
        }
    }
    if q < fields.len() {
        assert(q != p);
        assert(after[q] == fields[q]);
    }
    let place = if q < fields.len() {
        q
    } else {
        after.len() as int
    };
    lemma_position_is(after, other, place);
}

} // verus!
