//! A table of values, read by position.
use vstd::prelude::*;

verus! {

/// A table of values, read by position.
pub struct ObjectTable<V>(Vec<V>);

impl<V> View for ObjectTable<V> {
    type V = Seq<V>;

    closed spec fn view(&self) -> Seq<V> {
        self.0@
    }
}

impl<V> ObjectTable<V> {
    pub fn new() -> (t: ObjectTable<V>)
        ensures
            t@ == Seq::<V>::empty(),
    {
        ObjectTable(Vec::new())
    }

    /// A cursor over the values, from the first.
    pub fn iter(&self) -> (it: ObjectTableIter<'_, V>)
        ensures
            it@ == (self@, 0int),
    {
        ObjectTableIter { inner: self.0.as_slice(), position: 0 }
    }

    /// The value at `index`, if the table holds one there.
    pub fn get(&self, index: usize) -> (r: Option<&V>)
        ensures
            index < self@.len() ==> r == Some(&self@[index as int]),
            index >= self@.len() ==> r is None,
    {
        if index < self.0.len() {
            Some(&self.0[index])
        } else {
            None
        }
    }

    pub fn as_slice(&self) -> (s: &[V])
        ensures
            s@ == self@,
    {
        self.0.as_slice()
    }

    /// The values, as a slice: what `as_slice` gives.
    pub fn as_ref(&self) -> (s: &[V])
        ensures
            s@ == self@,
    {
        self.as_slice()
    }

    /// The value at `index`, which the table holds.
    pub fn index(&self, index: usize) -> (r: &V)
        requires
            index < self@.len(),
        ensures
            *r == self@[index as int],
    {
        &self.0[index]
    }
}

/// A cursor over the values of a table.
pub struct ObjectTableIter<'a, V> {
    inner: &'a [V],
    position: usize,
}

impl<'a, V> View for ObjectTableIter<'a, V> {
    type V = (Seq<V>, int);

    closed spec fn view(&self) -> (Seq<V>, int) {
        (self.inner@, self.position as int)
    }
}

impl<'a, V> ObjectTableIter<'a, V> {
    /// The next value, if any is left; the cursor moves past it.
    pub fn next(&mut self) -> (r: Option<&'a V>)
        ensures
            old(self)@.1 < old(self)@.0.len() ==> r == Some(&old(self)@.0[old(self)@.1])
                && final(self)@ == (old(self)@.0, old(self)@.1 + 1),
            old(self)@.1 >= old(self)@.0.len() ==> r is None && final(self)@ == old(self)@,
    {
        if self.position < self.inner.len() {
            let value = &self.inner[self.position];
            self.position = self.position + 1;
            Some(value)
        } else {
            None
        }
    }
}

} // verus!
