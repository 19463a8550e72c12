//! A small map from names to values that remembers the order of insertion.
//!
//! Uniforms and attribute locations are looked up by the name they have in the
//! shader sources; a material holds a handful of them, and they are walked in a
//! fixed order every frame.

use vstd::prelude::*;
use vstd::string::*;
use crate::util::text::same_text;

verus! {

/// The names of a map once a value has been stored under `name`.
pub open spec fn names_with(names: Seq<Seq<char>>, name: Seq<char>) -> Seq<Seq<char>> {
    if names.contains(name) {
        names
    } else {
        names.push(name)
    }
}

/// The values of a map once `value` has been stored under `name`: in place of the
/// value that was there, or behind all others where the name is new.
pub open spec fn values_with<X>(names: Seq<Seq<char>>, values: Seq<X>, name: Seq<char>, value: X) -> Seq<X> {
    if names.contains(name) {
        values.update(names.index_of(name), value)
    } else {
        values.push(value)
    }
}

/// Values stored under names, no name twice, in the order in which the names came.
pub struct NameMap<X> {
    names: Vec<String>,
    values: Vec<X>,
}

impl<X> NameMap<X> {
    /// The names, in the order in which they came.
    pub closed spec fn names(&self) -> Seq<Seq<char>> {
        Seq::new(self.names@.len(), |i: int| self.names@[i]@)
    }

    /// The values, each at the position of its name.
    pub closed spec fn values(&self) -> Seq<X> {
        self.values@
    }

    /// Every name is there once and has one value.
    pub open spec fn wf(&self) -> bool {
        &&& self.names().len() == self.values().len()
        &&& self.names().no_duplicates()
    }

    /// Whether a value is stored under `name`.
    pub open spec fn has(&self, name: Seq<char>) -> bool {
        self.names().contains(name)
    }

    /// The position of `name`.
    pub open spec fn position(&self, name: Seq<char>) -> int {
        self.names().index_of(name)
    }

    /// The value stored under `name`.
    pub open spec fn value_of(&self, name: Seq<char>) -> X {
        self.values()[self.position(name)]
    }

    /// In a well-formed map a name sits at one position only.
    pub proof fn lemma_position(&self, i: int)
        requires
            self.wf(),
            0 <= i < self.names().len(),
        ensures
            self.has(self.names()[i]),
            self.position(self.names()[i]) == i,
            self.value_of(self.names()[i]) == self.values()[i],
    {
        let name = self.names()[i];
        assert(self.names().contains(name));
        let j = self.names().index_of(name);
        assert(self.names()[j] == name);
    }

    /// An empty map.
    pub fn new() -> (map: NameMap<X>)
        ensures
            map.wf(),
            map.names().len() == 0,
    {
        NameMap { names: Vec::new(), values: Vec::new() }
    }

    /// Number of names.
    pub fn len(&self) -> (n: usize)
        requires
            self.wf(),
        ensures
            n == self.names().len(),
    {
        self.names.len()
    }

    /// The position of `name`, if a value is stored under it.
    pub fn find(&self, name: &str) -> (found: Option<usize>)
        requires
            self.wf(),
        ensures
            found.is_some() == self.has(name@),
            found.is_some() ==> found.unwrap() == self.position(name@) && found.unwrap()
                < self.names().len(),
    {
        let mut i: usize = 0;
        while i < self.names.len()
            invariant
                self.wf(),
                0 <= i <= self.names@.len(),
                forall|k: int| 0 <= k < i ==> self.names()[k] != name@,
            decreases self.names@.len() - i,
        {
            if same_text(self.names[i].as_str(), name) {
                proof {
                    assert(self.names()[i as int] == name@);
                    self.lemma_position(i as int);
                }
                return Some(i);
            }
            i += 1;
        }
        proof {
            if self.names().contains(name@) {
                let k = choose|k: int| 0 <= k < self.names().len() && self.names()[k] == name@;
                assert(false);
            }
        }
        None
    }

    /// Whether a value is stored under `name`.
    pub fn contains_key(&self, name: &str) -> (found: bool)
        requires
            self.wf(),
        ensures
            found == self.has(name@),
    {
        self.find(name).is_some()
    }

    /// The value stored under `name`.
    pub fn get(&self, name: &str) -> (value: Option<&X>)
        requires
            self.wf(),
        ensures
            value.is_some() == self.has(name@),
            value.is_some() ==> *value.unwrap() == self.value_of(name@),
    {
        match self.find(name) {
            Some(i) => Some(&self.values[i]),
            None => None,
        }
    }

    /// The name at position `i`.
    pub fn name_at(&self, i: usize) -> (name: &str)
        requires
            self.wf(),
            i < self.names().len(),
        ensures
            name@ == self.names()[i as int],
    {
        self.names[i].as_str()
    }

    /// The value at position `i`.
    pub fn value_at(&self, i: usize) -> (value: &X)
        requires
            self.wf(),
            i < self.names().len(),
        ensures
            *value == self.values()[i as int],
    {
        &self.values[i]
    }

    /// The value at position `i`, to be changed in place; the names stay as they are.
    pub fn value_at_mut(&mut self, i: usize) -> (value: &mut X)
        requires
            old(self).wf(),
            i < old(self).names().len(),
        ensures
            *value == old(self).values()[i as int],
            final(self).names() == old(self).names(),
            final(self).values() == old(self).values().update(i as int, *final(value)),
    {
        &mut self.values[i]
    }

    /// Replaces the value at position `i`; the names stay as they are.
    pub fn set_value_at(&mut self, i: usize, value: X)
        requires
            old(self).wf(),
            i < old(self).names().len(),
        ensures
            final(self).wf(),
            final(self).names() == old(self).names(),
            final(self).values() == old(self).values().update(i as int, value),
    {
        self.values[i] = value;
        assert(self.names() =~= old(self).names());
    }

    /// Stores `value` under `name`: in place of the value that was there, or behind
    /// all others where the name is new.
    pub fn insert(&mut self, name: String, value: X)
        requires
            old(self).wf(),
        ensures
            final(self).wf(),
            final(self).names() == names_with(old(self).names(), name@),
            final(self).values() == values_with(old(self).names(), old(self).values(), name@, value),
    {
        match self.find(name.as_str()) {
            Some(i) => {
                self.values[i] = value;
                assert(self.names() =~= old(self).names());
            },
            None => {
                self.names.push(name);
                self.values.push(value);
                assert(self.names() =~= old(self).names().push(name@));
            },
        }
    }
}

} // verus!
