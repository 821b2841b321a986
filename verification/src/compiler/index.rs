//! The table of names that the compiler keeps: a hash map from identifiers
//! to indices.

use vstd::prelude::*;

verus! {

/// A map from identifiers to indices, kept in a `hashbrown::HashMap`.
#[verifier::external_body]
pub struct NameIndex {
    map: hashbrown::HashMap<String, u8>,
}

/// The entries of a name index: what each name that it holds is bound to.
pub uninterp spec fn entries(index: NameIndex) -> Map<Seq<char>, u8>;

impl NameIndex {
    /// Calls `hashbrown::HashMap::new`. Trusted: the new map has no entries.
    #[verifier::external_body]
    pub(crate) fn new() -> (index: Self)
        ensures
            entries(index) == (Map::<Seq<char>, u8>::empty()),
    {
        NameIndex { map: hashbrown::HashMap::new() }
    }

    /// Calls `hashbrown::HashMap::insert`. Trusted: afterwards the name is
    /// bound to `value` and every other name is bound as before; the result
    /// is what the name was bound to before, if it was bound.
    #[verifier::external_body]
    pub(crate) fn insert(&mut self, name: String, value: u8) -> (previous: Option<u8>)
        ensures
            entries(*final(self)) == entries(*old(self)).insert(name@, value),
            previous == (if entries(*old(self)).contains_key(name@) {
                Some(entries(*old(self))[name@])
            } else {
                None
            }),
    {
        self.map.insert(name, value)
    }

    /// Calls `hashbrown::HashMap::contains_key`. Trusted: the result says
    /// whether the name is bound.
    #[verifier::external_body]
    pub(crate) fn contains_key(&self, name: &String) -> (r: bool)
        ensures
            r == entries(*self).contains_key(name@),
    {
        self.map.contains_key(name)
    }

    /// Calls `hashbrown::HashMap::get`. Trusted: the result is what the name
    /// is bound to, or `None` where it is not bound.
    #[verifier::external_body]
    pub(crate) fn get(&self, name: &String) -> (r: Option<u8>)
        ensures
            r == (if entries(*self).contains_key(name@) {
                Some(entries(*self)[name@])
            } else {
                None
            }),
    {
        self.map.get(name).copied()
    }
}

} // verus!
