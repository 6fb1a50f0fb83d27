//! Scalars: one string value per key.

use crate::model::lookup;
use crate::model::no_scalars;
use crate::model::ScalarsModel;
use vstd::hash_map::StringHashMap;
use vstd::prelude::*;

verus! {

/// What an optional string holds, by its characters.
pub open spec fn text_of(s: Option<String>) -> Option<Seq<char>> {
    match s {
        Some(s) => Some(s@),
        None => None,
    }
}

/// The scalar collection.
pub struct Scalars {
    values: StringHashMap<String>,
}

impl Scalars {
    /// The value of each key that is set.
    pub closed spec fn view(self) -> ScalarsModel {
        self.values@.map_values(|s: String| s@)
    }

    /// A collection in which no key is set.
    pub fn new() -> (s: Self)
        ensures
            s@ == no_scalars(),
    {
        Scalars { values: StringHashMap::new() }
    }

    /// Sets `key` to `value`, whatever it was before.
    pub fn set(&mut self, key: String, value: String)
        ensures
            final(self)@ == old(self)@.insert(key@, value@),
    {
        self.values.insert(key, value);
    }

    /// A copy of the value of `key`, if it is set.
    pub fn get(&self, key: &str) -> (r: Option<String>)
        ensures
            text_of(r) == lookup(self@, key@),
    {
        match self.values.get(key) {
            Some(v) => Some(v.clone()),
            None => None,
        }
    }
}

} // verus!
