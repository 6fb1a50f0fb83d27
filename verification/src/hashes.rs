//! Hashes: a map from field names to string values per key.

use crate::keyed::Keyed;
use crate::model::field_deleted;
use crate::model::field_set;
use crate::model::lookup;
use crate::model::no_hashes;
use crate::model::HashesModel;
use crate::scalars::text_of;
use vstd::hash_map::StringHashMap;
use crate::model::total;
use vstd::prelude::*;

verus! {

/// The fields of one hash, each value by its characters.
pub open spec fn fields_of(h: StringHashMap<String>) -> Map<Seq<char>, Seq<char>> {
    h@.map_values(|s: String| s@)
}

/// The hash collection.
pub struct Hashes {
    slots: Keyed<StringHashMap<String>>,
}

impl Hashes {
    #[verifier::type_invariant]
    spec fn inv(self) -> bool {
        self.slots.wf()
    }

    /// The fields of the hash at each key; none where nothing is stored.
    pub closed spec fn view(self) -> HashesModel {
        Map::total(
            |k: Seq<char>|
                if self.slots@.contains_key(k) {
                    fields_of(self.slots@[k])
                } else {
                    Map::empty()
                },
        )
    }

    /// Every key has an entry in the view: an empty one where nothing is
    /// stored.
    pub proof fn lemma_view_total(self)
        ensures
            total(self@),
    {
    }

    /// A collection in which every hash is empty.
    pub fn new() -> (s: Self)
        ensures
            s@ == no_hashes(),
    {
        Hashes { slots: Keyed::new() }
    }

    /// Sets `field` to `value` in the hash at `key`, whatever it was before.
    pub fn set(&mut self, key: String, field: String, value: String)
        ensures
            final(self)@ == field_set(old(self)@, key@, field@, value@),
    {
        proof {
            use_type_invariant(&*self);
        }
        let mut slots = Keyed::new();
        std::mem::swap(&mut slots, &mut self.slots);
        let hash = slots.entry(key, StringHashMap::new());
        let ghost before = fields_of(*hash);
        hash.insert(field, value);
        assert(fields_of(*hash) =~= before.insert(field@, value@));
        assert(before =~= old(self)@[key@]);
        self.slots = slots;
    }

    /// A copy of the value of `field` in the hash at `key`, if the field is
    /// set.
    pub fn get(&self, key: &str, field: &str) -> (r: Option<String>)
        ensures
            text_of(r) == lookup(self@[key@], field@),
    {
        proof {
            use_type_invariant(self);
        }
        match self.slots.get(key) {
            Some(hash) => match hash.get(field) {
                Some(v) => Some(v.clone()),
                None => None,
            },
            None => None,
        }
    }

    /// Deletes `field` from the hash at `key` and says whether it was set.
    pub fn del(&mut self, key: &str, field: &str) -> (r: bool)
        ensures
            r == old(self)@[key@].contains_key(field@),
            final(self)@ == field_deleted(old(self)@, key@, field@),
    {
        proof {
            use_type_invariant(&*self);
        }
        let mut slots = Keyed::new();
        std::mem::swap(&mut slots, &mut self.slots);
        let r = match slots.get_mut(key) {
            Some(hash) => {
                let r = hash.contains_key(field);
                hash.remove(field);
                r
            },
            None => false,
        };
        self.slots = slots;
        assert(self@[key@] =~= old(self)@[key@].remove(field@));
        r
    }
}

} // verus!
