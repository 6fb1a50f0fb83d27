//! Sets: a set of strings per key.

use crate::keyed::Keyed;
use crate::model::member_added;
use crate::model::member_removed;
use crate::model::no_sets;
use crate::model::SetsModel;
use vstd::hash_set::StringHashSet;
use crate::model::total;
use vstd::prelude::*;

verus! {

/// The set collection.
pub struct Sets {
    slots: Keyed<StringHashSet>,
}

impl Sets {
    #[verifier::type_invariant]
    spec fn inv(self) -> bool {
        self.slots.wf()
    }

    /// The members of the set at each key; none where nothing is stored.
    pub closed spec fn view(self) -> SetsModel {
        Map::total(
            |k: Seq<char>|
                if self.slots@.contains_key(k) {
                    self.slots@[k]@
                } else {
                    Set::empty()
                },
        )
    }

    /// Every key has an entry in the view: an empty one where nothing is
    /// stored.
    pub proof fn lemma_view_total(self)
        ensures
            total(self@),
    {
    }

    /// A collection in which every set is empty.
    pub fn new() -> (s: Self)
        ensures
            s@ == no_sets(),
    {
        Sets { slots: Keyed::new() }
    }

    /// Adds `member` to the set at `key`; nothing changes if it is there
    /// already.
    pub fn add(&mut self, key: String, member: String)
        ensures
            final(self)@ == member_added(old(self)@, key@, member@),
    {
        proof {
            use_type_invariant(&*self);
        }
        let mut slots = Keyed::new();
        std::mem::swap(&mut slots, &mut self.slots);
        let set = slots.entry(key, StringHashSet::new());
        set.insert(member);
        self.slots = slots;
    }

    /// Whether `member` is in the set at `key`.
    pub fn contains(&self, key: &str, member: &str) -> (r: bool)
        ensures
            r == self@[key@].contains(member@),
    {
        proof {
            use_type_invariant(self);
        }
        match self.slots.get(key) {
            Some(set) => set.contains(member),
            None => false,
        }
    }

    /// Removes `member` from the set at `key` and says whether it was there.
    pub fn remove(&mut self, key: &str, member: &str) -> (r: bool)
        ensures
            r == old(self)@[key@].contains(member@),
            final(self)@ == member_removed(old(self)@, key@, member@),
    {
        proof {
            use_type_invariant(&*self);
        }
        let mut slots = Keyed::new();
        std::mem::swap(&mut slots, &mut self.slots);
        let r = match slots.get_mut(key) {
            Some(set) => set.remove(member),
            None => false,
        };
        self.slots = slots;
        assert(self@[key@] =~= old(self)@[key@].remove(member@));
        r
    }
}

} // verus!
