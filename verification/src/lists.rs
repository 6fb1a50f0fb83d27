//! Lists: a stack of strings per key, pushed and popped at the tail.

use crate::keyed::Keyed;
use crate::model::extended;
use crate::model::no_lists;
use crate::model::popped;
use crate::model::pushed;
use crate::model::tail;
use crate::model::ListsModel;
use crate::scalars::text_of;
use crate::model::total;
use vstd::prelude::*;

verus! {

/// The list collection.
pub struct Lists {
    slots: Keyed<Vec<String>>,
}

impl Lists {
    #[verifier::type_invariant]
    spec fn inv(self) -> bool {
        self.slots.wf()
    }

    /// The list of each key, head first; empty where nothing is stored.
    pub closed spec fn view(self) -> ListsModel {
        Map::total(
            |k: Seq<char>|
                if self.slots@.contains_key(k) {
                    self.slots@[k].deep_view()
                } else {
                    Seq::empty()
                },
        )
    }

    /// Every key has an entry in the view: an empty one where nothing is
    /// stored.
    pub proof fn lemma_view_total(self)
        ensures
            total(self@),
    {
    }

    /// A collection in which every list is empty.
    pub fn new() -> (s: Self)
        ensures
            s@ == no_lists(),
    {
        Lists { slots: Keyed::new() }
    }

    /// Appends `value` to the list at `key` and returns the new length.
    pub fn push(&mut self, key: String, value: String) -> (n: usize)
        ensures
            final(self)@ == pushed(old(self)@, key@, value@),
            n == final(self)@[key@].len(),
    {
        proof {
            use_type_invariant(&*self);
        }
        let mut slots = Keyed::new();
        std::mem::swap(&mut slots, &mut self.slots);
        let list = slots.entry(key, Vec::new());
        list.push(value);
        let n = list.len();
        assert(slots@[key@].deep_view() =~= old(self)@[key@].push(value@));
        self.slots = slots;
        n
    }

    /// Appends `values`, first to last, to the list at `key` and returns the
    /// new length.
    pub fn push_multi(&mut self, key: String, values: Vec<String>) -> (n: usize)
        ensures
            final(self)@ == extended(old(self)@, key@, values.deep_view()),
            n == final(self)@[key@].len(),
    {
        proof {
            use_type_invariant(&*self);
        }
        let mut slots = Keyed::new();
        std::mem::swap(&mut slots, &mut self.slots);
        let mut values = values;
        let ghost added = values.deep_view();
        let list = slots.entry(key, Vec::new());
        let ghost before = list.deep_view();
        list.append(&mut values);
        let n = list.len();
        assert(list.deep_view() =~= before + added);
        self.slots = slots;
        n
    }

    /// Removes the value at the tail of the list at `key` and returns it, if
    /// the list holds any.
    pub fn pop(&mut self, key: &str) -> (r: Option<String>)
        ensures
            text_of(r) == tail(old(self)@, key@),
            final(self)@ == popped(old(self)@, key@),
    {
        proof {
            use_type_invariant(&*self);
        }
        let mut slots = Keyed::new();
        std::mem::swap(&mut slots, &mut self.slots);
        let r = match slots.get_mut(key) {
            Some(list) => {
                let ghost before = list.deep_view();
                let r = list.pop();
                assert(r is Some ==> list.deep_view() =~= before.drop_last());
                r
            },
            None => None,
        };
        self.slots = slots;
        r
    }

    /// The length of the list at `key`.
    pub fn len(&self, key: &str) -> (n: usize)
        ensures
            n == self@[key@].len(),
    {
        proof {
            use_type_invariant(self);
        }
        match self.slots.get(key) {
            Some(list) => list.len(),
            None => 0,
        }
    }
}

} // verus!
