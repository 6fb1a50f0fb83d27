//! Sorted sets: a sorted set per key.

use crate::keyed::Keyed;
use crate::model::lookup;
use crate::model::no_sorted_sets;
use crate::model::scored;
use crate::model::unscored;
use crate::model::SortedSetsModel;
use crate::score::Score;
use crate::sorted_set::ranked;
use crate::sorted_set::ranking_of;
use crate::sorted_set::Member;
use crate::sorted_set::scores_of;
use crate::sorted_set::Ranking;
use crate::sorted_set::SortedSet;
use vstd::prelude::*;

verus! {

/// The sorted-set collection.
pub struct SortedSets {
    slots: Keyed<SortedSet>,
}

impl SortedSets {
    #[verifier::type_invariant]
    spec fn inv(self) -> bool {
        &&& self.slots.wf()
        &&& forall|k: Seq<char>| #[trigger] self.slots@.contains_key(k) ==> self.slots@[k].wf()
    }

    /// The members of the sorted set at `key` in the order in which they are
    /// stored.
    pub closed spec fn ranking(self, key: Seq<char>) -> Ranking {
        if self.slots@.contains_key(key) {
            self.slots@[key]@
        } else {
            Seq::empty()
        }
    }

    /// The score of each member of the sorted set at each key.
    pub open spec fn view(self) -> SortedSetsModel {
        Map::total(|k: Seq<char>| scores_of(self.ranking(k)))
    }

    /// At every key the stored order ascends strictly by score and then by
    /// member name, and names no member twice.
    pub open spec fn ordered(self) -> bool {
        forall|k: Seq<char>| ranked(#[trigger] self.ranking(k))
    }

    /// The invariant gives the order at every key.
    proof fn lemma_ordered(self)
        requires
            self.inv(),
        ensures
            self.ordered(),
    {
        assert forall|k: Seq<char>| ranked(#[trigger] self.ranking(k)) by {
            if self.slots@.contains_key(k) {
                self.slots@[k].lemma_ranked();
            }
        }
    }

    /// A collection in which every sorted set is empty.
    pub fn new() -> (s: Self)
        ensures
            s@ == no_sorted_sets(),
            s.ordered(),
    {
        let s = SortedSets { slots: Keyed::new() };
        proof {
            s.lemma_ordered();
        }
        assert forall|k: Seq<char>| scores_of(#[trigger] s.ranking(k)) == Map::<
            Seq<char>,
            Score,
        >::empty() by {
            assert(scores_of(s.ranking(k)) =~= Map::<Seq<char>, Score>::empty());
        }
        assert(s@ =~= no_sorted_sets());
        s
    }

    /// Gives `member` the score `score` in the sorted set at `key`, whether
    /// the set names it already or not.
    pub fn add(&mut self, key: String, score: Score, member: String)
        ensures
            final(self)@ == scored(old(self)@, key@, score, member@),
            final(self).ordered(),
    {
        proof {
            use_type_invariant(&*self);
        }
        let mut slots = Keyed::new();
        std::mem::swap(&mut slots, &mut self.slots);
        let set = slots.entry(key, SortedSet::new());
        set.add(score, member);
        self.slots = slots;
        proof {
            self.lemma_ordered();
        }
        assert forall|k: Seq<char>| k != key@ implies #[trigger] self.ranking(k) == old(
            self,
        ).ranking(k) by {}
    }

    /// The score of `member` in the sorted set at `key`, if the set names it.
    pub fn score(&self, key: &str, member: &str) -> (r: Option<Score>)
        ensures
            r == lookup(self@[key@], member@),
            self.ordered(),
    {
        proof {
            use_type_invariant(self);
            self.lemma_ordered();
        }
        match self.slots.get(key) {
            Some(set) => set.score(member),
            None => None,
        }
    }

    /// A copy of the members of the sorted set at `key`, in ascending order
    /// of score and, among equal scores, of name.
    pub fn members(&self, key: &str) -> (r: Vec<Member>)
        ensures
            ranking_of(r@) == self.ranking(key@),
            scores_of(ranking_of(r@)) == self@[key@],
            ranked(ranking_of(r@)),
    {
        proof {
            use_type_invariant(self);
            self.lemma_ordered();
        }
        match self.slots.get(key) {
            Some(set) => set.members(),
            None => Vec::new(),
        }
    }

    /// Removes `member` from the sorted set at `key` and says whether it was
    /// there.
    pub fn remove(&mut self, key: &str, member: &str) -> (r: bool)
        ensures
            r == old(self)@[key@].contains_key(member@),
            final(self)@ == unscored(old(self)@, key@, member@),
            final(self).ordered(),
    {
        proof {
            use_type_invariant(&*self);
        }
        let mut slots = Keyed::new();
        std::mem::swap(&mut slots, &mut self.slots);
        let r = match slots.get_mut(key) {
            Some(set) => set.remove(member),
            None => false,
        };
        self.slots = slots;
        proof {
            self.lemma_ordered();
        }
        assert forall|k: Seq<char>| k != key@ implies #[trigger] self.ranking(k) == old(
            self,
        ).ranking(k) by {}
        assert(self@[key@] =~= old(self)@[key@].remove(member@));
        r
    }
}

} // verus!
