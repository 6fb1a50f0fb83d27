//! One sorted set: members with a score each, kept in ascending order of
//! score and, among equal scores, of member name.

use crate::model::lookup;
use crate::model::Text;
use crate::score::Score;
use crate::text::compare;
use crate::text::lemma_text_transitive;
use crate::text::lemma_text_trichotomy;
use crate::text::text_before;
use crate::text::Place;
use vstd::hash_map::StringHashMap;
use vstd::prelude::*;

verus! {

/// A member with its score, as the model sees it.
pub type Entry = (Score, Text);

/// The members of a sorted set in their order.
pub type Ranking = Seq<Entry>;

/// The strict order of entries: by the rank of the score, then by name.
pub open spec fn entry_before(a: Entry, b: Entry) -> bool {
    a.0.rank() < b.0.rank() || (a.0.rank() == b.0.rank() && text_before(a.1, b.1))
}

/// The ranking ascends strictly and names no member twice.
pub open spec fn ranked(r: Ranking) -> bool {
    &&& forall|i: int, j: int|
        0 <= i < j < r.len() ==> entry_before(#[trigger] r[i], #[trigger] r[j])
    &&& forall|i: int, j: int|
        0 <= i < j < r.len() ==> (#[trigger] r[i]).1 != (#[trigger] r[j]).1
}

/// The ranking names `member` at place `i`.
pub open spec fn names_at(r: Ranking, member: Text, i: int) -> bool {
    0 <= i < r.len() && r[i].1 == member
}

/// The ranking names `member`.
pub open spec fn names(r: Ranking, member: Text) -> bool {
    exists|i: int| names_at(r, member, i)
}

/// The score of each member that the ranking names.
pub open spec fn scores_of(r: Ranking) -> Map<Text, Score> {
    Map::new(|m: Text| names(r, m), |m: Text| r[choose|i: int| names_at(r, m, i)].0)
}

/// Entries with different names are ordered one way or the other.
pub proof fn lemma_entry_total(a: Entry, b: Entry)
    requires
        a.1 != b.1,
    ensures
        entry_before(a, b) || entry_before(b, a),
{
    lemma_text_trichotomy(a.1, b.1);
}

/// No entry comes before itself, and of two entries at most one comes
/// before the other.
pub proof fn lemma_entry_asymmetric(a: Entry, b: Entry)
    ensures
        !(entry_before(a, b) && entry_before(b, a)),
        !entry_before(a, a),
{
    lemma_text_trichotomy(a.1, b.1);
    lemma_text_trichotomy(a.1, a.1);
}

/// The order of entries is transitive.
pub proof fn lemma_entry_transitive(a: Entry, b: Entry, c: Entry)
    requires
        entry_before(a, b),
        entry_before(b, c),
    ensures
        entry_before(a, c),
{
    if a.0.rank() == b.0.rank() && b.0.rank() == c.0.rank() {
        lemma_text_transitive(a.1, b.1, c.1);
    }
}

/// In a ranking each member has the score that stands beside its name.
pub proof fn lemma_scores_at(r: Ranking, i: int)
    requires
        ranked(r),
        0 <= i < r.len(),
    ensures
        scores_of(r).contains_key(r[i].1),
        scores_of(r)[r[i].1] == r[i].0,
{
    let m = r[i].1;
    assert(names_at(r, m, i));
    let j = choose|j: int| names_at(r, m, j);
    assert(j == i) by {
        if j < i {
            assert(r[j].1 != r[i].1);
        } else if i < j {
            assert(r[i].1 != r[j].1);
        }
    }
}

/// A ranking is fixed by the scores of its members: two rankings that give
/// the same members the same scores are the same sequence.
pub proof fn lemma_ranking_unique(r1: Ranking, r2: Ranking)
    requires
        ranked(r1),
        ranked(r2),
        scores_of(r1) == scores_of(r2),
    ensures
        r1 == r2,
    decreases r1.len(),
{
    if r1.len() == 0 {
        if r2.len() > 0 {
            lemma_scores_at(r2, 0);
            let m = r2[0].1;
            assert(names(r1, m));
            let i = choose|i: int| names_at(r1, m, i);
            assert(names_at(r1, m, i));
        }
        assert(r1 =~= r2);
    } else {
        let n1 = r1.len() - 1;
        let last1 = r1[n1];
        lemma_scores_at(r1, n1);
        assert(names(r2, last1.1));
        let k = choose|k: int| names_at(r2, last1.1, k);
        assert(names_at(r2, last1.1, k));
        lemma_scores_at(r2, k);
        assert(r2[k] == last1);
        let n2 = r2.len() - 1;
        // r1 names the last entry of r2 too, so that entry is not after last1.
        lemma_scores_at(r2, n2);
        let last2 = r2[n2];
        assert(names(r1, last2.1));
        let j = choose|j: int| names_at(r1, last2.1, j);
        assert(names_at(r1, last2.1, j));
        lemma_scores_at(r1, j);
        assert(r1[j] == last2);
        if k < n2 {
            assert(entry_before(r2[k], r2[n2]));
            if j < n1 {
                assert(entry_before(r1[j], r1[n1]));
            }
            lemma_entry_asymmetric(last1, last2);
        }
        assert(k == n2);
        lemma_removed(r1, n1);
        lemma_removed(r2, n2);
        assert(r1.remove(n1) =~= r1.drop_last());
        assert(r2.remove(n2) =~= r2.drop_last());
        lemma_ranking_unique(r1.drop_last(), r2.drop_last());
        assert(r1 =~= r1.drop_last().push(last1));
        assert(r2 =~= r2.drop_last().push(last1));
    }
}

/// To take an entry out of a ranking leaves a ranking, without that member.
pub proof fn lemma_removed(r: Ranking, i: int)
    requires
        ranked(r),
        0 <= i < r.len(),
    ensures
        ranked(r.remove(i)),
        scores_of(r.remove(i)) == scores_of(r).remove(r[i].1),
{
    let q = r.remove(i);
    assert forall|a: int, b: int| 0 <= a < b < q.len() implies entry_before(
        #[trigger] q[a],
        #[trigger] q[b],
    ) && q[a].1 != q[b].1 by {
        let a0 = if a < i { a } else { a + 1 };
        let b0 = if b < i { b } else { b + 1 };
        assert(q[a] == r[a0] && q[b] == r[b0]);
        assert(entry_before(r[a0], r[b0]));
        assert(r[a0].1 != r[b0].1);
    }
    assert(ranked(q));
    let gone = r[i].1;
    assert forall|m: Text| #[trigger] scores_of(q).contains_key(m) == scores_of(r).remove(gone).contains_key(m) by {
        if names(q, m) {
            let a = choose|a: int| names_at(q, m, a);
            let a0 = if a < i { a } else { a + 1 };
            assert(q[a] == r[a0]);
            assert(names_at(r, m, a0));
            if m == gone {
                if a0 < i {
                    assert(r[a0].1 != r[i].1);
                } else {
                    assert(r[i].1 != r[a0].1);
                }
            }
        }
        if names(r, m) && m != gone {
            let a0 = choose|a: int| names_at(r, m, a);
            let a = if a0 < i { a0 } else { a0 - 1 };
            assert(q[a] == r[a0]);
            assert(names_at(q, m, a));
        }
    }
    assert forall|m: Text| #[trigger] scores_of(q).contains_key(m) implies scores_of(q)[m] == scores_of(r).remove(gone)[m] by {
        let a = choose|a: int| names_at(q, m, a);
        assert(names_at(q, m, a));
        let a0 = if a < i { a } else { a + 1 };
        assert(q[a] == r[a0]);
        lemma_scores_at(q, a);
        lemma_scores_at(r, a0);
    }
    assert(scores_of(q) =~= scores_of(r).remove(gone));
}

/// To put an entry with a new name into a ranking, after all that come
/// before it and before all that come after it, leaves a ranking, with that
/// member at that score.
pub proof fn lemma_inserted(r: Ranking, p: int, e: Entry)
    requires
        ranked(r),
        !names(r, e.1),
        0 <= p <= r.len(),
        forall|j: int| 0 <= j < p ==> entry_before(#[trigger] r[j], e),
        forall|j: int| p <= j < r.len() ==> entry_before(e, #[trigger] r[j]),
    ensures
        ranked(r.insert(p, e)),
        scores_of(r.insert(p, e)) == scores_of(r).insert(e.1, e.0),
{
    let q = r.insert(p, e);
    assert forall|a: int, b: int| 0 <= a < b < q.len() implies entry_before(
        #[trigger] q[a],
        #[trigger] q[b],
    ) && q[a].1 != q[b].1 by {
        if a == p {
            assert(q[b] == r[b - 1]);
            assert(!names_at(r, e.1, b - 1));
        } else if b == p {
            assert(q[a] == r[a]);
            assert(!names_at(r, e.1, a));
        } else {
            let a0 = if a < p { a } else { a - 1 };
            let b0 = if b < p { b } else { b - 1 };
            assert(q[a] == r[a0] && q[b] == r[b0]);
            assert(entry_before(r[a0], r[b0]));
            assert(r[a0].1 != r[b0].1);
        }
    }
    assert(ranked(q));
    assert(q[p] == e);
    assert forall|m: Text| #[trigger] scores_of(q).contains_key(m) == scores_of(r).insert(e.1, e.0).contains_key(m) by {
        if names(q, m) && m != e.1 {
            let a = choose|a: int| names_at(q, m, a);
            let a0 = if a < p { a } else { a - 1 };
            assert(q[a] == r[a0]);
            assert(names_at(r, m, a0));
        }
        if names(r, m) {
            let a0 = choose|a: int| names_at(r, m, a);
            let a = if a0 < p { a0 } else { a0 + 1 };
            assert(q[a] == r[a0]);
            assert(names_at(q, m, a));
        }
        if m == e.1 {
            assert(names_at(q, m, p));
        }
    }
    assert forall|m: Text| #[trigger] scores_of(q).contains_key(m) implies scores_of(q)[m] == scores_of(r).insert(e.1, e.0)[m] by {
        let a = choose|a: int| names_at(q, m, a);
        assert(names_at(q, m, a));
        lemma_scores_at(q, a);
        if a != p {
            let a0 = if a < p { a } else { a - 1 };
            assert(q[a] == r[a0]);
            lemma_scores_at(r, a0);
            assert(names_at(r, m, a0));
        }
    }
    assert(scores_of(q) =~= scores_of(r).insert(e.1, e.0));
}

/// In a ranking that holds the entry `e`, the first place whose entry does
/// not come before `e` is the place of `e`.
pub proof fn lemma_found(r: Ranking, p: int, e: Entry)
    requires
        ranked(r),
        scores_of(r).contains_key(e.1),
        scores_of(r)[e.1] == e.0,
        0 <= p <= r.len(),
        forall|j: int| 0 <= j < p ==> entry_before(#[trigger] r[j], e),
        forall|j: int| p <= j < r.len() ==> !entry_before(#[trigger] r[j], e),
    ensures
        p < r.len(),
        r[p] == e,
{
    let i = choose|i: int| names_at(r, e.1, i);
    assert(names_at(r, e.1, i));
    lemma_scores_at(r, i);
    assert(r[i] == e);
    lemma_entry_asymmetric(e, e);
    if i < p {
        assert(entry_before(r[i], e));
    }
    if p < i {
        assert(entry_before(r[p], r[i]));
    }
}

/// A member of a sorted set: its score and its name.
#[derive(Debug)]
pub struct Member {
    pub score: Score,
    pub name: String,
}

/// The entry that a member stands for.
pub open spec fn entry_of(m: Member) -> Entry {
    (m.score, m.name@)
}

/// The ranking that a sequence of members stands for.
pub open spec fn ranking_of(members: Seq<Member>) -> Ranking {
    members.map_values(|m: Member| entry_of(m))
}

/// A sorted set: the members in their order, and the score of each member
/// by its name.
pub struct SortedSet {
    entries: Vec<Member>,
    index: StringHashMap<Score>,
}

impl SortedSet {
    /// The members in their order.
    pub closed spec fn view(self) -> Ranking {
        ranking_of(self.entries@)
    }

    /// The members ascend strictly in the order of entries, none is named
    /// twice, and the scores by name are those of the members.
    pub closed spec fn wf(self) -> bool {
        &&& ranked(self@)
        &&& self.index@ == scores_of(self@)
    }

    /// The members of a well-formed set stand in the order of entries.
    pub proof fn lemma_ranked(self)
        requires
            self.wf(),
        ensures
            ranked(self@),
    {
    }

    /// The empty sorted set.
    pub fn new() -> (s: Self)
        ensures
            s.wf(),
            s@ == Ranking::empty(),
    {
        let s = SortedSet { entries: Vec::new(), index: StringHashMap::new() };
        assert(s@ =~= Ranking::empty());
        assert(s.index@ =~= scores_of(s@));
        s
    }

    /// The number of members.
    pub fn len(&self) -> (n: usize)
        ensures
            n == self@.len(),
    {
        self.entries.len()
    }

    /// A copy of the members in their order.
    pub fn members(&self) -> (r: Vec<Member>)
        ensures
            ranking_of(r@) == self@,
            self.wf() ==> ranked(ranking_of(r@)),
    {
        let mut r: Vec<Member> = Vec::new();
        let mut i: usize = 0;
        while i < self.entries.len()
            invariant
                i <= self.entries.len(),
                ranking_of(r@) == self@.take(i as int),
            decreases self.entries.len() - i,
        {
            let m = &self.entries[i];
            let ghost before = r@;
            r.push(Member { score: m.score, name: m.name.clone() });
            assert(ranking_of(r@) =~= ranking_of(before).push(self@[i as int]));
            assert(self@.take(i + 1) =~= self@.take(i as int).push(self@[i as int]));
            i += 1;
        }
        assert(self@.take(i as int) =~= self@);
        r
    }

    /// The first place whose entry does not come before `(score, name)`,
    /// found by halving.
    fn lower_bound(&self, score: Score, name: &str) -> (p: usize)
        requires
            ranked(self@),
        ensures
            p <= self@.len(),
            forall|j: int| 0 <= j < p ==> entry_before(#[trigger] self@[j], (score, name@)),
            forall|j: int|
                p <= j < self@.len() ==> !entry_before(#[trigger] self@[j], (score, name@)),
    {
        let key = score.key();
        let ghost e = (score, name@);
        let mut lo: usize = 0;
        let mut hi: usize = self.entries.len();
        while lo < hi
            invariant
                lo <= hi <= self.entries.len(),
                self@.len() == self.entries.len(),
                ranked(self@),
                key == score.rank(),
                e == (score, name@),
                forall|j: int| 0 <= j < lo ==> entry_before(#[trigger] self@[j], e),
                forall|j: int| hi <= j < self@.len() ==> !entry_before(#[trigger] self@[j], e),
            decreases hi - lo,
        {
            let mid = lo + (hi - lo) / 2;
            let other = &self.entries[mid];
            let other_key = other.score.key();
            let before = other_key < key || (other_key == key && compare(
                other.name.as_str(),
                name,
            ) == Place::Before);
            assert(before == entry_before(self@[mid as int], e));
            if before {
                assert forall|j: int| 0 <= j < mid + 1 implies entry_before(
                    #[trigger] self@[j],
                    e,
                ) by {
                    if j < mid {
                        assert(entry_before(self@[j], self@[mid as int]));
                        lemma_entry_transitive(self@[j], self@[mid as int], e);
                    }
                }
                lo = mid + 1;
            } else {
                assert forall|j: int| mid <= j < self@.len() implies !entry_before(
                    #[trigger] self@[j],
                    e,
                ) by {
                    if mid < j && entry_before(self@[j], e) {
                        assert(entry_before(self@[mid as int], self@[j]));
                        lemma_entry_transitive(self@[mid as int], self@[j], e);
                    }
                }
                hi = mid;
            }
        }
        lo
    }

    /// The score of `member`, if the set names it.
    pub fn score(&self, member: &str) -> (r: Option<Score>)
        requires
            self.wf(),
        ensures
            r == lookup(scores_of(self@), member@),
    {
        match self.index.get(member) {
            Some(score) => Some(*score),
            None => None,
        }
    }

    /// Takes `member` out of the set and says whether it was there. The
    /// other members keep their scores, and so their order.
    pub fn remove(&mut self, member: &str) -> (r: bool)
        requires
            old(self).wf(),
        ensures
            final(self).wf(),
            r == scores_of(old(self)@).contains_key(member@),
            scores_of(final(self)@) == scores_of(old(self)@).remove(member@),
    {
        let found = match self.index.get(member) {
            Some(score) => Some(*score),
            None => None,
        };
        match found {
            Some(score) => {
                let i = self.lower_bound(score, member);
                proof {
                    lemma_found(self@, i as int, (score, member@));
                    lemma_removed(self@, i as int);
                }
                self.entries.remove(i);
                self.index.remove(member);
                assert(self@ =~= old(self)@.remove(i as int));
                true
            },
            None => {
                assert(scores_of(self@) =~= scores_of(self@).remove(member@));
                false
            },
        }
    }

    /// Gives `member` the score `score`: a new member takes its place in the
    /// order, and one that the set names already moves to its new place. The
    /// scores fix the order (`lemma_ranking_unique`), so the contract fixes
    /// the set that is left.
    pub fn add(&mut self, score: Score, member: String)
        requires
            old(self).wf(),
        ensures
            final(self).wf(),
            scores_of(final(self)@) == scores_of(old(self)@).insert(member@, score),
    {
        self.remove(member.as_str());
        assert(!names(self@, member@)) by {
            assert(!scores_of(self@).contains_key(member@));
        }
        let p = self.lower_bound(score, member.as_str());
        proof {
            let e = (score, member@);
            assert forall|j: int| p <= j < self@.len() implies entry_before(
                e,
                #[trigger] self@[j],
            ) by {
                assert(!names_at(self@, member@, j));
                lemma_entry_total(e, self@[j]);
            }
            lemma_inserted(self@, p as int, e);
            assert(scores_of(old(self)@).remove(member@).insert(member@, score) =~= scores_of(
                old(self)@,
            ).insert(member@, score));
        }
        let ghost before = self@;
        self.index.insert(member.clone(), score);
        self.entries.insert(p, Member { score, name: member });
        assert(self@ =~= before.insert(p as int, (score, member@)));
    }
}

} // verus!
