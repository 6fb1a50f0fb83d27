//! What holds of the collections whatever they contain, proved from the
//! model that their contracts are stated in.
//!
//! Each law speaks of the states that the operations lead to: `old(self)@`
//! is the state `m` before an operation, and the operation's contract gives
//! the state after it and the value returned, as the model functions used
//! here.

use crate::model::after_all;
use crate::model::extended;
use crate::model::field_deleted;
use crate::model::field_set;
use crate::model::key_of;
use crate::model::kind_of;
use crate::model::lookup;
use crate::model::member_added;
use crate::model::member_removed;
use crate::model::new_store;
use crate::model::no_hashes;
use crate::model::no_lists;
use crate::model::no_scalars;
use crate::model::no_sets;
use crate::model::no_sorted_sets;
use crate::model::popped;
use crate::model::popped_times;
use crate::model::pushed;
use crate::model::pushed_each;
use crate::model::scored;
use crate::model::tail;
use crate::model::total;
use crate::model::unscored;
use crate::model::HashesModel;
use crate::model::Kind;
use crate::model::ListsModel;
use crate::model::ScalarsModel;
use crate::model::SetsModel;
use crate::model::SortedSetsModel;
use crate::model::Text;
use crate::model::Write;
use crate::score::Score;
use vstd::prelude::*;

verus! {

/// In a new store every read finds nothing: no scalar, no hash field and no
/// score at any key, every list of length 0 and every set without members.
pub proof fn law_new_store_is_empty(key: Text, name: Text)
    ensures
        lookup(no_scalars(), key) is None,
        no_lists()[key].len() == 0,
        tail(no_lists(), key) is None,
        lookup(no_hashes()[key], name) is None,
        !no_sets()[key].contains(name),
        lookup(no_sorted_sets()[key], name) is None,
{
}

/// A write at one key changes nothing at any other key. So a key that was
/// never written reads as in a new store.
pub proof fn law_writes_touch_one_key(
    scalars: ScalarsModel,
    lists: ListsModel,
    hashes: HashesModel,
    sets: SetsModel,
    sorted_sets: SortedSetsModel,
    key: Text,
    other: Text,
    name: Text,
    value: Text,
    values: Seq<Text>,
    score: Score,
)
    requires
        other != key,
    ensures
        lookup(scalars.insert(key, value), other) == lookup(scalars, other),
        pushed(lists, key, value)[other] == lists[other],
        extended(lists, key, values)[other] == lists[other],
        popped(lists, key)[other] == lists[other],
        field_set(hashes, key, name, value)[other] == hashes[other],
        field_deleted(hashes, key, name)[other] == hashes[other],
        member_added(sets, key, name)[other] == sets[other],
        member_removed(sets, key, name)[other] == sets[other],
        scored(sorted_sets, key, score, name)[other] == sorted_sets[other],
        unscored(sorted_sets, key, name)[other] == sorted_sets[other],
{
}

/// A key that no write of a collection went to reads as absent in that
/// collection, whatever was written elsewhere: no scalar, no hash field and
/// no score, a list of length 0, a set without members.
pub proof fn law_unwritten_keys_read_absent(writes: Seq<Write>, kind: Kind, key: Text, name: Text)
    requires
        forall|i: int|
            0 <= i < writes.len() && kind_of(#[trigger] writes[i]) == kind ==> key_of(writes[i])
                != key,
    ensures
        kind == Kind::Scalars ==> lookup(after_all(new_store(), writes).scalars, key) is None,
        kind == Kind::Lists ==> after_all(new_store(), writes).lists[key].len() == 0,
        kind == Kind::Lists ==> tail(after_all(new_store(), writes).lists, key) is None,
        kind == Kind::Hashes ==> lookup(after_all(new_store(), writes).hashes[key], name) is None,
        kind == Kind::Sets ==> !after_all(new_store(), writes).sets[key].contains(name),
        kind == Kind::SortedSets ==> lookup(
            after_all(new_store(), writes).sorted_sets[key],
            name,
        ) is None,
    decreases writes.len(),
{
    if writes.len() > 0 {
        let before = writes.drop_last();
        assert forall|i: int|
            0 <= i < before.len() && kind_of(#[trigger] before[i]) == kind implies key_of(
            before[i],
        ) != key by {
            assert(before[i] == writes[i]);
        }
        law_unwritten_keys_read_absent(before, kind, key, name);
    }
}

/// A `get` after a `set` of the same key returns the value set, the empty
/// string included.
pub proof fn law_get_after_set(m: ScalarsModel, key: Text, value: Text)
    ensures
        lookup(m.insert(key, value), key) == Some(value),
        lookup(m.insert(key, Seq::empty()), key) == Some(Seq::<char>::empty()),
{
}

/// After the values were pushed one by one the list at the key is what it
/// was, followed by the values in the order of the pushes; the other lists
/// are what they were.
pub proof fn lemma_pushed_each(m: ListsModel, key: Text, values: Seq<Text>)
    ensures
        pushed_each(m, key, values)[key] == m[key] + values,
        forall|k: Text| k != key ==> #[trigger] pushed_each(m, key, values)[k] == m[k],
        forall|k: Text| #[trigger]
            m.contains_key(k) ==> pushed_each(m, key, values).contains_key(k),
    decreases values.len(),
{
    if values.len() > 0 {
        lemma_pushed_each(m, key, values.drop_last());
    }
}

/// After `n` pops the list at the key has lost its last `n` values, or all
/// of them if it had fewer; the other lists are what they were.
pub proof fn lemma_popped_times(m: ListsModel, key: Text, n: nat)
    ensures
        popped_times(m, key, n)[key] == m[key].take(
            if n <= m[key].len() {
                m[key].len() - n
            } else {
                0
            },
        ),
        forall|k: Text| k != key ==> #[trigger] popped_times(m, key, n)[k] == m[k],
    decreases n,
{
    if n > 0 {
        lemma_popped_times(m, key, (n - 1) as nat);
    }
}

/// Values pushed in order come back in reverse order: after `v1 .. vn` were
/// pushed, the pop number `i` (counting from 0) returns the value pushed as
/// number `n - 1 - i`.
pub proof fn law_pops_reverse_pushes(m: ListsModel, key: Text, values: Seq<Text>, i: nat)
    requires
        i < values.len(),
    ensures
        tail(popped_times(pushed_each(m, key, values), key, i), key) == Some(
            values[values.len() - 1 - i],
        ),
{
    let full = pushed_each(m, key, values);
    lemma_pushed_each(m, key, values);
    lemma_popped_times(full, key, i);
}

/// After as many pops as there were pushes the list is what it was before
/// them. If it was empty then, the next pop returns nothing.
pub proof fn law_pops_undo_pushes(m: ListsModel, key: Text, values: Seq<Text>)
    ensures
        popped_times(pushed_each(m, key, values), key, values.len())[key] == m[key],
        m[key].len() == 0 ==> tail(
            popped_times(pushed_each(m, key, values), key, values.len()),
            key,
        ) is None,
{
    let full = pushed_each(m, key, values);
    lemma_pushed_each(m, key, values);
    lemma_popped_times(full, key, values.len());
}

/// `push_multi` is the same as pushing the values one by one: it leaves the
/// same lists, so the same length and the same pops.
pub proof fn law_push_multi_is_repeated_push(m: ListsModel, key: Text, values: Seq<Text>)
    requires
        total(m),
    ensures
        extended(m, key, values) == pushed_each(m, key, values),
{
    lemma_pushed_each(m, key, values);
}

/// With three values: `push_multi` of `[a, b, c]` leaves what three pushes
/// leave.
pub proof fn law_push_multi_of_three(m: ListsModel, key: Text, a: Text, b: Text, c: Text)
    ensures
        extended(m, key, seq![a, b, c]) == pushed(pushed(pushed(m, key, a), key, b), key, c),
{
    assert(m[key] + seq![a, b, c] =~= m[key].push(a).push(b).push(c));
}

/// Pushes of the same values in any order leave a list that is longer by
/// their number and holds, beside what it held, each of them as often as it
/// was pushed. Operations under the lists' lock happen one after another
/// in some order, so this is what pushes from several threads leave.
pub proof fn law_pushes_in_any_order(
    m: ListsModel,
    key: Text,
    values: Seq<Text>,
    order: Seq<Text>,
)
    requires
        order.to_multiset() == values.to_multiset(),
    ensures
        pushed_each(m, key, order)[key].len() == m[key].len() + values.len(),
        pushed_each(m, key, order)[key].to_multiset() == m[key].to_multiset().add(
            values.to_multiset(),
        ),
{
    lemma_pushed_each(m, key, order);
    vstd::seq_lib::lemma_multiset_commutative(m[key], order);
    order.to_multiset_ensures();
    values.to_multiset_ensures();
}

/// A field that was set and then deleted: the delete finds it (returns
/// true) and a later `get` finds nothing. A field that is not set is not
/// found by a delete.
pub proof fn law_delete_after_set(m: HashesModel, key: Text, field: Text, value: Text)
    ensures
        field_set(m, key, field, value)[key].contains_key(field),
        lookup(field_deleted(field_set(m, key, field, value), key, field)[key], field) is None,
        !field_deleted(m, key, field)[key].contains_key(field),
        !no_hashes()[key].contains_key(field),
{
}

/// To add a member twice is to add it once. The member is then in the set;
/// one removal finds it (returns true) and a second finds nothing.
pub proof fn law_add_is_idempotent(m: SetsModel, key: Text, member: Text)
    ensures
        member_added(member_added(m, key, member), key, member) == member_added(m, key, member),
        member_added(m, key, member)[key].contains(member),
        !member_removed(member_added(m, key, member), key, member)[key].contains(member),
{
    assert(m[key].insert(member).insert(member) =~= m[key].insert(member));
    assert(member_added(member_added(m, key, member), key, member) =~= member_added(
        m,
        key,
        member,
    ));
}

/// The last score given to a member is the one it has, and the member is
/// there once: to score it twice is to give it the second score. After
/// its removal it has no score.
pub proof fn law_last_score_wins(
    m: SortedSetsModel,
    key: Text,
    member: Text,
    first: Score,
    second: Score,
)
    ensures
        lookup(scored(scored(m, key, first, member), key, second, member)[key], member) == Some(
            second,
        ),
        scored(scored(m, key, first, member), key, second, member) == scored(
            m,
            key,
            second,
            member,
        ),
        lookup(unscored(scored(m, key, first, member), key, member)[key], member) is None,
{
    assert(m[key].insert(member, first).insert(member, second) =~= m[key].insert(member, second));
    assert(scored(scored(m, key, first, member), key, second, member) =~= scored(
        m,
        key,
        second,
        member,
    ));
}

} // verus!
