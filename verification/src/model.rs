//! The mathematical model of the five collections.
//!
//! Each collection is a map from keys to entries. A key that was never
//! written and a key whose entry has become empty read the same, so the
//! model of the lists, hashes, sets and sorted sets is a total map: a key
//! without an entry maps to the empty entry. Scalars have no empty entry (the
//! empty string is a value like any other), so their model is a partial map.

use crate::score::Score;
use vstd::prelude::*;

verus! {

/// A key, field, member or value: a string, by its characters.
pub type Text = Seq<char>;

/// Scalars: key to value.
pub type ScalarsModel = Map<Text, Text>;

/// Lists: key to the values from head to tail.
pub type ListsModel = Map<Text, Seq<Text>>;

/// Hashes: key to field to value.
pub type HashesModel = Map<Text, Map<Text, Text>>;

/// Sets: key to members.
pub type SetsModel = Map<Text, Set<Text>>;

/// Sorted sets: key to member to score.
pub type SortedSetsModel = Map<Text, Map<Text, Score>>;

/// Every key has an entry.
pub open spec fn total<V>(m: Map<Text, V>) -> bool {
    forall|k: Text| #[trigger] m.contains_key(k)
}

/// What a read of `key` returns: the value, if the key was set.
pub open spec fn lookup<V>(m: Map<Text, V>, key: Text) -> Option<V> {
    if m.contains_key(key) {
        Some(m[key])
    } else {
        None
    }
}

/// No scalar is set.
pub open spec fn no_scalars() -> ScalarsModel {
    Map::empty()
}

/// Every list is empty.
pub open spec fn no_lists() -> ListsModel {
    Map::total(|k: Text| Seq::<Text>::empty())
}

/// Every hash is empty.
pub open spec fn no_hashes() -> HashesModel {
    Map::total(|k: Text| Map::<Text, Text>::empty())
}

/// Every set is empty.
pub open spec fn no_sets() -> SetsModel {
    Map::total(|k: Text| Set::<Text>::empty())
}

/// Every sorted set is empty.
pub open spec fn no_sorted_sets() -> SortedSetsModel {
    Map::total(|k: Text| Map::<Text, Score>::empty())
}

/// The lists after `value` was pushed at the tail of the list at `key`.
pub open spec fn pushed(m: ListsModel, key: Text, value: Text) -> ListsModel {
    m.insert(key, m[key].push(value))
}

/// The lists after `values` were appended, in their order, to the list at
/// `key`.
pub open spec fn extended(m: ListsModel, key: Text, values: Seq<Text>) -> ListsModel {
    m.insert(key, m[key] + values)
}

/// The lists after `values` were pushed one by one, first to last.
pub open spec fn pushed_each(m: ListsModel, key: Text, values: Seq<Text>) -> ListsModel
    decreases values.len(),
{
    if values.len() == 0 {
        m
    } else {
        pushed(pushed_each(m, key, values.drop_last()), key, values.last())
    }
}

/// What a pop at `key` returns: the value at the tail, if there is one.
pub open spec fn tail(m: ListsModel, key: Text) -> Option<Text> {
    if m[key].len() > 0 {
        Some(m[key].last())
    } else {
        None
    }
}

/// The lists after a pop at `key`.
pub open spec fn popped(m: ListsModel, key: Text) -> ListsModel {
    if m[key].len() > 0 {
        m.insert(key, m[key].drop_last())
    } else {
        m
    }
}

/// The lists after `n` pops at `key`.
pub open spec fn popped_times(m: ListsModel, key: Text, n: nat) -> ListsModel
    decreases n,
{
    if n == 0 {
        m
    } else {
        popped(popped_times(m, key, (n - 1) as nat), key)
    }
}

/// The hashes after `field` was set to `value` in the hash at `key`.
pub open spec fn field_set(m: HashesModel, key: Text, field: Text, value: Text) -> HashesModel {
    m.insert(key, m[key].insert(field, value))
}

/// The hashes after `field` was deleted from the hash at `key`.
pub open spec fn field_deleted(m: HashesModel, key: Text, field: Text) -> HashesModel {
    m.insert(key, m[key].remove(field))
}

/// The sets after `member` was added to the set at `key`.
pub open spec fn member_added(m: SetsModel, key: Text, member: Text) -> SetsModel {
    m.insert(key, m[key].insert(member))
}

/// The sets after `member` was removed from the set at `key`.
pub open spec fn member_removed(m: SetsModel, key: Text, member: Text) -> SetsModel {
    m.insert(key, m[key].remove(member))
}

/// The sorted sets after `member` was given `score` in the sorted set at
/// `key`.
pub open spec fn scored(m: SortedSetsModel, key: Text, score: Score, member: Text)
    -> SortedSetsModel {
    m.insert(key, m[key].insert(member, score))
}

/// The sorted sets after `member` was removed from the sorted set at `key`.
pub open spec fn unscored(m: SortedSetsModel, key: Text, member: Text) -> SortedSetsModel {
    m.insert(key, m[key].remove(member))
}

/// The five collections together: the state of a store.
pub struct StoreModel {
    pub scalars: ScalarsModel,
    pub lists: ListsModel,
    pub hashes: HashesModel,
    pub sets: SetsModel,
    pub sorted_sets: SortedSetsModel,
}

/// The five collections. A key of one is no key of another.
pub enum Kind {
    Scalars,
    Lists,
    Hashes,
    Sets,
    SortedSets,
}

/// The operations of a store that may change it.
pub enum Write {
    ScalarSet { key: Text, value: Text },
    ListPush { key: Text, value: Text },
    ListPushMulti { key: Text, values: Seq<Text> },
    ListPop { key: Text },
    HashField { key: Text, field: Text, value: Text },
    HashDel { key: Text, field: Text },
    SetAdd { key: Text, value: Text },
    SetRemove { key: Text, value: Text },
    ZsetAdd { key: Text, score: Score, value: Text },
    ZsetRemove { key: Text, value: Text },
}

/// The collection that a write goes to.
pub open spec fn kind_of(w: Write) -> Kind {
    match w {
        Write::ScalarSet { .. } => Kind::Scalars,
        Write::ListPush { .. } | Write::ListPushMulti { .. } | Write::ListPop { .. } => Kind::Lists,
        Write::HashField { .. } | Write::HashDel { .. } => Kind::Hashes,
        Write::SetAdd { .. } | Write::SetRemove { .. } => Kind::Sets,
        Write::ZsetAdd { .. } | Write::ZsetRemove { .. } => Kind::SortedSets,
    }
}

/// The key that a write goes to.
pub open spec fn key_of(w: Write) -> Text {
    match w {
        Write::ScalarSet { key, .. } => key,
        Write::ListPush { key, .. } => key,
        Write::ListPushMulti { key, .. } => key,
        Write::ListPop { key } => key,
        Write::HashField { key, .. } => key,
        Write::HashDel { key, .. } => key,
        Write::SetAdd { key, .. } => key,
        Write::SetRemove { key, .. } => key,
        Write::ZsetAdd { key, .. } => key,
        Write::ZsetRemove { key, .. } => key,
    }
}

/// The store in which nothing was written.
pub open spec fn new_store() -> StoreModel {
    StoreModel {
        scalars: no_scalars(),
        lists: no_lists(),
        hashes: no_hashes(),
        sets: no_sets(),
        sorted_sets: no_sorted_sets(),
    }
}

/// The store after one write.
pub open spec fn after(m: StoreModel, w: Write) -> StoreModel {
    match w {
        Write::ScalarSet { key, value } => StoreModel { scalars: m.scalars.insert(key, value), ..m },
        Write::ListPush { key, value } => StoreModel { lists: pushed(m.lists, key, value), ..m },
        Write::ListPushMulti { key, values } => StoreModel {
            lists: extended(m.lists, key, values),
            ..m
        },
        Write::ListPop { key } => StoreModel { lists: popped(m.lists, key), ..m },
        Write::HashField { key, field, value } => StoreModel {
            hashes: field_set(m.hashes, key, field, value),
            ..m
        },
        Write::HashDel { key, field } => StoreModel {
            hashes: field_deleted(m.hashes, key, field),
            ..m
        },
        Write::SetAdd { key, value } => StoreModel { sets: member_added(m.sets, key, value), ..m },
        Write::SetRemove { key, value } => StoreModel {
            sets: member_removed(m.sets, key, value),
            ..m
        },
        Write::ZsetAdd { key, score, value } => StoreModel {
            sorted_sets: scored(m.sorted_sets, key, score, value),
            ..m
        },
        Write::ZsetRemove { key, value } => StoreModel {
            sorted_sets: unscored(m.sorted_sets, key, value),
            ..m
        },
    }
}

/// The store after the writes, first to last.
pub open spec fn after_all(m: StoreModel, writes: Seq<Write>) -> StoreModel
    decreases writes.len(),
{
    if writes.len() == 0 {
        m
    } else {
        after(after_all(m, writes.drop_last()), writes.last())
    }
}

} // verus!
