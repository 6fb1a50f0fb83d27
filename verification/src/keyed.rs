//! Entries found by a string key.
//!
//! A `Keyed<E>` maps keys to entries of type `E`. The entries stand in a
//! vector and an index maps each key to the place of its entry, so that an
//! entry can be changed where it stands.

use vstd::hash_map::StringHashMap;
use vstd::prelude::*;

verus! {

/// The map that an index into a sequence of entries stands for.
pub open spec fn indexed<E>(index: Map<Seq<char>, usize>, entries: Seq<E>) -> Map<Seq<char>, E> {
    Map::new(|k: Seq<char>| index.contains_key(k), |k: Seq<char>| entries[index[k] as int])
}

/// The index gives every key a place below `n`, and no place twice.
pub open spec fn one_to_one(index: Map<Seq<char>, usize>, n: nat) -> bool {
    &&& forall|k: Seq<char>| #[trigger] index.contains_key(k) ==> index[k] < n
    &&& forall|k1: Seq<char>, k2: Seq<char>|
        index.contains_key(k1) && index.contains_key(k2) && k1 != k2 ==> #[trigger] index[k1]
            != #[trigger] index[k2]
}

/// To replace the entry where the key `k` points is to insert at `k`.
proof fn lemma_indexed_update<E>(index: Map<Seq<char>, usize>, entries: Seq<E>, k: Seq<char>)
    requires
        one_to_one(index, entries.len()),
        index.contains_key(k),
    ensures
        forall|e: E| #[trigger]
            indexed(index, entries.update(index[k] as int, e)) == indexed(index, entries).insert(
                k,
                e,
            ),
{
    assert forall|e: E| #[trigger]
        indexed(index, entries.update(index[k] as int, e)) == indexed(index, entries).insert(
            k,
            e,
        ) by {
        assert(indexed(index, entries.update(index[k] as int, e)) =~= indexed(
            index,
            entries,
        ).insert(k, e));
    }
}

/// A map from string keys to entries that can be changed in place.
pub struct Keyed<E> {
    index: StringHashMap<usize>,
    entries: Vec<E>,
}

impl<E> Keyed<E> {
    /// Every key of the index points to an entry of its own.
    pub closed spec fn wf(self) -> bool {
        one_to_one(self.index@, self.entries@.len())
    }

    /// The entries by key.
    pub closed spec fn view(self) -> Map<Seq<char>, E> {
        indexed(self.index@, self.entries@)
    }

    /// An empty map.
    pub fn new() -> (s: Self)
        ensures
            s.wf(),
            s@ == Map::<Seq<char>, E>::empty(),
    {
        Keyed { index: StringHashMap::new(), entries: Vec::new() }
    }

    /// The entry at `key`, if there is one.
    pub fn get(&self, key: &str) -> (r: Option<&E>)
        requires
            self.wf(),
        ensures
            r == (if self@.contains_key(key@) {
                Some(&self@[key@])
            } else {
                None
            }),
    {
        match self.index.get(key) {
            Some(i) => Some(&self.entries[*i]),
            None => None,
        }
    }

    /// The entry at `key` for changing, if there is one. What the caller
    /// leaves in it is the entry at `key` afterwards.
    pub fn get_mut(&mut self, key: &str) -> (r: Option<&mut E>)
        requires
            old(self).wf(),
        ensures
            final(self).wf(),
            match r {
                Some(e) => old(self)@.contains_key(key@) && *e == old(self)@[key@] && final(self)@
                    == old(self)@.insert(key@, *final(e)),
                None => !old(self)@.contains_key(key@) && final(self)@ == old(self)@,
            },
    {
        let found = match self.index.get(key) {
            Some(i) => Some(*i),
            None => None,
        };
        match found {
            Some(i) => {
                proof {
                    lemma_indexed_update(self.index@, self.entries@, key@);
                }
                Some(&mut self.entries[i])
            },
            None => None,
        }
    }

    /// The entry at `key` for changing; where there is none, `fresh` becomes
    /// the entry first. What the caller leaves in it is the entry at `key`
    /// afterwards.
    pub fn entry(&mut self, key: String, fresh: E) -> (r: &mut E)
        requires
            old(self).wf(),
        ensures
            final(self).wf(),
            *r == (if old(self)@.contains_key(key@) {
                old(self)@[key@]
            } else {
                fresh
            }),
            final(self)@ == old(self)@.insert(key@, *final(r)),
    {
        let found = match self.index.get(key.as_str()) {
            Some(i) => Some(*i),
            None => None,
        };
        let i = match found {
            Some(i) => i,
            None => {
                let i = self.entries.len();
                self.entries.push(fresh);
                self.index.insert(key, i);
                i
            },
        };
        proof {
            lemma_indexed_update(self.index@, self.entries@, key@);
            assert forall|e: E| #[trigger] self@.insert(key@, e) == old(self)@.insert(key@, e) by {
                assert(self@.insert(key@, e) =~= old(self)@.insert(key@, e));
            }
        }
        &mut self.entries[i]
    }
}

} // verus!
