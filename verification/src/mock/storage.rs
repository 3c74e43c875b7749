//! The host's key/value store.

use crate::types::bytes_equal;
use vstd::prelude::*;
use vstd::slice::slice_to_vec;

verus! {

/// A key/value store keyed by raw bytes. Its view is the map from each key
/// to the value last written under it.
pub struct Storage {
    entries: Vec<(Vec<u8>, Vec<u8>)>,
}

/// The place of `key` among `pairs`, where it is there.
pub open spec fn place_of(pairs: Seq<(Seq<u8>, Seq<u8>)>, key: Seq<u8>) -> int {
    choose|i: int| 0 <= i < pairs.len() && pairs[i].0 == key
}

/// No key stands at two places.
pub open spec fn distinct_keys(pairs: Seq<(Seq<u8>, Seq<u8>)>) -> bool {
    forall|i: int, j: int| 0 <= i < j < pairs.len() ==> pairs[i].0 != pairs[j].0
}

/// The map that a list of pairs with distinct keys stands for.
pub open spec fn map_of(pairs: Seq<(Seq<u8>, Seq<u8>)>) -> Map<Seq<u8>, Seq<u8>> {
    Map::new(
        |key: Seq<u8>| exists|i: int| 0 <= i < pairs.len() && pairs[i].0 == key,
        |key: Seq<u8>| pairs[place_of(pairs, key)].1,
    )
}

impl View for Storage {
    type V = Map<Seq<u8>, Seq<u8>>;

    closed spec fn view(&self) -> Map<Seq<u8>, Seq<u8>> {
        map_of(self.pairs())
    }
}

impl Storage {
    closed spec fn pairs(&self) -> Seq<(Seq<u8>, Seq<u8>)> {
        Seq::new(self.entries@.len(), |i: int| (self.entries@[i].0@, self.entries@[i].1@))
    }

    #[verifier::type_invariant]
    spec fn well_formed(self) -> bool {
        distinct_keys(self.pairs())
    }

    /// A store that holds nothing.
    pub fn new() -> (storage: Storage)
        ensures
            storage@ == Map::<Seq<u8>, Seq<u8>>::empty(),
    {
        let storage = Storage { entries: Vec::new() };
        assert(storage@ =~= Map::<Seq<u8>, Seq<u8>>::empty());
        storage
    }

    /// Takes the pairs out, to work on them, and leaves none behind.
    fn take_entries(&mut self) -> (entries: Vec<(Vec<u8>, Vec<u8>)>)
        ensures
            entries == old(self).entries,
            final(self).entries@.len() == 0,
    {
        let mut taken = Storage { entries: Vec::new() };
        core::mem::swap(self, &mut taken);
        let Storage { entries } = taken;
        entries
    }

    /// Where `key` stands, if it is there.
    fn find(&self, key: &[u8]) -> (at: Option<usize>)
        ensures
            match at {
                Some(i) => i < self.pairs().len() && self.pairs()[i as int].0 == key@,
                None => forall|i: int| 0 <= i < self.pairs().len() ==> self.pairs()[i].0 != key@,
            },
    {
        let mut i: usize = 0;
        while i < self.entries.len()
            invariant
                i <= self.entries@.len(),
                forall|j: int| 0 <= j < i ==> self.pairs()[j].0 != key@,
            decreases self.entries@.len() - i,
        {
            if bytes_equal(self.entries[i].0.as_slice(), key) {
                return Some(i);
            }
            i += 1;
        }
        None
    }

    /// The value under `key`, if one was written and not deleted since.
    pub fn get(&self, key: &[u8]) -> (value: Option<Vec<u8>>)
        ensures
            match value {
                Some(v) => self@.contains_key(key@) && v@ == self@[key@],
                None => !self@.contains_key(key@),
            },
    {
        proof {
            use_type_invariant(self);
        }
        match self.find(key) {
            Some(i) => {
                proof {
                    lemma_map_of_pair(self.pairs(), i as int);
                }
                Some(slice_to_vec(self.entries[i].1.as_slice()))
            },
            None => None,
        }
    }

    /// Writes `value` under `key`, in place of what was there.
    pub fn insert(&mut self, key: &[u8], value: &[u8])
        ensures
            final(self)@ == old(self)@.insert(key@, value@),
    {
        proof {
            use_type_invariant(&*self);
        }
        let ghost before = self.pairs();
        let found = self.find(key);
        let mut entries = self.take_entries();
        match found {
            Some(i) => {
                entries[i] = (slice_to_vec(key), slice_to_vec(value));
                proof {
                    lemma_map_of_update(before, i as int, value@);
                }
            },
            None => {
                entries.push((slice_to_vec(key), slice_to_vec(value)));
                proof {
                    lemma_map_of_push(before, key@, value@);
                }
            },
        }
        let ghost after = Seq::new(entries@.len(), |i: int| (entries@[i].0@, entries@[i].1@));
        assert(after =~= match found {
            Some(i) => before.update(i as int, (key@, value@)),
            None => before.push((key@, value@)),
        });
        *self = Storage { entries };
    }

    /// Deletes what is under `key`; where nothing is, nothing changes.
    pub fn remove(&mut self, key: &[u8])
        ensures
            final(self)@ == old(self)@.remove(key@),
    {
        proof {
            use_type_invariant(&*self);
        }
        let ghost before = self.pairs();
        match self.find(key) {
            Some(i) => {
                let mut entries = self.take_entries();
                entries.remove(i);
                proof {
                    let after = Seq::new(
                        entries@.len(),
                        |i: int| (entries@[i].0@, entries@[i].1@),
                    );
                    assert(after =~= before.remove(i as int));
                    lemma_map_of_remove(before, i as int);
                }
                *self = Storage { entries };
            },
            None => {
                assert(self@ =~= self@.remove(key@));
            },
        }
    }
}

/// Under distinct keys, the map holds each pair's value under the pair's key.
pub proof fn lemma_map_of_pair(pairs: Seq<(Seq<u8>, Seq<u8>)>, at: int)
    requires
        distinct_keys(pairs),
        0 <= at < pairs.len(),
    ensures
        map_of(pairs).contains_key(pairs[at].0),
        map_of(pairs)[pairs[at].0] == pairs[at].1,
        place_of(pairs, pairs[at].0) == at,
{
    let found = place_of(pairs, pairs[at].0);
    assert(pairs[found].0 == pairs[at].0);
}

/// Replacing the value at one place writes it under that place's key.
pub proof fn lemma_map_of_update(pairs: Seq<(Seq<u8>, Seq<u8>)>, at: int, value: Seq<u8>)
    requires
        distinct_keys(pairs),
        0 <= at < pairs.len(),
    ensures
        distinct_keys(pairs.update(at, (pairs[at].0, value))),
        map_of(pairs.update(at, (pairs[at].0, value))) == map_of(pairs).insert(pairs[at].0, value),
{
    let key = pairs[at].0;
    let after = pairs.update(at, (key, value));
    let wanted = map_of(pairs).insert(key, value);
    assert forall|k: Seq<u8>| #[trigger] map_of(after).contains_key(k) implies wanted.contains_key(
        k,
    ) && map_of(after)[k] == wanted[k] by {
        let i = place_of(after, k);
        lemma_map_of_pair(after, i);
        lemma_map_of_pair(pairs, i);
    }
    assert forall|k: Seq<u8>| #[trigger] wanted.contains_key(k) implies map_of(after).contains_key(
        k,
    ) by {
        let i = if k == key {
            at
        } else {
            place_of(pairs, k)
        };
        assert(after[i].0 == k);
    }
    assert(map_of(after) =~= wanted);
}

/// A pair with a new key, put at the end, writes its value under that key.
pub proof fn lemma_map_of_push(pairs: Seq<(Seq<u8>, Seq<u8>)>, key: Seq<u8>, value: Seq<u8>)
    requires
        distinct_keys(pairs),
        forall|i: int| 0 <= i < pairs.len() ==> pairs[i].0 != key,
    ensures
        distinct_keys(pairs.push((key, value))),
        map_of(pairs.push((key, value))) == map_of(pairs).insert(key, value),
{
    let after = pairs.push((key, value));
    let wanted = map_of(pairs).insert(key, value);
    assert forall|k: Seq<u8>| #[trigger] map_of(after).contains_key(k) implies wanted.contains_key(
        k,
    ) && map_of(after)[k] == wanted[k] by {
        let i = place_of(after, k);
        lemma_map_of_pair(after, i);
        if i < pairs.len() {
            lemma_map_of_pair(pairs, i);
        }
    }
    assert forall|k: Seq<u8>| #[trigger] wanted.contains_key(k) implies map_of(after).contains_key(
        k,
    ) by {
        let i = if k == key {
            pairs.len() as int
        } else {
            place_of(pairs, k)
        };
        assert(after[i].0 == k);
    }
    assert(map_of(after) =~= wanted);
}

/// Taking a pair out deletes what was under its key.
pub proof fn lemma_map_of_remove(pairs: Seq<(Seq<u8>, Seq<u8>)>, at: int)
    requires
        distinct_keys(pairs),
        0 <= at < pairs.len(),
    ensures
        distinct_keys(pairs.remove(at)),
        map_of(pairs.remove(at)) == map_of(pairs).remove(pairs[at].0),
{
    let key = pairs[at].0;
    let after = pairs.remove(at);
    let wanted = map_of(pairs).remove(key);
    // Where the pair at place `i` of `after` stood in `pairs`.
    let origin = |i: int| if i < at { i } else { i + 1 };
    assert forall|i: int, j: int| 0 <= i < j < after.len() implies after[i].0 != after[j].0 by {
        assert(after[i] == pairs[origin(i)] && after[j] == pairs[origin(j)]);
    }
    assert forall|k: Seq<u8>| #[trigger] map_of(after).contains_key(k) implies wanted.contains_key(
        k,
    ) && map_of(after)[k] == wanted[k] by {
        let i = place_of(after, k);
        assert(after[i] == pairs[origin(i)]);
        lemma_map_of_pair(after, i);
        lemma_map_of_pair(pairs, origin(i));
    }
    assert forall|k: Seq<u8>| #[trigger] wanted.contains_key(k) implies map_of(after).contains_key(
        k,
    ) by {
        let i = place_of(pairs, k);
        let moved = if i < at { i } else { i - 1 };
        assert(after[moved].0 == k);
    }
    assert(map_of(after) =~= wanted);
}

} // verus!
