//! Maps keyed by places.

use vstd::prelude::*;
use crate::place::{Place, PlaceView};

verus! {

broadcast use {vstd::seq_lib::group_seq_properties, vstd::set::group_set_axioms};

/// The keys of a sequence of entries.
pub open spec fn keys<V>(entries: Seq<(Place, V)>) -> Seq<PlaceView> {
    entries.map_values(|e: (Place, V)| e.0@)
}

/// The position of an entry whose key is `k`.
pub open spec fn key_index<V>(entries: Seq<(Place, V)>, k: PlaceView) -> int {
    choose|i: int| 0 <= i < entries.len() && #[trigger] entries[i].0@ == k
}

/// The value of an entry whose key is `k`.
pub open spec fn value_of<V>(entries: Seq<(Place, V)>, k: PlaceView) -> V {
    entries[key_index(entries, k)].1
}

/// The map that a sequence of entries stands for.
pub open spec fn entries_map<V>(entries: Seq<(Place, V)>) -> Map<PlaceView, V> {
    Map::new(|k: PlaceView| keys(entries).contains(k), |k: PlaceView| value_of(entries, k))
}

/// In entries with distinct keys, the value of the key of entry `i` is the
/// value of entry `i`.
proof fn lemma_value_at<V>(entries: Seq<(Place, V)>, i: int)
    requires
        keys(entries).no_duplicates(),
        0 <= i < entries.len(),
    ensures
        value_of(entries, entries[i].0@) == entries[i].1,
        keys(entries)[i] == entries[i].0@,
{
    let k = entries[i].0@;
    assert(entries[i].0@ == k);
    let j = key_index(entries, k);
    assert(keys(entries)[i] == k);
    assert(keys(entries)[j] == k);
    assert(j == i);
    assert(value_of(entries, k) == entries[j].1);
}

/// A map keyed by places, in which no place is a key twice; the entries are
/// kept in the order in which their keys were first inserted.
pub struct PlaceMap<V> {
    entries: Vec<(Place, V)>,
}

impl<V> View for PlaceMap<V> {
    type V = Map<PlaceView, V>;

    closed spec fn view(&self) -> Map<PlaceView, V> {
        entries_map(self.entries@)
    }
}

impl<V> PlaceMap<V> {
    /// No place is a key twice.
    #[verifier::type_invariant]
    closed spec fn no_repeats(&self) -> bool {
        keys(self.entries@).no_duplicates()
    }

    /// The empty map.
    pub fn new() -> (m: PlaceMap<V>)
        ensures
            m@ == Map::<PlaceView, V>::empty(),
    {
        let m = PlaceMap { entries: Vec::new() };
        assert(keys(m.entries@) =~= Seq::<PlaceView>::empty());
        assert(m@ =~= Map::<PlaceView, V>::empty());
        m
    }

    /// The position of the entry whose key is `place`, if there is one.
    fn position(&self, place: &Place) -> (r: Option<usize>)
        requires
            self.no_repeats(),
        ensures
            match r {
                Some(i) => i < self.entries.len() && self.entries@[i as int].0@ == place@
                    && self@.contains_key(place@) && self@[place@] == self.entries@[i as int].1,
                None => !self@.contains_key(place@),
            },
    {
        let mut i: usize = 0;
        while i < self.entries.len()
            invariant
                self.no_repeats(),
                i <= self.entries.len(),
                forall|j: int| 0 <= j < i ==> self.entries@[j].0@ != place@,
            decreases self.entries.len() - i,
        {
            if self.entries[i].0.same_as(place) {
                proof {
                    lemma_value_at(self.entries@, i as int);
                }
                return Some(i);
            }
            i = i + 1;
        }
        proof {
            if keys(self.entries@).contains(place@) {
                let j = choose|j: int|
                    0 <= j < keys(self.entries@).len() && keys(self.entries@)[j] == place@;
                assert(self.entries@[j].0@ == place@);
            }
        }
        None
    }

    /// Whether `place` is a key.
    pub fn contains_key(&self, place: &Place) -> (r: bool)
        ensures
            r == self@.contains_key(place@),
    {
        proof {
            use_type_invariant(self);
        }
        self.position(place).is_some()
    }

    /// The value of `place`, if it is a key.
    pub fn get(&self, place: &Place) -> (r: Option<&V>)
        ensures
            match r {
                Some(v) => self@.contains_key(place@) && self@[place@] == *v,
                None => !self@.contains_key(place@),
            },
    {
        proof {
            use_type_invariant(self);
        }
        match self.position(place) {
            Some(i) => Some(&self.entries[i].1),
            None => None,
        }
    }

    /// Sets the value of `place` to `value`, in place of the value it had.
    pub fn insert(&mut self, place: Place, value: V)
        ensures
            final(self)@ == old(self)@.insert(place@, value),
    {
        proof {
            use_type_invariant(&*self);
        }
        let ghost k = place@;
        match self.position(&place) {
            Some(i) => {
                let ghost before = self.entries@;
                let mut entries = Vec::new();
                std::mem::swap(&mut entries, &mut self.entries);
                entries.set(i, (place, value));
                let ghost after = entries@;
                assert(keys(after) =~= keys(before));
                assert(keys(before)[i as int] == k);
                assert forall|x: PlaceView| #[trigger] entries_map(after).contains_key(x) implies entries_map(before).insert(k, value)[x] == entries_map(after)[x] by {
                    let j = choose|j: int| 0 <= j < keys(after).len() && keys(after)[j] == x;
                    lemma_value_at(after, j);
                    if j != i {
                        assert(after[j] == before[j]);
                        assert(keys(before)[j] == x);
                        lemma_value_at(before, j);
                        assert(x != k);
                    } else {
                        assert(after[j].0@ == k);
                    }
                }
                assert(entries_map(after) =~= entries_map(before).insert(k, value));
                self.entries = entries;
            },
            None => {
                let ghost before = self.entries@;
                let mut entries = Vec::new();
                std::mem::swap(&mut entries, &mut self.entries);
                entries.push((place, value));
                let ghost after = entries@;
                assert(keys(after) =~= keys(before).push(k));
                assert(keys(after).no_duplicates());
                assert forall|x: PlaceView| #[trigger] entries_map(after).contains_key(x) implies entries_map(before).insert(k, value)[x] == entries_map(after)[x] by {
                    let j = choose|j: int| 0 <= j < keys(after).len() && keys(after)[j] == x;
                    lemma_value_at(after, j);
                    if j < before.len() {
                        assert(after[j] == before[j]);
                        assert(keys(before)[j] == x);
                        lemma_value_at(before, j);
                        assert(x != k);
                    } else {
                        assert(after[j].0@ == k);
                    }
                }
                assert(entries_map(after) =~= entries_map(before).insert(k, value));
                self.entries = entries;
                assert(self@ =~= old(self)@.insert(k, value));
            },
        }
    }

    /// Adds `place` with `value` when `place` is not a key; otherwise leaves
    /// the map as it is.
    pub fn insert_if_absent(&mut self, place: Place, value: V)
        ensures
            old(self)@.contains_key(place@) ==> final(self)@ == old(self)@,
            !old(self)@.contains_key(place@) ==> final(self)@ == old(self)@.insert(place@, value),
    {
        if !self.contains_key(&place) {
            self.insert(place, value);
        }
    }

    /// Removes the entry of `place`, if there is one.
    pub fn remove(&mut self, place: &Place)
        ensures
            final(self)@ == old(self)@.remove(place@),
    {
        proof {
            use_type_invariant(&*self);
        }
        let ghost k = place@;
        match self.position(place) {
            None => {
                assert(old(self)@.remove(k) =~= old(self)@);
            },
            Some(i) => {
                let ghost before = self.entries@;
                assert(keys(before)[i as int] == k);
                let mut entries = Vec::new();
                std::mem::swap(&mut entries, &mut self.entries);
                entries.remove(i);
                let ghost after = entries@;
                assert(after =~= before.remove(i as int));
                assert forall|j: int| 0 <= j < after.len() implies #[trigger] keys(after)[j] == keys(
                    before,
                )[if j < i {
                    j
                } else {
                    j + 1
                }] by {}
                assert(keys(after).no_duplicates()) by {
                    assert forall|a: int, b: int|
                        0 <= a < keys(after).len() && 0 <= b < keys(after).len() && a != b implies keys(
                        after,
                    )[a] != keys(after)[b] by {
                        let a1 = if a < i {
                            a
                        } else {
                            a + 1
                        };
                        let b1 = if b < i {
                            b
                        } else {
                            b + 1
                        };
                        assert(keys(after)[a] == keys(before)[a1]);
                        assert(keys(after)[b] == keys(before)[b1]);
                    }
                }
                assert forall|x: PlaceView| #[trigger] entries_map(after).contains_key(x) implies (
                old(self)@.contains_key(x) && x != k && old(self)@[x] == entries_map(after)[x]) by {
                    let j = choose|j: int| 0 <= j < keys(after).len() && keys(after)[j] == x;
                    lemma_value_at(after, j);
                    let j1 = if j < i {
                        j
                    } else {
                        j + 1
                    };
                    assert(after[j] == before[j1]);
                    assert(keys(before)[j1] == x);
                    lemma_value_at(before, j1);
                }
                assert forall|x: PlaceView| old(self)@.contains_key(x) && x != k implies #[trigger] entries_map(
                    after,
                ).contains_key(x) by {
                    let j = choose|j: int| 0 <= j < keys(before).len() && keys(before)[j] == x;
                    assert(j != i);
                    let j1 = if j < i {
                        j
                    } else {
                        j - 1
                    };
                    assert(after[j1] == before[j]);
                    assert(keys(after)[j1] == x);
                }
                assert(entries_map(after) =~= old(self)@.remove(k));
                self.entries = entries;
            },
        }
    }
}

} // verus!
