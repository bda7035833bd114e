//! Sets of places.

use vstd::prelude::*;
use crate::place::{Place, PlaceView};

verus! {

broadcast use {vstd::seq_lib::group_seq_properties, vstd::set::group_set_axioms};

/// The views of a sequence of places.
pub open spec fn views(places: Seq<Place>) -> Seq<PlaceView> {
    places.map_values(|p: Place| p@)
}

/// The places of `s` in the order of their first occurrence, each once.
pub open spec fn first_occurrences(s: Seq<PlaceView>) -> Seq<PlaceView>
    decreases s.len(),
{
    if s.len() == 0 {
        Seq::empty()
    } else {
        let earlier = first_occurrences(s.drop_last());
        if earlier.contains(s.last()) {
            earlier
        } else {
            earlier.push(s.last())
        }
    }
}

/// Adding a place that is already in a set leaves the set as it is.
pub proof fn lemma_insert_present(s: Set<PlaceView>, p: PlaceView)
    requires
        s.contains(p),
    ensures
        s.insert(p) == s,
{
    assert(s.insert(p) =~= s);
}

/// Adding a place that was not in a set and then removing it gives back the
/// set as it was; removing a place that is not in a set leaves it as it is.
pub proof fn lemma_insert_then_remove(s: Set<PlaceView>, p: PlaceView)
    requires
        !s.contains(p),
    ensures
        s.insert(p).remove(p) == s,
        s.remove(p) == s,
{
    assert(s.insert(p).remove(p) =~= s);
    assert(s.remove(p) =~= s);
}

/// A set of places, in which no place occurs twice; the places are kept in
/// the order in which they were first inserted.
pub struct PlaceSet {
    places: Vec<Place>,
}

impl View for PlaceSet {
    type V = Set<PlaceView>;

    closed spec fn view(&self) -> Set<PlaceView> {
        views(self.places@).to_set()
    }
}

impl PlaceSet {
    /// The places in the order in which they are kept.
    pub closed spec fn entries(&self) -> Seq<PlaceView> {
        views(self.places@)
    }

    /// No place occurs twice.
    #[verifier::type_invariant]
    closed spec fn no_repeats(&self) -> bool {
        views(self.places@).no_duplicates()
    }

    /// The places are exactly the places of the entries, none twice.
    proof fn lemma_entries(&self)
        requires
            self.no_repeats(),
        ensures
            self.entries().no_duplicates(),
            self.entries().to_set() == self@,
            self@.finite(),
            self@.len() == self.entries().len(),
    {
        self.entries().unique_seq_to_set();
    }

    /// The empty set.
    pub fn new() -> (s: PlaceSet)
        ensures
            s@ == Set::<PlaceView>::empty(),
            s.entries() == Seq::<PlaceView>::empty(),
    {
        let s = PlaceSet { places: Vec::new() };
        assert(views(s.places@) =~= Seq::<PlaceView>::empty());
        assert(s@ =~= Set::<PlaceView>::empty());
        s
    }

    /// The position of `place` among the entries, if it is in the set.
    fn position(&self, place: &Place) -> (r: Option<usize>)
        ensures
            match r {
                Some(i) => i < self.places.len() && self.places@[i as int]@ == place@,
                None => !views(self.places@).contains(place@),
            },
    {
        let mut i: usize = 0;
        while i < self.places.len()
            invariant
                i <= self.places.len(),
                forall|j: int| 0 <= j < i ==> self.places@[j]@ != place@,
            decreases self.places.len() - i,
        {
            if self.places[i].same_as(place) {
                return Some(i);
            }
            i = i + 1;
        }
        proof {
            if views(self.places@).contains(place@) {
                let j = choose|j: int|
                    0 <= j < views(self.places@).len() && views(self.places@)[j] == place@;
                assert(self.places@[j]@ == place@);
            }
        }
        None
    }

    /// Whether `place` is in the set.
    pub fn contains(&self, place: &Place) -> (r: bool)
        ensures
            r == self@.contains(place@),
    {
        let r = self.position(place);
        proof {
            if let Some(i) = r {
                assert(views(self.places@)[i as int] == place@);
            }
        }
        r.is_some()
    }

    /// The number of places in the set.
    pub fn len(&self) -> (n: usize)
        ensures
            n == self@.len(),
    {
        proof {
            use_type_invariant(self);
            self.lemma_entries();
        }
        self.places.len()
    }

    /// Whether the set is empty.
    pub fn is_empty(&self) -> (r: bool)
        ensures
            r == (self@.len() == 0),
    {
        proof {
            use_type_invariant(self);
            self.lemma_entries();
        }
        self.places.len() == 0
    }

    /// The places, each once, in the order in which they are kept.
    pub fn places(&self) -> (r: &Vec<Place>)
        ensures
            views(r@) == self.entries(),
    {
        &self.places
    }

    /// Adds `place`; returns whether it was not in the set before.
    pub fn insert(&mut self, place: Place) -> (added: bool)
        ensures
            added == !old(self)@.contains(place@),
            final(self)@ == old(self)@.insert(place@),
            added ==> final(self).entries() == old(self).entries().push(place@),
            !added ==> final(self).entries() == old(self).entries(),
    {
        proof {
            use_type_invariant(&*self);
        }
        if self.contains(&place) {
            assert(old(self)@.insert(place@) =~= old(self)@);
            false
        } else {
            let ghost v = place@;
            let mut places = Vec::new();
            std::mem::swap(&mut places, &mut self.places);
            places.push(place);
            assert(views(places@) =~= views(old(self).places@).push(v));
            self.places = places;
            assert(views(self.places@) =~= views(old(self).places@).push(v));
            proof {
                views(old(self).places@).lemma_push_to_set_commute(v);
            }
            assert(self@ =~= old(self)@.insert(v));
            true
        }
    }

    /// Removes `place`; returns whether it was in the set.
    pub fn remove(&mut self, place: &Place) -> (removed: bool)
        ensures
            removed == old(self)@.contains(place@),
            final(self)@ == old(self)@.remove(place@),
            removed ==> exists|i: int|
                0 <= i < old(self).entries().len() && old(self).entries()[i] == place@
                    && final(self).entries() == old(self).entries().remove(i),
            !removed ==> final(self).entries() == old(self).entries(),
    {
        proof {
            use_type_invariant(&*self);
        }
        match self.position(place) {
            None => {
                assert(old(self)@.remove(place@) =~= old(self)@);
                false
            },
            Some(i) => {
                let ghost before = views(self.places@);
                assert(before[i as int] == place@);
                let mut places = Vec::new();
                std::mem::swap(&mut places, &mut self.places);
                places.remove(i);
                let ghost after = views(places@);
                assert(after =~= before.remove(i as int));
                assert(after.no_duplicates()) by {
                    assert forall|a: int, b: int|
                        0 <= a < after.len() && 0 <= b < after.len() && a != b implies after[a]
                        != after[b] by {
                        let a1 = if a < i {
                            a
                        } else {
                            a + 1
                        };
                        let b1 = if b < i {
                            b
                        } else {
                            b + 1
                        };
                        assert(after[a] == before[a1]);
                        assert(after[b] == before[b1]);
                    }
                }
                self.places = places;
                let ghost after = views(self.places@);
                assert(after =~= before.remove(i as int));
                assert forall|x: PlaceView| after.contains(x) implies before.contains(x) && x
                    != place@ by {
                    let k = choose|k: int| 0 <= k < after.len() && after[k] == x;
                    if k < i {
                        assert(before[k] == x);
                    } else {
                        assert(before[k + 1] == x);
                    }
                }
                assert forall|x: PlaceView| before.contains(x) && x != place@ implies after.contains(
                    x,
                ) by {
                    let k = choose|k: int| 0 <= k < before.len() && before[k] == x;
                    if k < i {
                        assert(after[k] == x);
                    } else {
                        assert(k != i);
                        assert(after[k - 1] == x);
                    }
                }
                assert(self@ =~= old(self)@.remove(place@));
                assert(self.entries() == old(self).entries().remove(i as int));
                true
            },
        }
    }

    /// The set of the places of `places`, each once (a place that
    /// occurs more than once is kept at its first occurrence).
    pub fn from_places(places: Vec<Place>) -> (s: PlaceSet)
        ensures
            s@ == views(places@).to_set(),
            s.entries() == first_occurrences(views(places@)),
    {
        let mut s = PlaceSet::new();
        let ghost all = views(places@);
        let mut i: usize = 0;
        while i < places.len()
            invariant
                    i <= places.len(),
                all == views(places@),
                s@ == all.take(i as int).to_set(),
                s.entries() == first_occurrences(all.take(i as int)),
            decreases places.len() - i,
        {
            proof {
                use_type_invariant(&s);
                s.lemma_entries();
            }
            s.insert(places[i].duplicate());
            assert(all.take(i + 1) =~= all.take(i as int).push(all[i as int]));
            assert(all.take(i + 1).drop_last() =~= all.take(i as int));
            proof {
                all.take(i as int).lemma_push_to_set_commute(all[i as int]);
            }
            assert(s@ =~= all.take(i + 1).to_set());
            i = i + 1;
        }
        assert(all.take(places.len() as int) =~= all);
        s
    }
}

} // verus!
