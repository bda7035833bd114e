//! The screens of the application and the decisions taken on them.

use vstd::prelude::*;
use crate::geocoding::GeoCoding;
use crate::place::{Place, PlaceView};
use crate::place_set::{PlaceSet, views};

verus! {

/// The screen that is currently shown.
pub enum Screen {
    /// The search field, its results and the saved places.
    Selection,
    /// The weather of a place.
    Weather(Place),
}

/// What a screen is: `None` for the selection screen, the place for a weather
/// screen.
pub open spec fn screen_view(s: Screen) -> Option<PlaceView> {
    match s {
        Screen::Selection => None,
        Screen::Weather(p) => Some(p@),
    }
}

impl Screen {
    /// The screen of the weather of `place`.
    pub fn weather_of(place: &Place) -> (s: Screen)
        ensures
            screen_view(s) == Some(place@),
    {
        Screen::Weather(place.duplicate())
    }

    /// Escape or the back gesture: from a weather screen, go back to the
    /// selection screen; on the selection screen, stay there and return
    /// `true`, the application then being moved to the background.
    pub fn go_back(&mut self) -> (minimize: bool)
        ensures
            screen_view(*final(self)) is None,
            minimize == (screen_view(*old(self)) is None),
    {
        match self {
            Screen::Selection => true,
            Screen::Weather(_) => {
                *self = Screen::Selection;
                false
            },
        }
    }
}

/// The "remove" action of a weather screen: `place` is no longer saved and
/// the selection screen is shown.
pub fn remove_place(saved: &mut PlaceSet, screen: &mut Screen, place: &Place)
    ensures
        final(saved)@ == old(saved)@.remove(place@),
        screen_view(*final(screen)) is None,
{
    saved.remove(place);
    *screen = Screen::Selection;
}

/// The end of a frame of the selection screen, when search results are
/// shown: the result at `selected`, if the user picked one, is taken out of
/// the results and saved; the results are then dropped when one was picked
/// or when the search field lost the focus. Returns whether the saved places
/// are to be written to storage. With no results shown nothing changes.
pub fn conclude_selection(
    geocoding: &mut GeoCoding,
    saved: &mut PlaceSet,
    selected: Option<usize>,
    lost_focus: bool,
) -> (store: bool)
    requires
        selected matches Some(i) ==> i < old(geocoding).search_results.len(),
    ensures
        final(geocoding).current_query@ == old(geocoding).current_query@,
        old(geocoding).search_results.len() == 0 ==> {
            &&& !store
            &&& final(saved)@ == old(saved)@
            &&& final(geocoding).search_results.len() == 0
        },
        old(geocoding).search_results.len() > 0 ==> match selected {
            Some(i) => {
                &&& store
                &&& final(saved)@ == old(saved)@.insert(old(geocoding).search_results@[i as int]@)
                &&& final(geocoding).search_results.len() == 0
            },
            None => {
                &&& !store
                &&& final(saved)@ == old(saved)@
                &&& lost_focus ==> final(geocoding).search_results.len() == 0
                &&& !lost_focus ==> views(final(geocoding).search_results@) == views(
                    old(geocoding).search_results@,
                )
            },
        },
{
    if geocoding.search_results.len() == 0 {
        return false;
    }
    let mut clear = lost_focus;
    let mut store = false;
    match selected {
        Some(idx) => {
            let place = geocoding.search_results.swap_remove(idx);
            saved.insert(place);
            store = true;
            clear = true;
        },
        None => {},
    }
    if clear {
        geocoding.search_results.clear();
    }
    store
}

} // verus!
