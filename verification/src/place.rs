//! Places found by the geocoding service, and their labels.

use vstd::prelude::*;
use crate::decimal::{coordinate_text, push_coordinate};

verus! {

/// A latitude or longitude as a whole number of hundred-thousandths of a
/// degree: the geocoding service gives coordinates to five decimals, and an
/// integer has a stable bit pattern that can be compared and hashed.
#[derive(Clone, Copy, Debug, PartialEq, Eq, Structural)]
pub struct LatLon(pub i64);

/// A place as returned by the geocoding service.
pub struct Place {
    /// The name of this place.
    name: String,
    /// The latitude of this place.
    latitude: LatLon,
    /// The longitude of this place.
    longitude: LatLon,
    /// The country of this place.
    country: Option<String>,
    /// The first level administrative area this place lies in.
    admin1: Option<String>,
}

/// What a place is: its texts and its coordinates in hundred-thousandths of a
/// degree.
pub struct PlaceView {
    pub name: Seq<char>,
    pub latitude: int,
    pub longitude: int,
    pub country: Option<Seq<char>>,
    pub admin1: Option<Seq<char>>,
}

/// The text of an optional string.
pub open spec fn opt_text(s: Option<String>) -> Option<Seq<char>> {
    match s {
        Some(t) => Some(t@),
        None => None,
    }
}

impl View for Place {
    type V = PlaceView;

    closed spec fn view(&self) -> PlaceView {
        PlaceView {
            name: self.name@,
            latitude: self.latitude.0 as int,
            longitude: self.longitude.0 as int,
            country: opt_text(self.country),
            admin1: opt_text(self.admin1),
        }
    }
}

/// The country part of a label: "<country>, " or nothing.
pub open spec fn country_part(country: Option<Seq<char>>) -> Seq<char> {
    match country {
        Some(c) => c + seq![',', ' '],
        None => Seq::empty(),
    }
}

/// The administrative area part of a label: "<area> | " or nothing.
pub open spec fn admin_part(admin: Option<Seq<char>>) -> Seq<char> {
    match admin {
        Some(a) => a + seq![' ', '|', ' '],
        None => Seq::empty(),
    }
}

/// The label of a place: "<name> (<country>, <area> | <latitude>, <longitude>)",
/// the country and area parts left out when unknown, for example
/// "Berlin (Germany, Land Berlin | 52.52437, 13.41053)".
pub open spec fn place_label(p: PlaceView) -> Seq<char> {
    p.name + seq![' ', '('] + country_part(p.country) + admin_part(p.admin1)
        + coordinate_text(p.latitude) + seq![',', ' '] + coordinate_text(p.longitude)
        + seq![')']
}

/// The label of a place starts with its name followed by " (", ends with its
/// latitude and longitude in that order, separated by ", " and followed by
/// ")", and between them holds the country (followed by ", ") exactly when
/// it is known, then the area (followed by " | ") exactly when it is known.
pub proof fn lemma_label_parts(p: PlaceView)
    ensures
        ({
            let label = place_label(p);
            let head = p.name + seq![' ', '('];
            let tail = coordinate_text(p.latitude) + seq![',', ' '] + coordinate_text(p.longitude)
                + seq![')'];
            let middle = label.subrange(head.len() as int, label.len() - tail.len());
            &&& label.len() >= head.len() + tail.len()
            &&& label.take(head.len() as int) == head
            &&& label.skip(label.len() - tail.len()) == tail
            &&& p.country is None && p.admin1 is None ==> middle.len() == 0
            &&& p.country matches Some(c) ==> middle.take(c.len() + 2int) == c + seq![',', ' ']
            &&& p.admin1 matches Some(a) ==> middle.skip(middle.len() - (a.len() + 3)) == a
                + seq![' ', '|', ' ']
            &&& middle.len() == (match p.country {
                Some(c) => c.len() + 2,
                None => 0,
            }) + (match p.admin1 {
                Some(a) => a.len() + 3,
                None => 0,
            })
        }),
{
    let label = place_label(p);
    let head = p.name + seq![' ', '('];
    let tail = coordinate_text(p.latitude) + seq![',', ' '] + coordinate_text(p.longitude)
        + seq![')'];
    let cp = country_part(p.country);
    let ap = admin_part(p.admin1);
    assert(label =~= head + (cp + ap) + tail);
    assert(label.take(head.len() as int) =~= head);
    assert(label.skip(label.len() - tail.len()) =~= tail);
    let middle = label.subrange(head.len() as int, label.len() - tail.len());
    assert(middle =~= cp + ap);
    if let Some(c) = p.country {
        assert(middle.take(c.len() + 2int) =~= c + seq![',', ' ']);
    }
    if let Some(a) = p.admin1 {
        assert(middle.skip(middle.len() - (a.len() + 3)) =~= a + seq![' ', '|', ' ']);
    }
}

/// Copies an optional string.
fn clone_opt(s: &Option<String>) -> (r: Option<String>)
    ensures
        opt_text(r) == opt_text(*s),
{
    match s {
        Some(t) => Some(t.clone()),
        None => None,
    }
}

/// Compares two optional strings by their text.
fn same_opt(a: &Option<String>, b: &Option<String>) -> (r: bool)
    ensures
        r == (opt_text(*a) == opt_text(*b)),
{
    match a {
        Some(x) => match b {
            Some(y) => {
                let same = x.eq(y);
                same
            },
            None => false,
        },
        None => b.is_none(),
    }
}

impl Place {
    /// Builds a place from its parts, the coordinates in hundred-thousandths
    /// of a degree.
    pub fn new(
        name: String,
        latitude: i64,
        longitude: i64,
        country: Option<String>,
        admin1: Option<String>,
    ) -> (p: Place)
        ensures
            p@ == (PlaceView {
                name: name@,
                latitude: latitude as int,
                longitude: longitude as int,
                country: opt_text(country),
                admin1: opt_text(admin1),
            }),
    {
        Place { name, latitude: LatLon(latitude), longitude: LatLon(longitude), country, admin1 }
    }

    /// The name of this place.
    pub fn name(&self) -> (r: &String)
        ensures
            r@ == self@.name,
    {
        &self.name
    }

    /// The latitude of this place, in hundred-thousandths of a degree.
    pub fn latitude_e5(&self) -> (r: i64)
        ensures
            r as int == self@.latitude,
    {
        self.latitude.0
    }

    /// The longitude of this place, in hundred-thousandths of a degree.
    pub fn longitude_e5(&self) -> (r: i64)
        ensures
            r as int == self@.longitude,
    {
        self.longitude.0
    }

    /// The country of this place, if known.
    pub fn country(&self) -> (r: &Option<String>)
        ensures
            opt_text(*r) == self@.country,
    {
        &self.country
    }

    /// The first level administrative area of this place, if known.
    pub fn admin1(&self) -> (r: &Option<String>)
        ensures
            opt_text(*r) == self@.admin1,
    {
        &self.admin1
    }

    /// Whether two places are the same place: same texts, same coordinates.
    pub fn same_as(&self, other: &Place) -> (r: bool)
        ensures
            r == (self@ == other@),
    {
        self.name == other.name && self.latitude.0 == other.latitude.0
            && self.longitude.0 == other.longitude.0 && same_opt(&self.country, &other.country)
            && same_opt(&self.admin1, &other.admin1)
    }

    /// A copy of this place.
    pub fn duplicate(&self) -> (r: Place)
        ensures
            r@ == self@,
    {
        Place {
            name: self.name.clone(),
            latitude: self.latitude,
            longitude: self.longitude,
            country: clone_opt(&self.country),
            admin1: clone_opt(&self.admin1),
        }
    }

    /// Get the string representation of this place.
    pub fn to_string(&self) -> (s: String)
        ensures
            s@ == place_label(self@),
    {
        let mut out = String::new();
        out.append(self.name.as_str());
        proof {
            reveal_strlit(" (");
        }
        out.append(" (");
        match &self.country {
            Some(c) => {
                out.append(c.as_str());
                proof {
                    reveal_strlit(", ");
                }
                out.append(", ");
            },
            None => {},
        }
        match &self.admin1 {
            Some(a) => {
                out.append(a.as_str());
                proof {
                    reveal_strlit(" | ");
                }
                out.append(" | ");
            },
            None => {},
        }
        push_coordinate(&mut out, self.latitude.0);
        proof {
            reveal_strlit(", ");
        }
        out.append(", ");
        push_coordinate(&mut out, self.longitude.0);
        proof {
            reveal_strlit(")");
        }
        out.append(")");
        assert(out@ =~= place_label(self@));
        out
    }
}

} // verus!
