use metea::decimal::push_decimal;
use metea::place::Place;
use metea::place_set::PlaceSet;
use metea::place_map::PlaceMap;

fn berlin() -> Place {
    Place::new(
        "Berlin".to_string(),
        5252437,
        1341053,
        Some("Germany".to_string()),
        Some("Land Berlin".to_string()),
    )
}

fn plain(name: &str, lat: i64, lon: i64) -> Place {
    Place::new(name.to_string(), lat, lon, None, None)
}

#[test]
fn label_with_country_and_area() {
    assert_eq!(berlin().to_string(), "Berlin (Germany, Land Berlin | 52.52437, 13.41053)");
}

#[test]
fn label_without_country_or_area() {
    assert_eq!(plain("Nowhere", 0, 0).to_string(), "Nowhere (0, 0)");
}

#[test]
fn label_with_country_only() {
    let p = Place::new("Lima".to_string(), -1204640, -7704280, Some("Peru".to_string()), None);
    assert_eq!(p.to_string(), "Lima (Peru, -12.0464, -77.0428)");
}

#[test]
fn label_with_area_only() {
    let p = Place::new("X".to_string(), 100000, -100000, None, Some("Y".to_string()));
    assert_eq!(p.to_string(), "X (Y | 1, -1)");
}

#[test]
fn coordinate_text_drops_trailing_zeros() {
    assert_eq!(plain("a", 1250000, 5).to_string(), "a (12.5, 0.00005)");
    assert_eq!(plain("b", -5, 9000000).to_string(), "b (-0.00005, 90)");
    assert_eq!(plain("c", 18000000, -18000000).to_string(), "c (180, -180)");
    assert_eq!(plain("d", 100010, 123456789).to_string(), "d (1.0001, 1234.56789)");
}

#[test]
fn coordinate_text_of_extreme_values() {
    assert_eq!(
        plain("e", i64::MIN, i64::MAX).to_string(),
        "e (-92233720368547.75808, 92233720368547.75807)"
    );
}

#[test]
fn decimal_digits() {
    let mut s = String::from("n=");
    push_decimal(&mut s, 0);
    push_decimal(&mut s, 1234567890);
    assert_eq!(s, "n=01234567890");
    let mut t = String::new();
    push_decimal(&mut t, u64::MAX);
    assert_eq!(t, "18446744073709551615");
}

#[test]
fn place_getters_and_copies() {
    let p = berlin();
    assert_eq!(p.name(), "Berlin");
    assert_eq!(p.latitude_e5(), 5252437);
    assert_eq!(p.longitude_e5(), 1341053);
    assert_eq!(p.country().as_deref(), Some("Germany"));
    assert_eq!(p.admin1().as_deref(), Some("Land Berlin"));
    let q = p.duplicate();
    assert!(q.same_as(&p));
    assert!(!p.same_as(&plain("Berlin", 5252437, 1341053)));
    assert!(!p.same_as(&Place::new(
        "Berlin".to_string(),
        5252437,
        1341054,
        Some("Germany".to_string()),
        Some("Land Berlin".to_string()),
    )));
}

#[test]
fn place_set_insert_and_remove() {
    let mut s = PlaceSet::new();
    assert!(s.is_empty());
    assert!(s.insert(berlin()));
    assert!(!s.insert(berlin()));
    assert_eq!(s.len(), 1);
    assert!(s.contains(&berlin()));
    assert!(s.insert(plain("Oslo", 5991273, 1074609)));
    assert_eq!(s.len(), 2);
    assert!(s.remove(&berlin()));
    assert!(!s.contains(&berlin()));
    assert!(!s.remove(&berlin()));
    assert_eq!(s.len(), 1);
    assert_eq!(s.places()[0].name(), "Oslo");
}

#[test]
fn place_set_insert_then_remove_restores() {
    let mut s = PlaceSet::new();
    s.insert(plain("Oslo", 5991273, 1074609));
    s.insert(berlin());
    s.remove(&berlin());
    assert_eq!(s.len(), 1);
    assert!(s.contains(&plain("Oslo", 5991273, 1074609)));
    assert!(!s.contains(&berlin()));
}

#[test]
fn place_set_from_places_drops_repeats() {
    let s = PlaceSet::from_places(vec![berlin(), plain("Oslo", 1, 2), berlin()]);
    assert_eq!(s.len(), 2);
    assert_eq!(s.places()[0].name(), "Berlin");
    assert_eq!(s.places()[1].name(), "Oslo");
}

#[test]
fn place_map_insert_and_get() {
    let mut m: PlaceMap<u32> = PlaceMap::new();
    assert!(!m.contains_key(&berlin()));
    m.insert(berlin(), 1);
    m.insert_if_absent(berlin(), 2);
    assert_eq!(m.get(&berlin()), Some(&1));
    m.insert(berlin(), 3);
    assert_eq!(m.get(&berlin()), Some(&3));
    m.insert_if_absent(plain("Oslo", 1, 2), 4);
    assert_eq!(m.get(&plain("Oslo", 1, 2)), Some(&4));
    assert_eq!(m.get(&plain("Oslo", 1, 3)), None);
}
