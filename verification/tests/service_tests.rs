use metea::time::{parse_times, DateTime};
use metea::geocoding::GeoCoding;
use metea::hourly::{fields, label, plots, url_args};
use metea::internal_storage::InternalStorage;
use metea::navigation::{conclude_selection, remove_place, Screen};
use metea::place::Place;
use metea::place_set::PlaceSet;
use metea::storage::{join_path, Storage};
use metea::text::trim;
use metea::weather::{endpoint_url, Weather, FORECAST_DAYS};

fn place(name: &str) -> Place {
    Place::new(name.to_string(), 100, 200, None, None)
}

#[test]
fn geocoding_url_encodes_the_query() {
    assert_eq!(
        GeoCoding::endpoint_url("Berlin"),
        "http://geocoding-api.open-meteo.com/v1/search?count=10&name=Berlin"
    );
    assert_eq!(
        GeoCoding::endpoint_url("New York"),
        "http://geocoding-api.open-meteo.com/v1/search?count=10&name=New%20York"
    );
    assert_eq!(
        GeoCoding::endpoint_url("Zürich"),
        "http://geocoding-api.open-meteo.com/v1/search?count=10&name=Z%C3%BCrich"
    );
    assert_eq!(
        GeoCoding::endpoint_url("a-b_c.d~e!&/"),
        "http://geocoding-api.open-meteo.com/v1/search?count=10&name=a-b_c.d~e%21%26%2F"
    );
}

#[test]
fn send_query_trims_the_input() {
    let mut g = GeoCoding::new();
    assert_eq!(g.send_query(), None);
    g.current_query = "  Berlin \t".to_string();
    assert_eq!(g.send_query(), Some("Berlin".to_string()));
    g.current_query = " \n\t ".to_string();
    assert_eq!(g.send_query(), None);
    g.current_query = "\u{3000}Tokyo\u{2003}".to_string();
    assert_eq!(g.send_query(), Some("Tokyo".to_string()));
    g.current_query = "Rio de Janeiro".to_string();
    assert_eq!(g.send_query(), Some("Rio de Janeiro".to_string()));
}

#[test]
fn trim_removes_only_outer_whitespace() {
    assert_eq!(trim(""), "");
    assert_eq!(trim(" a b "), "a b");
    assert_eq!(trim("\u{85}x\u{a0}"), "x");
    assert_eq!(trim("_x_"), "_x_");
}

#[test]
fn drain_keeps_the_last_response() {
    let mut g = GeoCoding::new();
    g.drain_responses(vec![]);
    assert!(g.search_results.is_empty());
    g.drain_responses(vec![vec![place("a")], vec![place("b"), place("c")]]);
    assert_eq!(g.search_results.len(), 2);
    assert_eq!(g.search_results[0].name(), "b");
    g.drain_responses(vec![]);
    assert_eq!(g.search_results.len(), 2);
    g.drain_responses(vec![vec![]]);
    assert!(g.search_results.is_empty());
}

#[test]
fn back_goes_to_selection_or_minimizes() {
    let mut s = Screen::weather_of(&place("a"));
    assert!(!s.go_back());
    assert!(matches!(s, Screen::Selection));
    assert!(s.go_back());
    assert!(matches!(s, Screen::Selection));
}

#[test]
fn removing_a_place_returns_to_selection() {
    let mut saved = PlaceSet::new();
    saved.insert(place("a"));
    saved.insert(place("b"));
    let mut screen = Screen::weather_of(&place("a"));
    remove_place(&mut saved, &mut screen, &place("a"));
    assert!(matches!(screen, Screen::Selection));
    assert!(!saved.contains(&place("a")));
    assert!(saved.contains(&place("b")));
}

#[test]
fn selecting_a_result_saves_it_and_clears_the_results() {
    let mut g = GeoCoding::new();
    g.search_results = vec![place("a"), place("b"), place("c")];
    let mut saved = PlaceSet::new();
    assert!(conclude_selection(&mut g, &mut saved, Some(1), false));
    assert!(saved.contains(&place("b")));
    assert_eq!(saved.len(), 1);
    assert!(g.search_results.is_empty());
}

#[test]
fn results_stay_until_focus_is_lost() {
    let mut g = GeoCoding::new();
    g.search_results = vec![place("a"), place("b")];
    let mut saved = PlaceSet::new();
    assert!(!conclude_selection(&mut g, &mut saved, None, false));
    assert_eq!(g.search_results.len(), 2);
    assert!(!conclude_selection(&mut g, &mut saved, None, true));
    assert!(g.search_results.is_empty());
    assert!(saved.is_empty());
    assert!(!conclude_selection(&mut g, &mut saved, None, true));
}

#[test]
fn weather_request_sent_once() {
    let mut w: Weather<u32> = Weather::new();
    assert!(w.request_if_not_cached(place("a")));
    assert!(w.is_outgoing(&place("a")));
    assert!(!w.request_if_not_cached(place("a")));
    assert!(w.get(&place("a")).is_none());
}

#[test]
fn weather_answer_settles_request() {
    let mut w: Weather<u32> = Weather::new();
    w.request_if_not_cached(place("a"));
    w.request_if_not_cached(place("b"));
    w.drain_responses(vec![(place("a"), Some(7)), (place("b"), None)]);
    assert!(!w.is_outgoing(&place("a")));
    assert!(!w.is_outgoing(&place("b")));
    assert_eq!(w.get(&place("a")), Some(&7));
    assert!(!w.request_if_not_cached(place("a")));
    assert!(w.request_if_not_cached(place("b")));
}

#[test]
fn weather_last_answer_wins() {
    let mut w: Weather<u32> = Weather::new();
    w.send_query(place("a"));
    w.drain_responses(vec![(place("a"), Some(1)), (place("a"), Some(2))]);
    assert_eq!(w.get(&place("a")), Some(&2));
    w.drain_responses(vec![(place("a"), None)]);
    assert_eq!(w.get(&place("a")), None);
}

#[test]
fn hourly_arguments_and_labels() {
    assert_eq!(
        url_args(),
        "temperature_2m,apparent_temperature,wind_speed_10m,wind_gusts_10m,precipitation,\
         dew_point_2m,cloud_cover_low,cloud_cover_mid,cloud_cover_high,soil_moisture_0_to_1cm,\
         soil_moisture_1_to_3cm,soil_moisture_3_to_9cm,soil_moisture_9_to_27cm,\
         shortwave_radiation_instant,direct_normal_irradiance_instant,diffuse_radiation_instant"
    );
    assert_eq!(label("wind_speed_10m"), "wind speed");
    assert_eq!(label("soil_moisture_9_to_27cm"), "soil moisture (9-27cm)");
    assert_eq!(fields().len(), 16);
    let p = plots();
    assert_eq!(p.len(), 7);
    assert_eq!(p[4].0, "soil moisture");
    assert_eq!(p[4].1.len(), 4);
}

#[test]
fn forecast_url() {
    assert_eq!(FORECAST_DAYS, 3);
    let url = endpoint_url("52.5244", "-13.4105", FORECAST_DAYS);
    assert_eq!(
        url,
        format!(
            "http://api.open-meteo.com/v1/forecast?timezone=auto&forecast_days=3&hourly={}&latitude=52.5244&longitude=-13.4105",
            url_args()
        )
    );
}

#[test]
fn places_file_paths() {
    assert_eq!(Storage::from_root("/data/metea".to_string()).places(), "/data/metea/places.json");
    assert_eq!(Storage::from_root("/data/metea/".to_string()).places(), "/data/metea/places.json");
    assert_eq!(InternalStorage::new("files".to_string()).places(), "files/places.json");
    assert_eq!(InternalStorage::new(String::new()).places(), "places.json");
    assert_eq!(join_path("a", "b"), "a/b");
}

#[test]
fn every_plotted_variable_has_a_label() {
    let mut count = 0;
    for (_, group) in plots() {
        for field in group {
            assert!(!label(field).is_empty());
            count += 1;
        }
    }
    assert_eq!(count, 16);
    assert_eq!(label("temperature_2m"), "temperature");
    assert_eq!(label("diffuse_radiation_instant"), "diffuse horizontal irradiance");
}

#[test]
fn weather_requests_are_counted() {
    let mut w: Weather<u32> = Weather::new();
    w.send_query(place("a"));
    w.send_query(place("a"));
    assert_eq!(w.outstanding(&place("a")), 2);
    assert!(w.is_outgoing(&place("a")));
    assert!(w.get(&place("a")).is_none());
    assert!(!w.request_if_not_cached(place("a")));
    w.drain_responses(vec![(place("a"), Some(5))]);
    assert!(w.is_outgoing(&place("a")));
    assert_eq!(w.outstanding(&place("a")), 1);
    assert_eq!(w.get(&place("a")), Some(&5));
    w.drain_responses(vec![(place("a"), Some(6))]);
    assert!(!w.is_outgoing(&place("a")));
    assert_eq!(w.outstanding(&place("a")), 0);
    assert_eq!(w.get(&place("a")), Some(&6));
}

#[test]
fn weather_failed_answer_is_retried() {
    let mut w: Weather<u32> = Weather::new();
    assert!(w.request_if_not_cached(place("a")));
    w.drain_responses(vec![(place("a"), None)]);
    assert!(!w.is_outgoing(&place("a")));
    assert!(w.get(&place("a")).is_none());
    assert!(w.request_if_not_cached(place("a")));
    assert!(w.is_outgoing(&place("a")));
    assert!(!w.request_if_not_cached(place("a")));
}

#[test]
fn absolute_file_replaces_the_root() {
    assert_eq!(join_path("/data/metea", "/etc/places.json"), "/etc/places.json");
    assert_eq!(join_path("/data/metea", ""), "/data/metea/");
}

#[test]
fn forecast_times_parse() {
    let texts = vec!["2024-05-01T13:00".to_string(), "1999-12-31T23:59".to_string()];
    let times = parse_times(&texts).unwrap();
    assert_eq!(times.len(), 2);
    assert_eq!(times[0], DateTime { year: 2024, month: 5, day: 1, hour: 13, minute: 0 });
    assert_eq!(times[1], DateTime { year: 1999, month: 12, day: 31, hour: 23, minute: 59 });
    assert_eq!(parse_times(&vec![]), Some(vec![]));
    assert_eq!(parse_times(&vec!["2024-02-30T00:00".to_string()]), None);
    assert_eq!(parse_times(&vec!["2024-05-01T13:00".to_string(), "13:00".to_string()]), None);
}
