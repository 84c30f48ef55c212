use geo_explorer::data::{CountryEntry, CountryInfo, DataCache, DataError, DataFile, GeoLevel, ShapeFile};
use geo_explorer::gdp_reader::{GDPData, YearValue};
use geo_explorer::shape::{Feature, GeoDocument, Point, Polygon, Shape};
use geo_explorer::state::{AppState, Key, Panel};

const HELP: &str = "↑/↓: move selection\nEnter: drill down (world → continent → country)\nEsc / Backspace: go back\nq: quit";

fn list_file(name: &str, text: &str) -> DataFile {
    DataFile { name: name.to_string(), bytes: text.as_bytes().to_vec() }
}

fn square(x: i32, y: i32, side: i32) -> Polygon {
    Polygon {
        exterior: vec![
            Point { x, y },
            Point { x: x + side, y },
            Point { x: x + side, y: y + side },
            Point { x, y: y + side },
            Point { x, y },
        ],
        interiors: Vec::new(),
    }
}

fn shape_file(name: &str, features: &[&str]) -> ShapeFile {
    let mut list = Vec::new();
    for (i, n) in features.iter().enumerate() {
        list.push(Feature {
            name: Some(n.to_string()),
            geometry: Some(Shape::Polygon(square(10 * i as i32, 0, 5))),
        });
    }
    ShapeFile { name: name.to_string(), document: Some(GeoDocument::FeatureCollection(list)) }
}

fn catalogue() -> DataCache {
    let lists = vec![
        list_file("continent_world.json", "[\"Africa\", \"Asia\", \"Europe\", \"Oceania\"]"),
        list_file("country_asia.json", "[\"Japan\", \"Poland\", \"India\"]"),
        list_file("country_europe.json", "[\"Spain\", \"Europe\", \"Italy\"]"),
        list_file("country_africa.json", "[\"Chad\"]"),
    ];
    let shapes = vec![
        shape_file("continent_world.geojson", &["Africa", "Asia", "Europe"]),
        shape_file("country_asia.geojson", &["Poland", "Japan", "India", "Nepal"]),
        shape_file("country_europe.geojson", &["Spain", "Italy"]),
        shape_file("country_poland.geojson", &["Poland"]),
        shape_file("country_japan.geojson", &["Japan"]),
        ShapeFile { name: "country_india.geojson".to_string(), document: None },
        shape_file("country_spain.geojson", &["Spain"]),
    ];
    let countries = vec![
        CountryEntry {
            key: "poland".to_string(),
            info: CountryInfo {
                name: "Poland".to_string(),
                capital: "Warsaw".to_string(),
                area: 312_696,
                population: 37_950_802,
                currency: "PLN".to_string(),
            },
        },
        CountryEntry {
            key: "italy".to_string(),
            info: CountryInfo {
                name: "Italy".to_string(),
                capital: "Rome".to_string(),
                area: 301_340,
                population: 58_850_717,
                currency: "EUR".to_string(),
            },
        },
    ];
    let facts = "{\"poland\": [\"one\", \"two\"], \"italy\": [\"boot\"]}";
    DataCache::new(lists, shapes, Some(countries), Some(facts.as_bytes().to_vec()))
}

fn index() -> GDPData {
    GDPData::new(&vec![
        "h1".to_string(),
        "h2".to_string(),
        "h3".to_string(),
        "h4".to_string(),
        "h5".to_string(),
        "\"Poland\",\"POL\",\"GDP\",\"NY\",\"100\",\"\",\"300.25\"".to_string(),
        "\"Spain\",\"ESP\",\"GDP\",\"NY\",\"\"".to_string(),
        "\"Italy\",\"ITA\",\"GDP\",\"NY\",\"\",\"42\"".to_string(),
    ])
}

fn start() -> AppState {
    AppState::new(catalogue(), Some(index())).unwrap()
}

fn names(state: &AppState) -> Vec<&str> {
    state.list_items.iter().map(|s| s.as_str()).collect()
}

fn at_poland() -> AppState {
    let mut state = start();
    state.handle_input(Key::Down);
    state.handle_input(Key::Enter);
    state.handle_input(Key::Down);
    state.handle_input(Key::Enter);
    state
}

#[test]
fn a_session_starts_at_the_world() {
    let state = start();
    assert_eq!(state.level, GeoLevel::World);
    assert_eq!(names(&state), vec!["Africa", "Asia", "Europe", "Oceania"]);
    assert_eq!(state.selected, 0);
    assert!(state.history.is_empty());
    assert_eq!(state.map.as_ref().unwrap().feature_count(), 3);
    assert_eq!(state.info, format!("World – 3 features\n\n{}", HELP));
    assert!(state.country_info.is_none());
    assert!(state.fun_fact.is_none());
    assert_eq!(state.active_panel, Panel::Left);
    assert!(state.gdp_data.is_some());
    assert_eq!(state.current_gdp, None);
    assert!(!state.gdp_chart_active);
    assert_eq!(state.all_gdp_data, None);
}

#[test]
fn a_session_needs_the_world_list_and_the_world_map() {
    let no_list = DataCache::new(Vec::new(), vec![shape_file("continent_world.geojson", &["x"])], None, None);
    assert!(matches!(AppState::new(no_list, None), Err(DataError::NotFound)));
    let bad_list = DataCache::new(vec![list_file("continent_world.json", "{")], Vec::new(), None, None);
    assert!(matches!(AppState::new(bad_list, None), Err(DataError::Parse)));
    let no_map = DataCache::new(vec![list_file("continent_world.json", "[]")], Vec::new(), None, None);
    assert!(matches!(AppState::new(no_map, None), Err(DataError::NotFound)));
    let bad_map = DataCache::new(
        vec![list_file("continent_world.json", "[]")],
        vec![ShapeFile { name: "continent_world.geojson".to_string(), document: None }],
        None,
        None,
    );
    assert!(matches!(AppState::new(bad_map, None), Err(DataError::Parse)));
    let broken = Feature { name: None, geometry: Some(Shape::Unconvertible) };
    let bad_shape = DataCache::new(
        vec![list_file("continent_world.json", "[]")],
        vec![ShapeFile {
            name: "continent_world.geojson".to_string(),
            document: Some(GeoDocument::FeatureCollection(vec![broken])),
        }],
        None,
        None,
    );
    assert!(matches!(AppState::new(bad_shape, None), Err(DataError::Geometry)));
}

#[test]
fn only_q_ends_the_session() {
    let mut state = start();
    assert!(state.handle_input(Key::Char('q')));
    assert!(!state.handle_input(Key::Char('Q')));
    assert!(!state.handle_input(Key::Char('x')));
    assert!(!state.handle_input(Key::Other));
    assert!(!state.handle_input(Key::Enter));
    assert!(!state.handle_input(Key::Tab));
    assert!(!state.handle_input(Key::Up));
    assert!(!state.handle_input(Key::Down));
    assert!(!state.handle_input(Key::Esc));
    assert!(!state.handle_input(Key::Backspace));
}

#[test]
fn keys_without_a_meaning_change_nothing() {
    let mut state = start();
    state.handle_input(Key::Down);
    state.handle_input(Key::Char('q'));
    state.handle_input(Key::Char('z'));
    state.handle_input(Key::Other);
    assert_eq!(state.level, GeoLevel::World);
    assert_eq!(state.selected, 1);
    assert_eq!(names(&state), vec!["Africa", "Asia", "Europe", "Oceania"]);
    assert!(state.history.is_empty());
}

#[test]
fn moving_stays_within_the_list() {
    let mut state = start();
    state.handle_input(Key::Up);
    assert_eq!(state.selected, 0);
    state.handle_input(Key::Down);
    state.handle_input(Key::Down);
    assert_eq!(state.selected, 2);
    state.handle_input(Key::Down);
    state.handle_input(Key::Down);
    state.handle_input(Key::Down);
    assert_eq!(state.selected, 3);
    state.handle_input(Key::Up);
    assert_eq!(state.selected, 2);
}

#[test]
fn tab_cycles_the_panels_outside_country_level() {
    let mut state = start();
    state.handle_input(Key::Tab);
    assert_eq!(state.active_panel, Panel::Center);
    state.handle_input(Key::Tab);
    assert_eq!(state.active_panel, Panel::Right);
    state.handle_input(Key::Tab);
    assert_eq!(state.active_panel, Panel::Left);
    assert!(!state.gdp_chart_active);
}

#[test]
fn confirming_a_continent_drills_down() {
    let mut state = start();
    state.handle_input(Key::Down);
    state.handle_input(Key::Enter);
    assert_eq!(state.level, GeoLevel::Continent);
    assert_eq!(names(&state), vec!["Japan", "Poland", "India"]);
    assert_eq!(state.selected, 0);
    assert_eq!(state.history, vec![(GeoLevel::World, "Asia".to_string())]);
    assert_eq!(state.map.as_ref().unwrap().feature_count(), 4);
    assert_eq!(state.info, format!("Asia – 4 features\n\n{}", HELP));
    assert!(state.country_info.is_none());
    assert!(state.fun_fact.is_none());
    assert_eq!(state.current_gdp, None);
}

#[test]
fn confirming_a_continent_without_a_list_changes_nothing() {
    let mut state = start();
    state.handle_input(Key::Down);
    state.handle_input(Key::Down);
    state.handle_input(Key::Down);
    state.handle_input(Key::Enter);
    assert_eq!(state.level, GeoLevel::World);
    assert_eq!(state.selected, 3);
    assert_eq!(names(&state), vec!["Africa", "Asia", "Europe", "Oceania"]);
    assert!(state.history.is_empty());
    assert_eq!(state.info, format!("World – 3 features\n\n{}", HELP));
}

#[test]
fn a_continent_without_a_map_keeps_the_map_on_display() {
    let mut state = start();
    state.handle_input(Key::Enter);
    assert_eq!(state.level, GeoLevel::Continent);
    assert_eq!(names(&state), vec!["Chad"]);
    assert_eq!(state.selected, 0);
    assert_eq!(state.history, vec![(GeoLevel::World, "Africa".to_string())]);
    assert_eq!(state.map.as_ref().unwrap().feature_count(), 3);
    assert_eq!(state.info, format!("World – 3 features\n\n{}", HELP));
}

#[test]
fn end_to_end_world_to_country_and_back() {
    let mut state = start();
    state.handle_input(Key::Down);
    assert_eq!(state.list_items[state.selected], "Asia");
    state.handle_input(Key::Enter);
    assert_eq!(state.level, GeoLevel::Continent);
    assert_eq!(names(&state), vec!["Japan", "Poland", "India"]);
    assert_eq!(state.selected, 0);
    state.handle_input(Key::Down);
    assert_eq!(state.list_items[state.selected], "Poland");
    state.handle_input(Key::Enter);
    assert_eq!(state.level, GeoLevel::Country);
    assert_eq!(names(&state), vec!["Poland"]);
    assert_eq!(state.selected, 0);
    assert_eq!(
        state.history,
        vec![(GeoLevel::World, "Asia".to_string()), (GeoLevel::Continent, "Asia".to_string())]
    );
    let info = state.country_info.as_ref().unwrap();
    assert_eq!(info.name, "Poland");
    assert_eq!(info.capital, "Warsaw");
    let fact = state.fun_fact.clone().unwrap();
    assert!(fact == "one" || fact == "two");
    assert_eq!(state.current_gdp, Some((1962, 30_025)));
    assert_eq!(state.map.as_ref().unwrap().feature_count(), 1);
    assert_eq!(state.info, format!("Poland – 1 feature\n\n{}", HELP));
    assert!(!state.handle_input(Key::Backspace));
    assert_eq!(state.level, GeoLevel::Continent);
    assert_eq!(names(&state), vec!["Japan", "Poland", "India"]);
    assert_eq!(state.selected, 1);
    assert_eq!(state.list_items[state.selected], "Poland");
    assert_eq!(state.history, vec![(GeoLevel::World, "Asia".to_string())]);
    assert!(state.country_info.is_none());
    assert!(state.fun_fact.is_none());
    assert_eq!(state.current_gdp, None);
    assert_eq!(state.all_gdp_data, None);
    assert_eq!(state.map.as_ref().unwrap().feature_count(), 4);
    assert_eq!(state.info, format!("Asia – 4 features\n\n{}", HELP));
}

#[test]
fn back_from_a_country_selects_the_country_again() {
    let lists = vec![
        list_file("continent_world.json", "[\"Africa\", \"Asia\"]"),
        list_file("country_asia.json", "[\"Japan\", \"Poland\"]"),
    ];
    let shapes = vec![shape_file("continent_world.geojson", &[])];
    let mut state = AppState::new(DataCache::new(lists, shapes, None, None), None).unwrap();
    for key in [Key::Down, Key::Enter, Key::Down, Key::Enter] {
        assert!(!state.handle_input(key));
    }
    assert_eq!(state.level, GeoLevel::Country);
    assert_eq!(names(&state), vec!["Poland"]);
    assert!(!state.handle_input(Key::Backspace));
    assert_eq!(state.level, GeoLevel::Continent);
    assert_eq!(names(&state), vec!["Japan", "Poland"]);
    assert_eq!(state.selected, 1);
    assert_eq!(state.history, vec![(GeoLevel::World, "Asia".to_string())]);
}

#[test]
fn back_to_the_world_selects_the_continent_that_was_left() {
    let mut state = start();
    state.handle_input(Key::Down);
    state.handle_input(Key::Down);
    state.handle_input(Key::Enter);
    assert_eq!(state.level, GeoLevel::Continent);
    assert_eq!(state.selected, 0);
    state.handle_input(Key::Esc);
    assert_eq!(state.level, GeoLevel::World);
    assert_eq!(names(&state), vec!["Africa", "Asia", "Europe", "Oceania"]);
    assert_eq!(state.selected, 2);
    assert!(state.history.is_empty());
    assert_eq!(state.map.as_ref().unwrap().feature_count(), 3);
    assert_eq!(state.info, format!("World – 3 features\n\n{}", HELP));
}

#[test]
fn back_selects_the_first_item_where_the_name_is_gone() {
    let mut state = start();
    state.handle_input(Key::Down);
    state.handle_input(Key::Enter);
    state.history = vec![(GeoLevel::World, "Atlantis".to_string())];
    state.handle_input(Key::Esc);
    assert_eq!(state.level, GeoLevel::World);
    assert_eq!(state.selected, 0);
}

#[test]
fn back_from_a_country_goes_by_the_country_not_by_the_continent() {
    let mut state = start();
    state.handle_input(Key::Down);
    state.handle_input(Key::Enter);
    state.handle_input(Key::Down);
    state.handle_input(Key::Down);
    assert_eq!(state.list_items[state.selected], "India");
    state.handle_input(Key::Enter);
    assert_eq!(state.level, GeoLevel::Country);
    assert_eq!(names(&state), vec!["India"]);
    state.handle_input(Key::Backspace);
    assert_eq!(state.level, GeoLevel::Continent);
    assert_eq!(state.selected, 2);
    // A list that holds the continent's own name still selects the country.
    let mut state = start();
    state.handle_input(Key::Down);
    state.handle_input(Key::Down);
    state.handle_input(Key::Enter);
    assert_eq!(names(&state), vec!["Spain", "Europe", "Italy"]);
    state.handle_input(Key::Enter);
    assert_eq!(names(&state), vec!["Spain"]);
    state.handle_input(Key::Backspace);
    assert_eq!(names(&state), vec!["Spain", "Europe", "Italy"]);
    assert_eq!(state.selected, 0);
}

#[test]
fn back_from_a_country_that_left_the_list_selects_the_first_item() {
    let mut state = at_poland();
    state.list_items = vec!["Atlantis".to_string()];
    state.handle_input(Key::Backspace);
    assert_eq!(state.level, GeoLevel::Continent);
    assert_eq!(names(&state), vec!["Japan", "Poland", "India"]);
    assert_eq!(state.selected, 0);
    let mut state = at_poland();
    state.list_items = Vec::new();
    state.handle_input(Key::Backspace);
    assert_eq!(names(&state), vec!["Japan", "Poland", "India"]);
    assert_eq!(state.selected, 0);
}

#[test]
fn back_to_a_world_that_does_not_load_keeps_the_place_and_the_history() {
    let mut state = start();
    state.handle_input(Key::Down);
    state.handle_input(Key::Enter);
    assert_eq!(state.level, GeoLevel::Continent);
    // The same catalogue without its world list.
    state.cache = DataCache::new(
        vec![list_file("country_asia.json", "[\"Japan\", \"Poland\", \"India\"]")],
        Vec::new(),
        None,
        None,
    );
    state.handle_input(Key::Down);
    assert!(!state.handle_input(Key::Backspace));
    assert_eq!(state.level, GeoLevel::Continent);
    assert_eq!(state.history, vec![(GeoLevel::World, "Asia".to_string())]);
    assert_eq!(names(&state), vec!["Japan", "Poland", "India"]);
    assert_eq!(state.selected, 1);
    assert_eq!(state.map.as_ref().unwrap().feature_count(), 4);
    assert_eq!(state.info, format!("Asia – 4 features\n\n{}", HELP));
    // The session goes on: the country can still be entered and left.
    state.handle_input(Key::Enter);
    assert_eq!(state.level, GeoLevel::Country);
    assert_eq!(state.history.len(), 2);
    state.handle_input(Key::Esc);
    assert_eq!(state.level, GeoLevel::Continent);
    assert_eq!(state.history.len(), 1);
    assert_eq!(state.selected, 1);
}

#[test]
fn back_to_a_continent_that_does_not_load_keeps_the_list() {
    let mut state = at_poland();
    state.cache = DataCache::new(Vec::new(), Vec::new(), None, None);
    state.handle_input(Key::Backspace);
    assert_eq!(state.level, GeoLevel::Continent);
    assert_eq!(state.history, vec![(GeoLevel::World, "Asia".to_string())]);
    assert_eq!(names(&state), vec!["Poland"]);
    assert_eq!(state.selected, 0);
    assert!(state.country_info.is_none());
    assert_eq!(state.current_gdp, None);
}

#[test]
fn the_history_is_as_deep_as_the_level_after_every_key() {
    let depth = |level: GeoLevel| match level {
        GeoLevel::World => 0,
        GeoLevel::Continent => 1,
        GeoLevel::Country => 2,
    };
    let keys = [
        Key::Enter, Key::Down, Key::Enter, Key::Tab, Key::Esc, Key::Tab, Key::Backspace,
        Key::Backspace, Key::Backspace, Key::Down, Key::Down, Key::Down, Key::Enter, Key::Up,
        Key::Down, Key::Enter, Key::Down, Key::Down, Key::Enter, Key::Enter, Key::Esc, Key::Esc,
        Key::Esc, Key::Char('x'), Key::Other,
    ];
    let mut state = start();
    for key in keys {
        state.handle_input(key);
        assert_eq!(state.history.len(), depth(state.level));
        assert!(state.list_items.is_empty() || state.selected < state.list_items.len());
        if state.level != GeoLevel::Country {
            assert!(state.country_info.is_none() && state.fun_fact.is_none());
            assert!(state.current_gdp.is_none() && state.all_gdp_data.is_none());
        }
        if state.gdp_chart_active {
            assert!(state.level == GeoLevel::Country && state.current_gdp.is_some());
        }
    }
    // The same keys on a catalogue that loses its files half way.
    let mut state = start();
    for (i, key) in keys.iter().enumerate() {
        if i == 6 {
            state.cache = DataCache::new(Vec::new(), Vec::new(), None, None);
        }
        state.handle_input(*key);
        assert_eq!(state.history.len(), depth(state.level));
    }
}

#[test]
fn back_at_the_world_changes_nothing() {
    let mut state = start();
    state.handle_input(Key::Down);
    state.handle_input(Key::Esc);
    state.handle_input(Key::Backspace);
    assert_eq!(state.level, GeoLevel::World);
    assert_eq!(state.selected, 1);
    assert!(state.history.is_empty());
}

#[test]
fn confirming_at_country_level_changes_nothing() {
    let mut state = at_poland();
    state.handle_input(Key::Enter);
    assert_eq!(state.level, GeoLevel::Country);
    assert_eq!(names(&state), vec!["Poland"]);
    assert_eq!(state.history.len(), 2);
    assert_eq!(state.current_gdp, Some((1962, 30_025)));
}

#[test]
fn a_country_without_a_map_still_shows_its_data() {
    let mut state = start();
    state.handle_input(Key::Down);
    state.handle_input(Key::Down);
    state.handle_input(Key::Enter);
    assert_eq!(names(&state), vec!["Spain", "Europe", "Italy"]);
    state.handle_input(Key::Down);
    state.handle_input(Key::Down);
    assert_eq!(state.list_items[state.selected], "Italy");
    state.handle_input(Key::Enter);
    // Italy has a record, a fact and a series, and no geometry file.
    assert_eq!(state.level, GeoLevel::Country);
    assert_eq!(names(&state), vec!["Italy"]);
    assert_eq!(state.selected, 0);
    assert_eq!(
        state.history,
        vec![(GeoLevel::World, "Europe".to_string()), (GeoLevel::Continent, "Europe".to_string())]
    );
    let info = state.country_info.as_ref().unwrap();
    assert_eq!(info.name, "Italy");
    assert_eq!(info.capital, "Rome");
    assert_eq!(state.fun_fact, Some("boot".to_string()));
    assert_eq!(state.current_gdp, Some((1961, 4_200)));
    // The map and the status line stay those of the continent.
    assert_eq!(state.map.as_ref().unwrap().feature_count(), 2);
    assert_eq!(state.info, format!("Europe – 2 features\n\n{}", HELP));
    state.handle_input(Key::Tab);
    assert!(state.gdp_chart_active);
    assert_eq!(state.all_gdp_data, Some(vec![YearValue { year: 1961, value: 4_200 }]));
}

#[test]
fn a_country_with_a_malformed_map_shows_what_is_stored_for_it() {
    let mut state = start();
    state.handle_input(Key::Down);
    state.handle_input(Key::Enter);
    state.handle_input(Key::Down);
    state.handle_input(Key::Down);
    assert_eq!(state.list_items[state.selected], "India");
    state.handle_input(Key::Enter);
    assert_eq!(state.level, GeoLevel::Country);
    assert_eq!(names(&state), vec!["India"]);
    assert_eq!(state.selected, 0);
    // Nothing is stored for India: its record, fact and summary are empty.
    assert!(state.country_info.is_none());
    assert!(state.fun_fact.is_none());
    assert_eq!(state.current_gdp, None);
    assert_eq!(state.map.as_ref().unwrap().feature_count(), 4);
    assert_eq!(state.info, format!("Asia – 4 features\n\n{}", HELP));
}

#[test]
fn a_country_without_records_shows_only_its_map() {
    let mut state = start();
    state.handle_input(Key::Down);
    state.handle_input(Key::Enter);
    state.handle_input(Key::Enter);
    assert_eq!(names(&state), vec!["Japan"]);
    assert!(state.country_info.is_none());
    assert!(state.fun_fact.is_none());
    assert_eq!(state.current_gdp, None);
    assert_eq!(state.map.as_ref().unwrap().feature_count(), 1);
    assert_eq!(state.info, format!("Japan – 1 feature\n\n{}", HELP));
    // Without a GDP summary the toggle key moves the focus.
    state.handle_input(Key::Tab);
    assert!(!state.gdp_chart_active);
    assert_eq!(state.active_panel, Panel::Center);
}

#[test]
fn tab_toggles_the_chart_at_country_level() {
    let mut state = at_poland();
    assert!(!state.gdp_chart_active);
    state.handle_input(Key::Tab);
    assert!(state.gdp_chart_active);
    assert_eq!(state.active_panel, Panel::Left);
    assert_eq!(
        state.all_gdp_data,
        Some(vec![YearValue { year: 1960, value: 10_000 }, YearValue { year: 1962, value: 30_025 }])
    );
    state.handle_input(Key::Tab);
    assert!(!state.gdp_chart_active);
    assert_eq!(state.all_gdp_data, None);
    assert_eq!(state.current_gdp, Some((1962, 30_025)));
}

#[test]
fn the_chart_swallows_navigation() {
    let mut state = at_poland();
    state.handle_input(Key::Tab);
    assert!(state.gdp_chart_active);
    state.handle_input(Key::Backspace);
    state.handle_input(Key::Esc);
    state.handle_input(Key::Enter);
    state.handle_input(Key::Up);
    state.handle_input(Key::Down);
    assert!(state.gdp_chart_active);
    assert_eq!(state.level, GeoLevel::Country);
    assert_eq!(names(&state), vec!["Poland"]);
    assert_eq!(state.history.len(), 2);
    assert!(state.all_gdp_data.is_some());
    assert!(state.handle_input(Key::Char('q')));
    state.handle_input(Key::Tab);
    state.handle_input(Key::Backspace);
    assert_eq!(state.level, GeoLevel::Continent);
}

#[test]
fn a_session_without_an_index_has_no_gdp() {
    let mut state = AppState::new(catalogue(), None).unwrap();
    state.handle_input(Key::Down);
    state.handle_input(Key::Enter);
    state.handle_input(Key::Down);
    state.handle_input(Key::Enter);
    assert_eq!(state.level, GeoLevel::Country);
    assert!(state.country_info.is_some());
    assert_eq!(state.current_gdp, None);
    state.handle_input(Key::Tab);
    assert!(!state.gdp_chart_active);
    assert_eq!(state.active_panel, Panel::Center);
}

#[test]
fn confirming_an_empty_list_changes_nothing() {
    let lists = vec![list_file("continent_world.json", "[]")];
    let shapes = vec![shape_file("continent_world.geojson", &[])];
    let mut state = AppState::new(DataCache::new(lists, shapes, None, None), None).unwrap();
    assert!(state.list_items.is_empty());
    assert!(!state.handle_input(Key::Enter));
    assert!(!state.handle_input(Key::Down));
    assert!(!state.handle_input(Key::Up));
    assert_eq!(state.level, GeoLevel::World);
    assert_eq!(state.selected, 0);
    assert_eq!(state.info, format!("World – 0 features\n\n{}", HELP));
}

#[test]
fn the_world_map_highlights_the_selected_continent() {
    let lists = vec![
        list_file("continent_world.json", "[\"Asia\", \"Europe\"]"),
        list_file("country_asia.json", "[\"Japan\", \"India\"]"),
        list_file("country_europe.json", "[\"Spain\"]"),
    ];
    let shapes = vec![shape_file("continent_world.geojson", &["Spain", "Japan", "India", "Asia"])];
    let state = AppState::new(DataCache::new(lists, shapes, None, None), None).unwrap();
    let map = state.map.as_ref().unwrap();
    assert_eq!(map.highlighted(&state.list_items[state.selected]), vec![false, true, true, false]);
    assert_eq!(map.highlighted("Europe"), vec![true, false, false, false]);
    assert_eq!(map.highlighted("Spain"), vec![true, false, false, false]);
}

#[test]
fn panels_show_hints_outside_country_level() {
    let state = start();
    assert_eq!(state.info_panel_text(), format!("World – 3 features\n\n{}", HELP));
    assert_eq!(state.gdp_panel_text(), "Select a country to view GDP data");
    assert_eq!(state.fact_panel_text(), "Select a country to view a fun fact");
}

#[test]
fn panels_show_the_selected_country() {
    let state = at_poland();
    assert_eq!(
        state.info_panel_text(),
        "Poland\nCapital: Warsaw\nArea: 312696 km²\nPopulation: 37950802\nCurrency: PLN"
    );
    assert_eq!(state.gdp_panel_text(), "GDP (1962):\n300.25 USD\nPress Tab to view chart!");
    assert_eq!(state.fact_panel_text(), state.fun_fact.clone().unwrap());
}

#[test]
fn a_country_without_a_record_shows_the_status_text() {
    let mut state = start();
    state.handle_input(Key::Down);
    state.handle_input(Key::Enter);
    state.handle_input(Key::Enter);
    assert_eq!(state.info_panel_text(), format!("Japan – 1 feature\n\n{}", HELP));
}
