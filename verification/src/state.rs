//! The navigation controller: the current level, list and selection, the
//! history of drill-downs, and what is shown for the selection. One key
//! makes one transition.
//!
//! Every step of a transition that can fail is best effort: a list or a
//! map that does not load leaves what was shown before, and the steps that
//! did succeed still apply.

use crate::amount::{decimal, format_amount, magnitude_text, push_decimal};
use crate::data::{copy_info, CountryInfo, CountryInfoModel, DataCache, DataError, GeoLevel};
use crate::gdp_reader::{latest_of, resolved_series, GDPData, YearValue};
use crate::map_draw::{document_features, feature_items, has_unconvertible, MapView};
use crate::shape::DocumentModel;
use crate::text::{canonical, find_text, first_index, lemma_first_index, texts};
use vstd::prelude::*;

verus! {

/// The panel that has the focus.
#[derive(Clone, Copy, Debug, PartialEq, Eq, Structural)]
pub enum Panel {
    Left,
    Center,
    Right,
}

/// A key press as the controller sees it.
#[derive(Clone, Copy, Debug, PartialEq, Eq, Structural)]
pub enum Key {
    /// A character key.
    Char(char),
    Tab,
    Up,
    Down,
    Enter,
    Backspace,
    Esc,
    /// Any key that the controller has no use for.
    Other,
}

/// The help shown under the status line.
pub open spec fn help_text() -> Seq<char> {
    "↑/↓: move selection\nEnter: drill down (world → continent → country)\nEsc / Backspace: go back\nq: quit"@
}

/// The status text for a map of `count` features under a title.
pub open spec fn info_text(title: Seq<char>, count: nat) -> Seq<char> {
    title + " – "@ + decimal(count) + " features\n\n"@ + help_text()
}

/// The status text for the map of a single country.
pub open spec fn country_text(title: Seq<char>) -> Seq<char> {
    title + " – 1 feature\n\n"@ + help_text()
}

/// The history as plain values.
pub open spec fn history_view(history: Seq<(GeoLevel, String)>) -> Seq<(GeoLevel, Seq<char>)> {
    Seq::new(history.len(), |i: int| (history[i].0, history[i].1@))
}

/// The document that a catalogue can draw for a level and a name: the one
/// it holds, unless a feature of it could not be converted.
pub open spec fn drawable(cache: &DataCache, level: GeoLevel, name: Seq<char>) -> Option<
    DocumentModel,
> {
    match cache.stored_document(level, canonical(name)) {
        Ok(document) => if has_unconvertible(document_features(document)) {
            None
        } else {
            Some(document)
        },
        Err(_) => None,
    }
}

/// The position that a name takes in a reloaded list: its first position,
/// or 0 where the list does not hold it.
pub open spec fn restored_position(list: Seq<Seq<char>>, name: Seq<char>) -> int {
    match first_index(list, name) {
        Some(i) => i,
        None => 0,
    }
}

/// The latest value that an index holds for a name, if there is an index.
pub open spec fn latest_summary(index: Option<GDPData>, name: Seq<char>) -> Option<(u32, i64)> {
    match index {
        Some(data) => match resolved_series(data@, name) {
            Some(series) => match latest_of(series) {
                Some(latest) => Some((latest.year, latest.value)),
                None => None,
            },
            None => None,
        },
        None => None,
    }
}

/// The lines that the info panel shows for a country record.
pub open spec fn record_text(info: CountryInfoModel) -> Seq<char> {
    info.name + "\nCapital: "@ + info.capital + "\nArea: "@ + decimal(info.area) + " km²\nPopulation: "@
        + decimal(info.population) + "\nCurrency: "@ + info.currency
}

/// The lines that the GDP panel shows for a summary.
pub open spec fn summary_text(year: u32, value: i64) -> Seq<char> {
    "GDP ("@ + decimal(year as nat) + "):\n"@ + magnitude_text(value as int)
        + "\nPress Tab to view chart!"@
}

/// The panel that follows a panel in the focus cycle.
pub open spec fn next_panel(panel: Panel) -> Panel {
    match panel {
        Panel::Left => Panel::Center,
        Panel::Center => Panel::Right,
        Panel::Right => Panel::Left,
    }
}

/// The state of one session.
pub struct AppState {
    /// The catalogue.
    pub cache: DataCache,
    /// The current level.
    pub level: GeoLevel,
    /// The items of the selection list.
    pub list_items: Vec<String>,
    /// The position of the selected item.
    pub selected: usize,
    /// Where the user came from: one entry per drill-down.
    pub history: Vec<(GeoLevel, String)>,
    /// The map on display.
    pub map: Option<MapView>,
    /// The status and help text.
    pub info: String,
    /// The record of the selected country.
    pub country_info: Option<CountryInfo>,
    /// A fact about the selected country.
    pub fun_fact: Option<String>,
    /// The panel that has the focus.
    pub active_panel: Panel,
    /// The economic index, if one was loaded.
    pub gdp_data: Option<GDPData>,
    /// The latest GDP of the selected country: year and amount.
    pub current_gdp: Option<(u32, i64)>,
    /// Whether the GDP chart is showing.
    pub gdp_chart_active: bool,
    /// The whole GDP series of the selected country, while the chart shows.
    pub all_gdp_data: Option<Vec<YearValue>>,
}

impl AppState {
    /// What the info panel shows: the record of the selected country
    /// where there is one, else the status text.
    pub open spec fn info_panel(&self) -> Seq<char> {
        match self.country_info {
            Some(info) => record_text(info@),
            None => self.info@,
        }
    }

    /// What the GDP panel shows: the latest value where there is one,
    /// else a hint.
    pub open spec fn gdp_panel(&self) -> Seq<char> {
        match self.current_gdp {
            Some(summary) => summary_text(summary.0, summary.1),
            None => "Select a country to view GDP data"@,
        }
    }

    /// What the trivia panel shows: the fact where there is one, else a
    /// hint.
    pub open spec fn fact_panel(&self) -> Seq<char> {
        match self.fun_fact {
            Some(fact) => fact@,
            None => "Select a country to view a fun fact"@,
        }
    }

    /// The text of the info panel.
    pub fn info_panel_text(&self) -> (text: String)
        ensures
            text@ == self.info_panel(),
    {
        match &self.country_info {
            Some(info) => {
                let mut text = info.name.clone();
                text.append("\nCapital: ");
                text.append(info.capital.as_str());
                text.append("\nArea: ");
                push_decimal(&mut text, info.area);
                text.append(" km²\nPopulation: ");
                push_decimal(&mut text, info.population);
                text.append("\nCurrency: ");
                text.append(info.currency.as_str());
                text
            },
            None => self.info.clone(),
        }
    }

    /// The text of the GDP panel.
    pub fn gdp_panel_text(&self) -> (text: String)
        ensures
            text@ == self.gdp_panel(),
    {
        match self.current_gdp {
            Some((year, value)) => {
                let mut text = String::from_str("GDP (");
                push_decimal(&mut text, year as u64);
                text.append("):\n");
                let amount = format_amount(value);
                text.append(amount.as_str());
                text.append("\nPress Tab to view chart!");
                text
            },
            None => String::from_str("Select a country to view GDP data"),
        }
    }

    /// The text of the trivia panel.
    pub fn fact_panel_text(&self) -> (text: String)
        ensures
            text@ == self.fact_panel(),
    {
        match &self.fun_fact {
            Some(fact) => fact.clone(),
            None => String::from_str("Select a country to view a fun fact"),
        }
    }

    /// What holds of every state that the transitions reach, whatever
    /// fails to load on the way: the selection is a position of the list
    /// unless the list is empty; the history has exactly one entry per
    /// level above the world, each recorded at the level it was left from;
    /// what belongs to a country is there only at country level; and the
    /// chart shows only at country level with a GDP summary present.
    pub open spec fn wf(&self) -> bool {
        &&& self.list_items.len() > 0 ==> self.selected < self.list_items.len()
        &&& self.history.len() == self.level.depth()
        &&& forall|i: int|
            0 <= i < self.history.len() ==> (#[trigger] self.history@[i]).0.depth() == i
        &&& self.level != GeoLevel::Country ==> {
            &&& self.country_info is None
            &&& self.fun_fact is None
            &&& self.current_gdp is None
            &&& self.all_gdp_data is None
        }
        &&& self.gdp_chart_active ==> self.level == GeoLevel::Country && self.current_gdp is Some
    }

    /// Whether nothing but the catalogue's cache and the map differs
    /// between two states.
    pub open spec fn same_but_map(&self, other: &AppState) -> bool {
        &&& self.cache.same_data(&other.cache)
        &&& self.level == other.level
        &&& self.list_items == other.list_items
        &&& self.selected == other.selected
        &&& self.history == other.history
        &&& self.info == other.info
        &&& self.country_info == other.country_info
        &&& self.fun_fact == other.fun_fact
        &&& self.active_panel == other.active_panel
        &&& self.gdp_data == other.gdp_data
        &&& self.current_gdp == other.current_gdp
        &&& self.gdp_chart_active == other.gdp_chart_active
        &&& self.all_gdp_data == other.all_gdp_data
    }

    /// Whether the map and the cache of `self` are what an attempt to
    /// draw `name` at `level` leaves of `before`: the new map with
    /// membership loaded and cached where the document can be drawn, the
    /// old map and cache where it cannot.
    pub open spec fn drew(&self, before: &AppState, level: GeoLevel, name: Seq<char>) -> bool {
        match drawable(&before.cache, level, name) {
            Some(document) => {
                &&& self.map matches Some(m) && m.shows(document, before.cache.stored_membership())
                &&& self.cache.index() == before.cache.cached_membership(before.cache.index())
            },
            None => {
                &&& self.map == before.map
                &&& self.cache.index() == before.cache.index()
            },
        }
    }

    /// The number of features that drawing `name` at `level` puts on the
    /// map, if it can be drawn.
    pub open spec fn drawn_count(&self, level: GeoLevel, name: Seq<char>) -> Option<nat> {
        match drawable(&self.cache, level, name) {
            Some(document) => Some(feature_items(document_features(document)).len()),
            None => None,
        }
    }

    /// Loads the document of `name` at `level` and puts its map on
    /// display; gives the number of its features. Where the document does
    /// not load or cannot be drawn, the display stays as it is.
    fn show_map(&mut self, level: GeoLevel, name: &str) -> (count: Option<usize>)
        ensures
            final(self).same_but_map(old(self)),
            old(self).cache.faithful() ==> final(self).cache.faithful(),
            final(self).drew(old(self), level, name@),
            match count {
                Some(n) => old(self).drawn_count(level, name@) == Some(n as nat),
                None => old(self).drawn_count(level, name@) is None,
            },
    {
        let raw = match self.cache.load_geojson(&level, name) {
            Ok(raw) => raw,
            Err(_) => {
                return None;
            },
        };
        match MapView::new(raw, &mut self.cache) {
            Ok(view) => {
                let count = view.feature_count();
                self.map = Some(view);
                Some(count)
            },
            Err(_) => None,
        }
    }

    /// The status text for a map of `count` features.
    fn status(title: &str, count: usize) -> (text: String)
        ensures
            text@ == info_text(title@, count as nat),
    {
        let mut text = String::from_str(title);
        text.append(" – ");
        push_decimal(&mut text, count as u64);
        text.append(" features\n\n");
        text.append(
            "↑/↓: move selection\nEnter: drill down (world → continent → country)\nEsc / Backspace: go back\nq: quit",
        );
        text
    }

    /// The status text for the map of one country.
    fn country_status(title: &str) -> (text: String)
        ensures
            text@ == country_text(title@),
    {
        let mut text = String::from_str(title);
        text.append(" – 1 feature\n\n");
        text.append(
            "↑/↓: move selection\nEnter: drill down (world → continent → country)\nEsc / Backspace: go back\nq: quit",
        );
        text
    }

    /// Starts a session at world level: the world list, the world map and
    /// the status line for it. Without the world list or the world map
    /// there is no session: the first of the two that fails is the error.
    pub fn new(cache: DataCache, gdp_data: Option<GDPData>) -> (r: Result<AppState, DataError>)
        ensures
            match r {
                Ok(state) => {
                    &&& state.wf()
                    &&& cache.faithful() ==> state.cache.faithful()
                    &&& cache.stored_list(GeoLevel::World, canonical("world"@)) matches Ok(world)
                    &&& drawable(&cache, GeoLevel::World, "world"@) matches Some(document)
                    &&& state.cache.same_data(&cache)
                    &&& state.cache.index() == cache.cached_membership(
                        cache.index().insert((GeoLevel::World, canonical("world"@)), world),
                    )
                    &&& state.level == GeoLevel::World
                    &&& texts(state.list_items@) == world
                    &&& state.selected == 0
                    &&& state.history@.len() == 0
                    &&& state.map matches Some(m) && m.shows(document, cache.stored_membership())
                    &&& state.info@ == info_text(
                        "World"@,
                        feature_items(document_features(document)).len(),
                    )
                    &&& state.country_info is None
                    &&& state.fun_fact is None
                    &&& state.active_panel == Panel::Left
                    &&& state.gdp_data == gdp_data
                    &&& state.current_gdp is None
                    &&& !state.gdp_chart_active
                    &&& state.all_gdp_data is None
                },
                Err(e) => match cache.stored_list(GeoLevel::World, canonical("world"@)) {
                    Err(first) => e == first,
                    Ok(_) => match cache.stored_document(GeoLevel::World, canonical("world"@)) {
                        Err(second) => e == second,
                        Ok(document) => has_unconvertible(document_features(document)) && e
                            == DataError::Geometry,
                    },
                },
            },
    {
        let mut cache = cache;
        let continents = match cache.load_list(GeoLevel::World, "world") {
            Ok(list) => list,
            Err(e) => {
                return Err(e);
            },
        };
        let raw = match cache.load_geojson(&GeoLevel::World, "world") {
            Ok(raw) => raw,
            Err(e) => {
                return Err(e);
            },
        };
        let view = match MapView::new(raw, &mut cache) {
            Ok(view) => view,
            Err(e) => {
                return Err(e);
            },
        };
        let count = view.feature_count();
        let info = Self::status("World", count);
        Ok(
            AppState {
                cache,
                level: GeoLevel::World,
                list_items: continents,
                selected: 0,
                history: Vec::new(),
                map: Some(view),
                info,
                country_info: None,
                fun_fact: None,
                active_panel: Panel::Left,
                gdp_data,
                current_gdp: None,
                gdp_chart_active: false,
                all_gdp_data: None,
            },
        )
    }

    /// The series of a state's chart as plain values.
    pub open spec fn chart_series(&self) -> Option<Seq<YearValue>> {
        match self.all_gdp_data {
            Some(values) => Some(values@),
            None => None,
        }
    }

    /// What the toggle key does: at country level with a GDP summary it
    /// flips the chart, loading the selection's whole series on entering
    /// the chart and dropping it on leaving; anywhere else it moves the
    /// focus to the next panel.
    pub open spec fn toggled(&self, post: &AppState) -> bool {
        if self.level == GeoLevel::Country && self.current_gdp is Some {
            &&& *post == AppState {
                gdp_chart_active: !self.gdp_chart_active,
                all_gdp_data: post.all_gdp_data,
                ..*self
            }
            &&& if self.gdp_chart_active {
                post.all_gdp_data is None
            } else {
                match self.gdp_data {
                    Some(data) => if self.selected < self.list_items.len() {
                        post.chart_series() == resolved_series(
                            data@,
                            self.list_items@[self.selected as int]@,
                        )
                    } else {
                        post.all_gdp_data is None
                    },
                    None => post.all_gdp_data == self.all_gdp_data,
                }
            }
        } else {
            *post == AppState { active_panel: next_panel(self.active_panel), ..*self }
        }
    }

    /// What a move key does: it moves the selection by one within the
    /// list; while the chart shows it does nothing.
    pub open spec fn moved(&self, post: &AppState, down: bool) -> bool {
        if self.gdp_chart_active {
            *post == *self
        } else if down {
            *post == AppState {
                selected: if self.selected + 1 < self.list_items.len() {
                    (self.selected + 1) as usize
                } else {
                    self.selected
                },
                ..*self
            }
        } else {
            *post == AppState {
                selected: if self.selected > 0 {
                    (self.selected - 1) as usize
                } else {
                    self.selected
                },
                ..*self
            }
        }
    }

    fn toggle_chart(&mut self)
        ensures
            old(self).toggled(final(self)),
            old(self).wf() ==> final(self).wf(),
            old(self).cache.faithful() ==> final(self).cache.faithful(),
    {
        if self.level == GeoLevel::Country && self.current_gdp.is_some() {
            self.gdp_chart_active = !self.gdp_chart_active;
            if self.gdp_chart_active {
                match &self.gdp_data {
                    Some(data) => {
                        if self.selected < self.list_items.len() {
                            self.all_gdp_data = data.get_all_gdp_data(
                                self.list_items[self.selected].as_str(),
                            );
                        } else {
                            self.all_gdp_data = None;
                        }
                    },
                    None => {},
                }
            } else {
                self.all_gdp_data = None;
            }
        } else {
            self.active_panel = match self.active_panel {
                Panel::Left => Panel::Center,
                Panel::Center => Panel::Right,
                Panel::Right => Panel::Left,
            };
        }
    }

    fn move_selection(&mut self, down: bool)
        ensures
            old(self).moved(final(self), down),
            old(self).wf() ==> final(self).wf(),
            old(self).cache.faithful() ==> final(self).cache.faithful(),
    {
        if self.gdp_chart_active {
            return ;
        }
        if down {
            if self.selected < self.list_items.len() && self.selected + 1 < self.list_items.len() {
                self.selected += 1;
            }
        } else {
            if self.selected > 0 {
                self.selected -= 1;
            }
        }
    }

    /// The record of a state's country as plain values.
    pub open spec fn country_record(&self) -> Option<CountryInfoModel> {
        match self.country_info {
            Some(info) => Some(info@),
            None => None,
        }
    }

    /// Whether `post` shows nothing that belongs to a country.
    pub open spec fn country_cleared(post: &AppState) -> bool {
        &&& post.country_info is None
        &&& post.fun_fact is None
        &&& post.current_gdp is None
        &&& post.all_gdp_data is None
    }

    /// Whether map, status line and cache of `post` are what redrawing
    /// leaves: with `loaded` the cache before the attempt, drawing `name`
    /// at `level` under `title` gives the new map, its status line and
    /// the membership lists in the cache; where the document cannot be
    /// drawn, map and status line stay and the cache is `loaded`.
    pub open spec fn redrawn(
        &self,
        post: &AppState,
        loaded: Map<(GeoLevel, Seq<char>), Seq<Seq<char>>>,
        level: GeoLevel,
        name: Seq<char>,
        title: Seq<char>,
    ) -> bool {
        match drawable(&self.cache, level, name) {
            Some(document) => {
                &&& post.map matches Some(m) && m.shows(document, self.cache.stored_membership())
                &&& post.info@ == info_text(
                    title,
                    feature_items(document_features(document)).len(),
                )
                &&& post.cache.index() == self.cache.cached_membership(loaded)
            },
            None => {
                &&& post.map == self.map
                &&& post.info == self.info
                &&& post.cache.index() == loaded
            },
        }
    }

    /// What confirming at world level does with the chosen continent.
    pub open spec fn entered_continent(&self, post: &AppState, choice: Seq<char>) -> bool {
        match self.cache.stored_list(GeoLevel::Continent, canonical(choice)) {
            Err(_) => *post == *self,
            Ok(items) => {
                &&& post.cache.same_data(&self.cache)
                &&& history_view(post.history@) == history_view(self.history@).push(
                    (GeoLevel::World, choice),
                )
                &&& post.level == GeoLevel::Continent
                &&& texts(post.list_items@) == items
                &&& post.selected == 0
                &&& Self::country_cleared(post)
                &&& post.active_panel == self.active_panel
                &&& post.gdp_data == self.gdp_data
                &&& post.gdp_chart_active == self.gdp_chart_active
                &&& self.redrawn(
                    post,
                    self.cache.index().insert((GeoLevel::Continent, canonical(choice)), items),
                    GeoLevel::Continent,
                    choice,
                    choice,
                )
            },
        }
    }

    /// What confirming at continent level does with the chosen country.
    /// The country's record, a fact about it and its GDP summary are
    /// filled from what is stored for it, each as far as it is there,
    /// whether or not its map can be drawn; only the map, the status line
    /// and the membership lists in the cache wait on the map.
    pub open spec fn entered_country(&self, post: &AppState, choice: Seq<char>) -> bool {
        if self.history.len() == 0 {
            *post == *self
        } else {
            &&& post.cache.same_data(&self.cache)
            &&& history_view(post.history@) == history_view(self.history@).push(
                (GeoLevel::Continent, self.history@.last().1@),
            )
            &&& post.level == GeoLevel::Country
            &&& texts(post.list_items@) == seq![choice]
            &&& post.selected == 0
            &&& post.active_panel == self.active_panel
            &&& post.gdp_data == self.gdp_data
            &&& post.gdp_chart_active == self.gdp_chart_active
            &&& post.all_gdp_data == self.all_gdp_data
            &&& post.country_record() == self.cache.country(canonical(choice))
            &&& match post.fun_fact {
                Some(fact) => self.cache.facts(canonical(choice)).contains(fact@),
                None => self.cache.facts(canonical(choice)).len() == 0,
            }
            &&& post.current_gdp == latest_summary(self.gdp_data, choice)
            &&& match drawable(&self.cache, GeoLevel::Country, choice) {
                Some(document) => {
                    &&& post.map matches Some(m) && m.shows(
                        document,
                        self.cache.stored_membership(),
                    )
                    &&& post.cache.index() == self.cache.cached_membership(self.cache.index())
                    &&& post.info@ == country_text(choice)
                },
                None => {
                    &&& post.map == self.map
                    &&& post.cache.index() == self.cache.index()
                    &&& post.info == self.info
                },
            }
        }
    }

    /// What the confirm key does: at world level it drills down into the
    /// selected continent, at continent level into the selected country;
    /// at country level, while the chart shows, or without a selection it
    /// does nothing.
    pub open spec fn entered(&self, post: &AppState) -> bool {
        if self.gdp_chart_active || self.selected >= self.list_items.len() {
            *post == *self
        } else {
            let choice = self.list_items@[self.selected as int]@;
            match self.level {
                GeoLevel::World => self.entered_continent(post, choice),
                GeoLevel::Continent => self.entered_country(post, choice),
                GeoLevel::Country => *post == *self,
            }
        }
    }

    fn drill_down(&mut self)
        ensures
            old(self).entered(final(self)),
            old(self).wf() ==> final(self).wf(),
            old(self).cache.faithful() ==> final(self).cache.faithful(),
    {
        if self.gdp_chart_active || self.selected >= self.list_items.len() {
            return ;
        }
        let choice = self.list_items[self.selected].clone();
        match self.level {
            GeoLevel::World => {
                let items = match self.cache.load_list(GeoLevel::Continent, choice.as_str()) {
                    Ok(items) => items,
                    Err(_) => {
                        return ;
                    },
                };
                let ghost before = self.history@;
                self.history.push((GeoLevel::World, choice.clone()));
                assert(history_view(self.history@) =~= history_view(before).push(
                    (GeoLevel::World, choice@),
                ));
                self.level = GeoLevel::Continent;
                self.list_items = items;
                self.selected = 0;
                match self.show_map(GeoLevel::Continent, choice.as_str()) {
                    Some(count) => {
                        self.info = Self::status(choice.as_str(), count);
                    },
                    None => {},
                }
                self.country_info = None;
                self.fun_fact = None;
                self.current_gdp = None;
                self.all_gdp_data = None;
            },
            GeoLevel::Continent => {
                if self.history.len() == 0 {
                    return ;
                }
                let continent = self.history[self.history.len() - 1].1.clone();
                let ghost before = self.history@;
                self.history.push((GeoLevel::Continent, continent));
                assert(history_view(self.history@) =~= history_view(before).push(
                    (GeoLevel::Continent, before.last().1@),
                ));
                self.level = GeoLevel::Country;
                let mut single: Vec<String> = Vec::new();
                single.push(choice.clone());
                assert(texts(single@) =~= seq![choice@]);
                self.list_items = single;
                self.selected = 0;
                match self.show_map(GeoLevel::Country, choice.as_str()) {
                    Some(_) => {
                        self.info = Self::country_status(choice.as_str());
                    },
                    None => {},
                }
                self.country_info = match self.cache.load_country_info(choice.as_str()) {
                    Some(info) => Some(copy_info(info)),
                    None => None,
                };
                self.fun_fact = self.cache.random_funfact(choice.as_str());
                self.update_gdp(choice.as_str());
            },
            GeoLevel::Country => {},
        }
    }

    /// Sets the GDP summary to the latest value on record for a country.
    fn update_gdp(&mut self, country_name: &str)
        ensures
            *final(self) == (AppState {
                current_gdp: latest_summary(old(self).gdp_data, country_name@),
                ..*old(self)
            }),
    {
        match &self.gdp_data {
            Some(data) => {
                self.current_gdp = data.get_latest_gdp(country_name);
            },
            None => {
                self.current_gdp = None;
            },
        }
    }

    /// Whether level, list, selection, map, status line and cache of
    /// `post` are those of `self`.
    pub open spec fn same_place(&self, post: &AppState) -> bool {
        &&& post.cache == self.cache
        &&& post.level == self.level
        &&& post.list_items == self.list_items
        &&& post.selected == self.selected
        &&& post.map == self.map
        &&& post.info == self.info
    }

    /// What going back to world level does: where the world list loads,
    /// the frame leaves the history, the list becomes the world list with
    /// the selection on the continent that was left, and the world map is
    /// redrawn; where it does not load, the frame stays on the history and
    /// the place stays as it is.
    pub open spec fn back_to_world(&self, post: &AppState, left: Seq<char>) -> bool {
        match self.cache.stored_list(GeoLevel::World, canonical("world"@)) {
            Err(_) => {
                &&& post.history == self.history
                &&& self.same_place(post)
            },
            Ok(list) => {
                &&& post.history@ == self.history@.drop_last()
                &&& post.cache.same_data(&self.cache)
                &&& post.level == GeoLevel::World
                &&& texts(post.list_items@) == list
                &&& post.selected == restored_position(list, left)
                &&& self.redrawn(
                    post,
                    self.cache.index().insert((GeoLevel::World, canonical("world"@)), list),
                    GeoLevel::World,
                    "world"@,
                    "World"@,
                )
            },
        }
    }

    /// The position that going back to a continent selects in its list:
    /// that of the item that was selected before, which at country level
    /// is the country; the first position where the list does not hold
    /// that item or nothing was selected.
    pub open spec fn reselected(&self, items: Seq<Seq<char>>) -> int {
        if self.selected < self.list_items.len() {
            restored_position(items, self.list_items@[self.selected as int]@)
        } else {
            0
        }
    }

    /// What going back to continent level does: the frame leaves the
    /// history and the level is the continent's; where the continent's
    /// list loads, it becomes the list, with the selection on the country
    /// that was left, and the continent's map is redrawn; where it does
    /// not load, list, selection, map and status line stay.
    pub open spec fn back_to_continent(&self, post: &AppState, continent: Seq<char>) -> bool {
        &&& post.history@ == self.history@.drop_last()
        &&& post.level == GeoLevel::Continent
        &&& match self.cache.stored_list(GeoLevel::Continent, canonical(continent)) {
            Err(_) => {
                &&& post.cache == self.cache
                &&& post.list_items == self.list_items
                &&& post.selected == self.selected
                &&& post.map == self.map
                &&& post.info == self.info
            },
            Ok(items) => {
                &&& post.cache.same_data(&self.cache)
                &&& texts(post.list_items@) == items
                &&& post.selected == self.reselected(items)
                &&& self.redrawn(
                    post,
                    self.cache.index().insert((GeoLevel::Continent, canonical(continent)), items),
                    GeoLevel::Continent,
                    continent,
                    continent,
                )
            },
        }
    }

    /// What the back keys do: they clear what belongs to a country and
    /// return to the level that the last entry of the history records,
    /// taking the entry off the history; with an empty history, or while
    /// the chart shows, they do nothing.
    pub open spec fn went_back(&self, post: &AppState) -> bool {
        if self.gdp_chart_active || self.history.len() == 0 {
            *post == *self
        } else {
            let left = self.history@.last();
            &&& Self::country_cleared(post)
            &&& post.active_panel == self.active_panel
            &&& post.gdp_data == self.gdp_data
            &&& post.gdp_chart_active == self.gdp_chart_active
            &&& match left.0 {
                GeoLevel::World => self.back_to_world(post, left.1@),
                GeoLevel::Continent => self.back_to_continent(post, left.1@),
                GeoLevel::Country => {
                    &&& post.history@ == self.history@.drop_last()
                    &&& self.same_place(post)
                },
            }
        }
    }

    /// The position to select for `name` in the current list.
    fn position_of(&self, name: &str) -> (at: usize)
        ensures
            at == restored_position(texts(self.list_items@), name@),
            self.list_items.len() > 0 ==> at < self.list_items.len(),
    {
        proof {
            lemma_first_index(texts(self.list_items@), name@);
        }
        match find_text(&self.list_items, name) {
            Some(at) => at,
            None => 0,
        }
    }

    fn go_back(&mut self)
        ensures
            old(self).went_back(final(self)),
            old(self).wf() ==> final(self).wf(),
            old(self).cache.faithful() ==> final(self).cache.faithful(),
    {
        if self.gdp_chart_active || self.history.len() == 0 {
            return ;
        }
        let level = self.history[self.history.len() - 1].0;
        self.country_info = None;
        self.fun_fact = None;
        self.current_gdp = None;
        self.all_gdp_data = None;
        match level {
            GeoLevel::World => {
                let list = match self.cache.load_list(GeoLevel::World, "world") {
                    Ok(list) => list,
                    Err(_) => {
                        return ;
                    },
                };
                let name = match self.history.pop() {
                    Some(entry) => entry.1,
                    None => {
                        return ;
                    },
                };
                self.level = GeoLevel::World;
                self.list_items = list;
                self.selected = self.position_of(name.as_str());
                match self.show_map(GeoLevel::World, "world") {
                    Some(count) => {
                        self.info = Self::status("World", count);
                    },
                    None => {},
                }
            },
            GeoLevel::Continent => {
                let name = match self.history.pop() {
                    Some(entry) => entry.1,
                    None => {
                        return ;
                    },
                };
                let chosen: Option<String> = if self.selected < self.list_items.len() {
                    Some(self.list_items[self.selected].clone())
                } else {
                    None
                };
                self.level = GeoLevel::Continent;
                match self.cache.load_list(GeoLevel::Continent, name.as_str()) {
                    Ok(items) => {
                        self.list_items = items;
                        self.selected = match chosen {
                            Some(country) => self.position_of(country.as_str()),
                            None => 0,
                        };
                        match self.show_map(GeoLevel::Continent, name.as_str()) {
                            Some(count) => {
                                self.info = Self::status(name.as_str(), count);
                            },
                            None => {},
                        }
                    },
                    Err(_) => {},
                }
            },
            GeoLevel::Country => {
                self.history.pop();
            },
        }
    }

    /// What a key does to a state.
    pub open spec fn stepped(&self, post: &AppState, key: Key) -> bool {
        match key {
            Key::Tab => self.toggled(post),
            Key::Up => self.moved(post, false),
            Key::Down => self.moved(post, true),
            Key::Enter => self.entered(post),
            Key::Backspace => self.went_back(post),
            Key::Esc => self.went_back(post),
            Key::Char(_) => *post == *self,
            Key::Other => *post == *self,
        }
    }

    /// Applies one key to the state and says whether the session is to
    /// end: only the key `q` ends it, and it changes nothing. What holds
    /// of a state before a key holds of it after the key, whatever fails
    /// to load.
    pub fn handle_input(&mut self, key: Key) -> (quit: bool)
        ensures
            quit == (key == Key::Char('q')),
            old(self).stepped(final(self), key),
            old(self).wf() ==> final(self).wf(),
            old(self).cache.faithful() ==> final(self).cache.faithful(),
    {
        match key {
            Key::Char(c) => {
                return c == 'q';
            },
            Key::Tab => {
                self.toggle_chart();
            },
            Key::Up => {
                self.move_selection(false);
            },
            Key::Down => {
                self.move_selection(true);
            },
            Key::Enter => {
                self.drill_down();
            },
            Key::Backspace => {
                self.go_back();
            },
            Key::Esc => {
                self.go_back();
            },
            Key::Other => {},
        }
        false
    }
}

/// Going back after drilling down from the world view puts the selection
/// on the continent that was chosen, at its first position in the reloaded
/// world list, or on the first item where the reloaded list does not hold
/// it.
pub proof fn back_restores_selection(pre: AppState, mid: AppState, post: AppState)
    requires
        pre.level == GeoLevel::World,
        pre.selected < pre.list_items.len(),
        pre.entered(&mid),
        mid.level == GeoLevel::Continent,
        mid.went_back(&post),
        post.level == GeoLevel::World,
    ensures
        post.selected == restored_position(
            texts(post.list_items@),
            pre.list_items@[pre.selected as int]@,
        ),
{
    let choice = pre.list_items@[pre.selected as int]@;
    assert(!pre.gdp_chart_active);
    assert(pre.entered_continent(&mid, choice));
    assert(pre.cache.stored_list(GeoLevel::Continent, canonical(choice)) is Ok);
    let recorded = history_view(pre.history@).push((GeoLevel::World, choice));
    assert(history_view(mid.history@) == recorded);
    assert(recorded.len() == mid.history@.len());
    assert(recorded.last() == (GeoLevel::World, choice));
    assert(history_view(mid.history@)[mid.history@.len() - 1] == (
        mid.history@.last().0,
        mid.history@.last().1@,
    ));
    assert(mid.back_to_world(&post, choice));
}

/// Going back after drilling down from a continent puts the selection on
/// the country that was chosen, at its first position in the reloaded
/// list of the continent, or on the first item where the reloaded list
/// does not hold it.
pub proof fn back_reselects_the_country(pre: AppState, mid: AppState, post: AppState)
    requires
        pre.level == GeoLevel::Continent,
        pre.selected < pre.list_items.len(),
        pre.entered(&mid),
        mid.level == GeoLevel::Country,
        mid.went_back(&post),
    ensures
        post.level == GeoLevel::Continent,
        post.selected == restored_position(
            texts(post.list_items@),
            pre.list_items@[pre.selected as int]@,
        ),
{
    let choice = pre.list_items@[pre.selected as int]@;
    assert(!pre.gdp_chart_active);
    assert(pre.entered_country(&mid, choice));
    assert(pre.history.len() > 0);
    let recorded = history_view(pre.history@).push(
        (GeoLevel::Continent, pre.history@.last().1@),
    );
    assert(history_view(mid.history@) == recorded);
    assert(recorded.len() == mid.history@.len());
    assert(history_view(mid.history@)[mid.history@.len() - 1] == (
        mid.history@.last().0,
        mid.history@.last().1@,
    ));
    assert(mid.history@.last().0 == GeoLevel::Continent);
    assert(mid.back_to_continent(&post, mid.history@.last().1@));
    assert(texts(mid.list_items@) == seq![choice]);
    assert(seq![choice].len() == 1);
    assert(texts(mid.list_items@).len() == mid.list_items@.len());
    assert(texts(mid.list_items@)[0] == mid.list_items@[0]@);
    assert(mid.list_items@[0]@ == choice);
    let single = seq![choice];
    assert(single.drop_last() =~= Seq::<Seq<char>>::empty());
    assert(first_index(single.drop_last(), choice) is None);
    assert(first_index(single, choice) == Some(0int));
}

} // verus!
