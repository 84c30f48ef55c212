//! The catalogue of reference data: name lists, geometry documents,
//! country records and trivia, looked up by hierarchy level and symbolic
//! key.
//!
//! The catalogue works on the contents of a data directory that its caller
//! has read: each list file as the bytes found on disk, each geometry
//! document as it was parsed. Reading the directory is the caller's part;
//! everything decided from the contents is decided here.

use crate::shape::{copy_document, DocumentModel, GeoDocument};
use crate::text::{
    canonical, canonical_idempotent, canonical_key, first_index, lemma_first_index_prefix,
    lowered, same_text, texts,
};
use rand::Rng;
use vstd::prelude::*;
use vstd::utf8::is_ascii_chars;

verus! {

/// Geographic hierarchy levels, ordered world < continent < country.
#[derive(Clone, Copy, Debug, PartialEq, Eq, PartialOrd, Ord, Hash, Structural)]
pub enum GeoLevel {
    World,
    Continent,
    Country,
}

impl GeoLevel {
    /// The position of a level in the order world < continent < country.
    pub open spec fn depth(self) -> nat {
        match self {
            GeoLevel::World => 0,
            GeoLevel::Continent => 1,
            GeoLevel::Country => 2,
        }
    }
}

/// Why a lookup failed.
#[derive(Clone, Copy, Debug, PartialEq, Eq, Structural)]
pub enum DataError {
    /// No file exists for the level and key.
    NotFound,
    /// The file exists and its content is malformed.
    Parse,
    /// A feature carries a geometry that cannot be turned into vertices.
    Geometry,
}

/// Metadata of one country. The area is held in whole square kilometres.
#[derive(Clone, Debug)]
pub struct CountryInfo {
    pub name: String,
    pub capital: String,
    pub area: u64,
    pub population: u64,
    pub currency: String,
}

/// What a country record is.
pub struct CountryInfoModel {
    pub name: Seq<char>,
    pub capital: Seq<char>,
    pub area: nat,
    pub population: nat,
    pub currency: Seq<char>,
}

impl View for CountryInfo {
    type V = CountryInfoModel;

    open spec fn view(&self) -> CountryInfoModel {
        CountryInfoModel {
            name: self.name@,
            capital: self.capital@,
            area: self.area as nat,
            population: self.population as nat,
            currency: self.currency@,
        }
    }
}

/// A copy of a country record.
pub fn copy_info(info: &CountryInfo) -> (r: CountryInfo)
    ensures
        r@ == info@,
{
    CountryInfo {
        name: info.name.clone(),
        capital: info.capital.clone(),
        area: info.area,
        population: info.population,
        currency: info.currency.clone(),
    }
}

/// Something that is found by a textual key.
pub trait Keyed {
    /// The key, as characters.
    spec fn key_view(&self) -> Seq<char>;

    /// The key.
    fn key_text(&self) -> (r: &str)
        ensures
            r@ == self.key_view(),
    ;
}

/// The keys of a list of keyed items.
pub open spec fn keys_of<T: Keyed>(items: Seq<T>) -> Seq<Seq<char>> {
    Seq::new(items.len(), |i: int| items[i].key_view())
}

/// The position of the first item with the given key.
pub fn find_keyed<T: Keyed>(items: &Vec<T>, key: &str) -> (r: Option<usize>)
    ensures
        match r {
            Some(i) => first_index(keys_of(items@), key@) == Some(i as int) && i < items.len(),
            None => first_index(keys_of(items@), key@) is None,
        },
{
    let ghost all = keys_of(items@);
    let mut i: usize = 0;
    while i < items.len()
        invariant
            i <= items.len(),
            all == keys_of(items@),
            first_index(all.take(i as int), key@) is None,
        decreases items.len() - i,
    {
        assert(all.take(i + 1).drop_last() == all.take(i as int));
        if same_text(items[i].key_text(), key) {
            proof {
                lemma_first_index_prefix(all, key@, i + 1);
            }
            return Some(i);
        }
        i += 1;
    }
    assert(all.take(items.len() as int) == all);
    None
}

/// A list file of the data directory: its name and the bytes it holds.
#[derive(Debug)]
pub struct DataFile {
    pub name: String,
    pub bytes: Vec<u8>,
}

impl Keyed for DataFile {
    open spec fn key_view(&self) -> Seq<char> {
        self.name@
    }

    fn key_text(&self) -> (r: &str) {
        self.name.as_str()
    }
}

/// A geometry file of the data directory: its name and the document it
/// holds, or `None` where the content is malformed.
#[derive(Debug)]
pub struct ShapeFile {
    pub name: String,
    pub document: Option<GeoDocument>,
}

impl Keyed for ShapeFile {
    open spec fn key_view(&self) -> Seq<char> {
        self.name@
    }

    fn key_text(&self) -> (r: &str) {
        self.name.as_str()
    }
}

/// One row of the country table: a symbolic key and the country's record.
#[derive(Debug)]
pub struct CountryEntry {
    pub key: String,
    pub info: CountryInfo,
}

impl Keyed for CountryEntry {
    open spec fn key_view(&self) -> Seq<char> {
        self.key@
    }

    fn key_text(&self) -> (r: &str) {
        self.key.as_str()
    }
}

/// One row of the trivia table: a symbolic key and its facts.
#[derive(Debug)]
pub struct FactEntry {
    pub key: String,
    pub facts: Vec<String>,
}

impl Keyed for FactEntry {
    open spec fn key_view(&self) -> Seq<char> {
        self.key@
    }

    fn key_text(&self) -> (r: &str) {
        self.key.as_str()
    }
}

/// The rows of a trivia table as plain values.
pub open spec fn fact_rows(entries: Seq<FactEntry>) -> Seq<(Seq<char>, Seq<Seq<char>>)> {
    Seq::new(entries.len(), |i: int| (entries[i].key@, texts(entries[i].facts@)))
}

/// One continent with the countries listed for it.
#[derive(Debug)]
pub struct Continent {
    pub name: String,
    pub countries: Vec<String>,
}

impl Keyed for Continent {
    open spec fn key_view(&self) -> Seq<char> {
        self.name@
    }

    fn key_text(&self) -> (r: &str) {
        self.name.as_str()
    }
}

/// Continent membership as a mapping from continent name to the set of its
/// country names; of two entries with one name the later one counts.
pub open spec fn membership_map(entries: Seq<Continent>) -> Map<Seq<char>, Set<Seq<char>>>
    decreases entries.len(),
{
    if entries.len() == 0 {
        Map::empty()
    } else {
        membership_map(entries.drop_last()).insert(
            entries.last().name@,
            texts(entries.last().countries@).to_set(),
        )
    }
}

/// One cached list.
#[derive(Debug)]
pub struct CacheEntry {
    pub level: GeoLevel,
    pub key: String,
    pub list: Vec<String>,
}

/// The cache as a mapping from level and symbolic key to the list stored
/// for them; a later entry overwrites an earlier one.
pub open spec fn cache_map(entries: Seq<CacheEntry>) -> Map<(GeoLevel, Seq<char>), Seq<Seq<char>>>
    decreases entries.len(),
{
    if entries.len() == 0 {
        Map::empty()
    } else {
        cache_map(entries.drop_last()).insert(
            (entries.last().level, entries.last().key@),
            texts(entries.last().list@),
        )
    }
}

/// Replacing an entry of the cache by a new list for its key amounts to
/// storing the list under that key.
proof fn lemma_cache_replace(entries: Seq<CacheEntry>, i: int, list: Seq<Seq<char>>)
    requires
        0 <= i < entries.len(),
    ensures
        cache_map(entries.remove(i)).insert((entries[i].level, entries[i].key@), list)
            == cache_map(entries).insert((entries[i].level, entries[i].key@), list),
    decreases entries.len(),
{
    let key = (entries[i].level, entries[i].key@);
    let rest = entries.drop_last();
    let last = entries.last();
    if i == entries.len() - 1 {
        assert(entries.remove(i) == rest);
        assert(cache_map(rest).insert(key, texts(last.list@)).insert(key, list) == cache_map(
            rest,
        ).insert(key, list));
    } else {
        let last_key = (last.level, last.key@);
        lemma_cache_replace(rest, i, list);
        assert(entries.remove(i).drop_last() == rest.remove(i));
        assert(entries.remove(i).last() == last);
        assert(rest[i] == entries[i]);
        let a = cache_map(rest.remove(i));
        let b = cache_map(rest);
        assert(a.insert(key, list) == b.insert(key, list));
        if last_key == key {
            assert(a.insert(last_key, texts(last.list@)).insert(key, list) == a.insert(key, list));
            assert(b.insert(last_key, texts(last.list@)).insert(key, list) == b.insert(key, list));
        } else {
            assert(a.insert(last_key, texts(last.list@)).insert(key, list) == a.insert(
                key,
                list,
            ).insert(last_key, texts(last.list@)));
            assert(b.insert(last_key, texts(last.list@)).insert(key, list) == b.insert(
                key,
                list,
            ).insert(last_key, texts(last.list@)));
        }
    }
}

/// The entry that decides what the cache holds for a level and a symbolic
/// key: the last one stored for them.
fn find_entry(entries: &Vec<CacheEntry>, level: GeoLevel, key: &str) -> (r: Option<usize>)
    ensures
        match r {
            Some(i) => {
                &&& i < entries.len()
                &&& entries@[i as int].level == level
                &&& entries@[i as int].key@ == key@
                &&& cache_map(entries@).contains_key((level, key@))
                &&& cache_map(entries@)[(level, key@)] == texts(entries@[i as int].list@)
            },
            None => !cache_map(entries@).contains_key((level, key@)),
        },
{
    let mut found: Option<usize> = None;
    let mut i: usize = 0;
    while i < entries.len()
        invariant
            i <= entries.len(),
            match found {
                Some(k) => {
                    &&& k < i
                    &&& entries@[k as int].level == level
                    &&& entries@[k as int].key@ == key@
                    &&& cache_map(entries@.take(i as int)).contains_key((level, key@))
                    &&& cache_map(entries@.take(i as int))[(level, key@)] == texts(
                        entries@[k as int].list@,
                    )
                },
                None => !cache_map(entries@.take(i as int)).contains_key((level, key@)),
            },
        decreases entries.len() - i,
    {
        assert(entries@.take(i + 1).drop_last() == entries@.take(i as int));
        if entries[i].level == level && same_text(entries[i].key.as_str(), key) {
            found = Some(i);
        }
        i += 1;
    }
    assert(entries@.take(entries@.len() as int) == entries@);
    found
}

/// The file-name prefix of a level: only the world list is a "continent"
/// file, every other level's file is a "country" file.
pub open spec fn level_prefix(level: GeoLevel) -> Seq<char> {
    match level {
        GeoLevel::World => "continent"@,
        GeoLevel::Continent => "country"@,
        GeoLevel::Country => "country"@,
    }
}

/// The name of the file that holds a level's data for a symbolic key.
pub open spec fn data_file_name(level: GeoLevel, key: Seq<char>, extension: Seq<char>) -> Seq<
    char,
> {
    level_prefix(level) + "_"@ + key + extension
}

/// The name of the list file for a level and a symbolic key.
pub open spec fn list_file_name(level: GeoLevel, key: Seq<char>) -> Seq<char> {
    data_file_name(level, key, ".json"@)
}

/// The name of the geometry file for a level and a symbolic key.
pub open spec fn shape_file_name(level: GeoLevel, key: Seq<char>) -> Seq<char> {
    data_file_name(level, key, ".geojson"@)
}

/// Builds the name of a data file.
pub fn file_name(level: GeoLevel, key: &str, extension: &str) -> (name: String)
    ensures
        name@ == data_file_name(level, key@, extension@),
{
    let mut name = match level {
        GeoLevel::World => String::from_str("continent"),
        GeoLevel::Continent => String::from_str("country"),
        GeoLevel::Country => String::from_str("country"),
    };
    name.append("_");
    name.append(key);
    name.append(extension);
    name
}

/// The error with which `serde_json` rejects a text.
#[verifier::external_type_specification]
#[verifier::external_body]
pub struct ExJsonError(serde_json::Error);

/// What `serde_json::from_slice` makes of `bytes` when asked for a list of
/// strings: the list, or `None` where it reports an error.
pub uninterp spec fn json_name_list(bytes: Seq<u8>) -> Option<Seq<Seq<char>>>;

/// What `serde_json::from_slice` makes of `bytes` when asked for a mapping
/// from strings to lists of strings: its entries in the order in which the
/// mapping hands them out, or `None` where it reports an error.
pub uninterp spec fn json_fact_table(bytes: Seq<u8>) -> Option<Seq<(Seq<char>, Seq<Seq<char>>)>>;

/// Parses a JSON array of strings with `serde_json::from_slice`. The
/// outcome depends on the bytes alone; it is named, not described.
#[verifier::external_body]
fn parse_name_list(bytes: &[u8]) -> (r: Result<Vec<String>, serde_json::Error>)
    ensures
        match r {
            Ok(list) => json_name_list(bytes@) == Some(texts(list@)),
            Err(_) => json_name_list(bytes@) is None,
        },
{
    serde_json::from_slice::<Vec<String>>(bytes)
}

/// Parses a JSON object of string arrays with `serde_json::from_slice`
/// into an ordered map, and hands out the map's entries one by one. The
/// outcome depends on the bytes alone; it is named, not described.
#[verifier::external_body]
fn parse_fact_table(bytes: &[u8]) -> (r: Result<Vec<FactEntry>, serde_json::Error>)
    ensures
        match r {
            Ok(table) => json_fact_table(bytes@) == Some(fact_rows(table@)),
            Err(_) => json_fact_table(bytes@) is None,
        },
{
    let table = serde_json::from_slice::<std::collections::BTreeMap<String, Vec<String>>>(bytes)?;
    Ok(table.into_iter().map(|(key, facts)| FactEntry { key, facts }).collect())
}

/// Draws an index below `len` from `rand`'s thread-local generator with
/// `Rng::random_range`, which samples from the half-open range it is
/// given and panics on an empty one.
#[verifier::external_body]
fn random_index(len: usize) -> (i: usize)
    requires
        len > 0,
    ensures
        i < len,
{
    rand::rng().random_range(0..len)
}

/// The keys of the rows of a trivia table.
pub open spec fn row_keys(rows: Seq<(Seq<char>, Seq<Seq<char>>)>) -> Seq<Seq<char>> {
    Seq::new(rows.len(), |i: int| rows[i].0)
}

/// The list that some list files hold for a level and a symbolic key:
/// `NotFound` where the file is absent, `Parse` where its content is not a
/// list of strings.
pub open spec fn list_in(files: Seq<DataFile>, level: GeoLevel, key: Seq<char>) -> Result<
    Seq<Seq<char>>,
    DataError,
> {
    match first_index(keys_of(files), list_file_name(level, key)) {
        None => Err(DataError::NotFound),
        Some(i) => match json_name_list(files[i].bytes@) {
            Some(list) => Ok(list),
            None => Err(DataError::Parse),
        },
    }
}

/// Continent membership for the continents `world`: each continent whose
/// country list loads is mapped to the set of its countries, each whose
/// list fails to load is left out.
pub open spec fn membership(files: Seq<DataFile>, world: Seq<Seq<char>>) -> Map<
    Seq<char>,
    Set<Seq<char>>,
>
    decreases world.len(),
{
    if world.len() == 0 {
        Map::empty()
    } else {
        let rest = membership(files, world.drop_last());
        match list_in(files, GeoLevel::Continent, canonical(world.last())) {
            Ok(list) => rest.insert(world.last(), list.to_set()),
            Err(_) => rest,
        }
    }
}

/// The cache `base` after the country list of each continent of `world`
/// that loads has been stored in it.
pub open spec fn cached_continents(
    files: Seq<DataFile>,
    base: Map<(GeoLevel, Seq<char>), Seq<Seq<char>>>,
    world: Seq<Seq<char>>,
) -> Map<(GeoLevel, Seq<char>), Seq<Seq<char>>>
    decreases world.len(),
{
    if world.len() == 0 {
        base
    } else {
        let rest = cached_continents(files, base, world.drop_last());
        match list_in(files, GeoLevel::Continent, canonical(world.last())) {
            Ok(list) => rest.insert((GeoLevel::Continent, canonical(world.last())), list),
            Err(_) => rest,
        }
    }
}

/// Loads and caches the reference data of one data directory.
pub struct DataCache {
    lists: Vec<DataFile>,
    shapes: Vec<ShapeFile>,
    index: Vec<CacheEntry>,
    country_info: Option<Vec<CountryEntry>>,
    funfacts: Vec<FactEntry>,
}

impl DataCache {
    /// The list files of the data directory.
    pub closed spec fn list_files(&self) -> Seq<DataFile> {
        self.lists@
    }

    /// The geometry files of the data directory.
    pub closed spec fn shape_files(&self) -> Seq<ShapeFile> {
        self.shapes@
    }

    /// The country table, where one was loaded.
    pub closed spec fn country_table(&self) -> Option<Seq<CountryEntry>> {
        match self.country_info {
            Some(table) => Some(table@),
            None => None,
        }
    }

    /// The rows of the trivia table.
    pub closed spec fn fact_table(&self) -> Seq<(Seq<char>, Seq<Seq<char>>)> {
        fact_rows(self.funfacts@)
    }

    /// The list cache: level and symbolic key to the list last loaded for
    /// them.
    pub closed spec fn index(&self) -> Map<(GeoLevel, Seq<char>), Seq<Seq<char>>> {
        cache_map(self.index@)
    }

    /// Whether every cached list is the one that the directory holds for
    /// its level and key. A new catalogue is faithful, and loading keeps
    /// it so: nothing in the cache ever goes stale.
    pub open spec fn faithful(&self) -> bool {
        forall|k: (GeoLevel, Seq<char>)| #[trigger]
            self.index().contains_key(k) ==> self.stored_list(k.0, k.1) == Ok::<
                Seq<Seq<char>>,
                DataError,
            >(self.index()[k])
    }

    /// Whether two catalogues hold the same directory contents and tables
    /// (their caches may differ).
    pub open spec fn same_data(&self, other: &DataCache) -> bool {
        &&& self.list_files() == other.list_files()
        &&& self.shape_files() == other.shape_files()
        &&& self.country_table() == other.country_table()
        &&& self.fact_table() == other.fact_table()
    }

    /// The list that the directory holds for a level and a symbolic key:
    /// `NotFound` where the file is absent, `Parse` where its content is
    /// not a list of strings.
    pub open spec fn stored_list(&self, level: GeoLevel, key: Seq<char>) -> Result<
        Seq<Seq<char>>,
        DataError,
    > {
        list_in(self.list_files(), level, key)
    }

    /// The geometry document that the directory holds for a level and a
    /// symbolic key: `NotFound` where the file is absent, `Parse` where its
    /// content is malformed.
    pub open spec fn stored_document(&self, level: GeoLevel, key: Seq<char>) -> Result<
        DocumentModel,
        DataError,
    > {
        match first_index(keys_of(self.shape_files()), shape_file_name(level, key)) {
            None => Err(DataError::NotFound),
            Some(i) => match self.shape_files()[i].document {
                Some(document) => Ok(document@),
                None => Err(DataError::Parse),
            },
        }
    }

    /// The record stored for a symbolic country key.
    pub open spec fn country(&self, key: Seq<char>) -> Option<CountryInfoModel> {
        match self.country_table() {
            None => None,
            Some(table) => match first_index(keys_of(table), key) {
                Some(i) => Some(table[i].info@),
                None => None,
            },
        }
    }

    /// The facts stored for a symbolic key; none where the key is absent.
    pub open spec fn facts(&self, key: Seq<char>) -> Seq<Seq<char>> {
        match first_index(row_keys(self.fact_table()), key) {
            Some(i) => self.fact_table()[i].1,
            None => Seq::empty(),
        }
    }

    /// The cache after continent membership has been built on top of
    /// `base`: unchanged where the world list fails to load, else with the
    /// world list and every continent list that loads.
    pub open spec fn cached_membership(
        &self,
        base: Map<(GeoLevel, Seq<char>), Seq<Seq<char>>>,
    ) -> Map<(GeoLevel, Seq<char>), Seq<Seq<char>>> {
        match self.stored_list(GeoLevel::World, canonical("world"@)) {
            Ok(world) => cached_continents(
                self.list_files(),
                base.insert((GeoLevel::World, canonical("world"@)), world),
                world,
            ),
            Err(_) => base,
        }
    }

    /// The continent membership that the directory yields: `None` where
    /// the world list fails to load.
    pub open spec fn stored_membership(&self) -> Option<Map<Seq<char>, Set<Seq<char>>>> {
        match self.stored_list(GeoLevel::World, canonical("world"@)) {
            Ok(world) => Some(membership(self.list_files(), world)),
            Err(_) => None,
        }
    }

    /// A catalogue over the contents of a data directory: its list files,
    /// its geometry files, the country table if one could be read, and the
    /// bytes of the trivia file if there is one. A trivia file that does
    /// not parse counts as an empty table. The cache starts empty.
    pub fn new(
        lists: Vec<DataFile>,
        shapes: Vec<ShapeFile>,
        country_info: Option<Vec<CountryEntry>>,
        funfacts: Option<Vec<u8>>,
    ) -> (cache: DataCache)
        ensures
            cache.list_files() == lists@,
            cache.shape_files() == shapes@,
            cache.country_table() == match country_info {
                Some(table) => Some(table@),
                None => None,
            },
            cache.fact_table() == match funfacts {
                Some(bytes) => match json_fact_table(bytes@) {
                    Some(rows) => rows,
                    None => Seq::empty(),
                },
                None => Seq::empty(),
            },
            cache.index() == Map::<(GeoLevel, Seq<char>), Seq<Seq<char>>>::empty(),
            cache.faithful(),
    {
        let table: Vec<FactEntry> = match funfacts {
            Some(bytes) => match parse_fact_table(bytes.as_slice()) {
                Ok(table) => table,
                Err(_) => Vec::new(),
            },
            None => Vec::new(),
        };
        assert(fact_rows(Seq::<FactEntry>::empty()) =~= Seq::empty());
        Self::with_facts(lists, shapes, country_info, table)
    }

    /// A catalogue over the contents of a data directory and a trivia
    /// table given row by row. The cache starts empty.
    pub fn with_facts(
        lists: Vec<DataFile>,
        shapes: Vec<ShapeFile>,
        country_info: Option<Vec<CountryEntry>>,
        facts: Vec<FactEntry>,
    ) -> (cache: DataCache)
        ensures
            cache.list_files() == lists@,
            cache.shape_files() == shapes@,
            cache.country_table() == match country_info {
                Some(table) => Some(table@),
                None => None,
            },
            cache.fact_table() == fact_rows(facts@),
            cache.index() == Map::<(GeoLevel, Seq<char>), Seq<Seq<char>>>::empty(),
            cache.faithful(),
    {
        DataCache { lists, shapes, index: Vec::new(), country_info, funfacts: facts }
    }

    /// Stores a list in the cache under a level and the symbolic key of a
    /// display name or key, in place of what the cache held for them. The
    /// catalogue stays faithful where the list is the one that the
    /// directory holds for them.
    pub fn store_list(&mut self, level: GeoLevel, key: &str, list: &Vec<String>)
        ensures
            final(self).same_data(old(self)),
            final(self).index() == old(self).index().insert(
                (level, canonical(key@)),
                texts(list@),
            ),
            old(self).faithful() && old(self).stored_list(level, canonical(key@)) == Ok::<
                Seq<Seq<char>>,
                DataError,
            >(texts(list@)) ==> final(self).faithful(),
    {
        let skey = canonical_key(key);
        let copy = list.clone();
        assert(texts(copy@) =~= texts(list@));
        match find_entry(&self.index, level, skey.as_str()) {
            Some(old) => {
                proof {
                    lemma_cache_replace(self.index@, old as int, texts(list@));
                }
                self.index.remove(old);
            },
            None => {},
        }
        let ghost before = self.index@;
        self.index.push(CacheEntry { level, key: skey, list: copy });
        assert(self.index@.drop_last() == before);
        assert(old(self).faithful() && old(self).stored_list(level, canonical(key@)) == Ok::<
            Seq<Seq<char>>,
            DataError,
        >(texts(list@)) ==> self.faithful()) by {
            if old(self).faithful() && old(self).stored_list(level, canonical(key@)) == Ok::<
                Seq<Seq<char>>,
                DataError,
            >(texts(list@)) {
                assert forall|k: (GeoLevel, Seq<char>)| #[trigger]
                    self.index().contains_key(k) implies self.stored_list(k.0, k.1) == Ok::<
                    Seq<Seq<char>>,
                    DataError,
                >(self.index()[k]) by {
                    if k != (level, canonical(key@)) {
                        assert(old(self).index().contains_key(k));
                    }
                }
            }
        }
    }

    /// Loads the list for a level and a display name or key, and stores it
    /// in the cache under the level and the symbolic key.
    pub fn load_list(&mut self, level: GeoLevel, key: &str) -> (r: Result<Vec<String>, DataError>)
        ensures
            final(self).same_data(old(self)),
            old(self).faithful() ==> final(self).faithful(),
            match old(self).stored_list(level, canonical(key@)) {
                Ok(list) => r matches Ok(v) && texts(v@) == list && final(self).index() == old(
                    self,
                ).index().insert((level, canonical(key@)), list),
                Err(e) => r matches Err(x) && x == e && *final(self) == *old(self),
            },
    {
        let skey = canonical_key(key);
        let name = file_name(level, skey.as_str(), ".json");
        match find_keyed(&self.lists, name.as_str()) {
            None => Err(DataError::NotFound),
            Some(i) => match parse_name_list(self.lists[i].bytes.as_slice()) {
                Err(_) => Err(DataError::Parse),
                Ok(list) => {
                    self.store_list(level, key, &list);
                    Ok(list)
                },
            },
        }
    }

    /// The list that the cache holds for a level and a display name or
    /// key: the one last loaded for them, if one was. In a faithful
    /// catalogue it is the list that the directory holds.
    pub fn cached_list(&self, level: GeoLevel, key: &str) -> (r: Option<&Vec<String>>)
        ensures
            match r {
                Some(list) => {
                    &&& self.index().contains_key((level, canonical(key@)))
                    &&& self.index()[(level, canonical(key@))] == texts(list@)
                    &&& self.faithful() ==> self.stored_list(level, canonical(key@)) == Ok::<
                        Seq<Seq<char>>,
                        DataError,
                    >(texts(list@))
                },
                None => !self.index().contains_key((level, canonical(key@))),
            },
    {
        let skey = canonical_key(key);
        match find_entry(&self.index, level, skey.as_str()) {
            Some(i) => {
                assert(self.index().contains_key((level, canonical(key@))));
                Some(&self.index[i].list)
            },
            None => None,
        }
    }

    /// Loads the geometry document for a level and a display name or key.
    pub fn load_geojson(&self, level: &GeoLevel, key: &str) -> (r: Result<GeoDocument, DataError>)
        ensures
            match self.stored_document(*level, canonical(key@)) {
                Ok(document) => r matches Ok(d) && d@ == document,
                Err(e) => r matches Err(x) && x == e,
            },
    {
        let skey = canonical_key(key);
        let name = file_name(*level, skey.as_str(), ".geojson");
        match find_keyed(&self.shapes, name.as_str()) {
            None => Err(DataError::NotFound),
            Some(i) => match &self.shapes[i].document {
                Some(document) => Ok(copy_document(document)),
                None => Err(DataError::Parse),
            },
        }
    }

    /// The record of the country with the given display name or key.
    pub fn load_country_info(&self, key: &str) -> (r: Option<&CountryInfo>)
        ensures
            match self.country(canonical(key@)) {
                Some(info) => r matches Some(found) && found@ == info,
                None => r is None,
            },
    {
        let skey = canonical_key(key);
        match &self.country_info {
            None => None,
            Some(table) => match find_keyed(table, skey.as_str()) {
                Some(i) => Some(&table[i].info),
                None => None,
            },
        }
    }

    /// How many facts are stored for the given display name or key.
    pub fn fact_count(&self, key: &str) -> (n: usize)
        ensures
            n == self.facts(canonical(key@)).len(),
    {
        let skey = canonical_key(key);
        assert(keys_of(self.funfacts@) =~= row_keys(fact_rows(self.funfacts@)));
        match find_keyed(&self.funfacts, skey.as_str()) {
            Some(i) => self.funfacts[i].facts.len(),
            None => 0,
        }
    }

    /// The fact that a draw selects for the given display name or key:
    /// the fact at that position, or none where the position is beyond
    /// the facts stored.
    pub fn fact_at(&self, key: &str, draw: usize) -> (r: Option<String>)
        ensures
            match r {
                Some(fact) => draw < self.facts(canonical(key@)).len() && fact@ == self.facts(
                    canonical(key@),
                )[draw as int],
                None => draw >= self.facts(canonical(key@)).len(),
            },
    {
        let skey = canonical_key(key);
        assert(keys_of(self.funfacts@) =~= row_keys(fact_rows(self.funfacts@)));
        match find_keyed(&self.funfacts, skey.as_str()) {
            Some(i) => {
                if draw < self.funfacts[i].facts.len() {
                    Some(self.funfacts[i].facts[draw].clone())
                } else {
                    None
                }
            },
            None => None,
        }
    }

    /// A fact about the given display name or key, drawn at random from
    /// those stored for it; none where none is stored.
    pub fn random_funfact(&self, key: &str) -> (r: Option<String>)
        ensures
            match r {
                Some(fact) => self.facts(canonical(key@)).contains(fact@),
                None => self.facts(canonical(key@)).len() == 0,
            },
    {
        let count = self.fact_count(key);
        if count == 0 {
            None
        } else {
            let draw = random_index(count);
            self.fact_at(key, draw)
        }
    }

    /// Builds continent membership: loads the world list, then the country
    /// list of each continent in it. A continent whose list fails to load
    /// is left out; only a failure of the world list is an error. Every
    /// list that loads is cached.
    pub fn load_continent_mappings(&mut self) -> (r: Result<Vec<Continent>, DataError>)
        ensures
            final(self).same_data(old(self)),
            old(self).faithful() ==> final(self).faithful(),
            final(self).index() == old(self).cached_membership(old(self).index()),
            match old(self).stored_list(GeoLevel::World, canonical("world"@)) {
                Ok(world) => r matches Ok(m) && membership_map(m@) == membership(
                    old(self).list_files(),
                    world,
                ),
                Err(e) => r matches Err(x) && x == e && *final(self) == *old(self),
            },
    {
        let ghost start = *self;
        let continents = match self.load_list(GeoLevel::World, "world") {
            Ok(list) => list,
            Err(e) => {
                return Err(e);
            },
        };
        let ghost world = texts(continents@);
        let ghost base = self.index();
        let mut result: Vec<Continent> = Vec::new();
        let mut i: usize = 0;
        while i < continents.len()
            invariant
                i <= continents.len(),
                world == texts(continents@),
                self.same_data(&start),
                start.faithful() ==> self.faithful(),
                membership_map(result@) == membership(start.list_files(), world.take(i as int)),
                self.index() == cached_continents(start.list_files(), base, world.take(i as int)),
            decreases continents.len() - i,
        {
            assert(world.take(i + 1).drop_last() == world.take(i as int));
            assert(world.take(i + 1).last() == continents@[i as int]@);
            let ghost before = result@;
            match self.load_list(GeoLevel::Continent, continents[i].as_str()) {
                Ok(countries) => {
                    result.push(Continent { name: continents[i].clone(), countries });
                    assert(result@.drop_last() == before);
                },
                Err(_) => {},
            }
            i += 1;
        }
        assert(world.take(continents.len() as int) == world);
        Ok(result)
    }
}

/// A lookup by a symbolic key finds what the lookup by the name finds:
/// lists, documents, country records and facts are the same for a name and
/// for its key. This holds of every name of ASCII characters, and of any
/// other name whose key lowercasing leaves as it is.
pub proof fn lookup_by_key_agrees(cache: DataCache, level: GeoLevel, name: Seq<char>)
    requires
        is_ascii_chars(name) || lowered(canonical(name)) == canonical(name),
    ensures
        cache.stored_list(level, canonical(canonical(name))) == cache.stored_list(
            level,
            canonical(name),
        ),
        cache.stored_document(level, canonical(canonical(name))) == cache.stored_document(
            level,
            canonical(name),
        ),
        cache.country(canonical(canonical(name))) == cache.country(canonical(name)),
        cache.facts(canonical(canonical(name))) == cache.facts(canonical(name)),
{
    canonical_idempotent(name);
}

} // verus!
