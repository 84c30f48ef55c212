//! The economic index: a yearly series per country code, read from a
//! wide table with one row per country and one column per year, and
//! found again by exact, lowercase or partial country name.

use crate::amount::{cell_amount, format_amount, magnitude_text, parse_amount};
use crate::data::{keys_of, Keyed};
use crate::text::{
    contains_text, is_part_of, last_index, lower_text, lowered, same_text, split_cells,
    split_line, texts, trim_char, trimmed,
};
use vstd::prelude::*;

verus! {

/// The number of leading lines of the table that carry no data.
pub const HEADER_LINES: usize = 5;

/// The column of the first year.
pub const FIRST_YEAR_COLUMN: usize = 4;

/// The column after the last year.
pub const END_COLUMN: usize = 68;

/// The year of the first year column.
pub const BASE_YEAR: u32 = 1960;

/// One value of a series: a year and the amount for it, in hundredths.
#[derive(Clone, Copy, Debug, PartialEq, Eq, Structural)]
pub struct YearValue {
    pub year: u32,
    pub value: i64,
}

/// One data row of the table.
pub struct RowModel {
    pub name: Seq<char>,
    pub code: Seq<char>,
    pub series: Seq<YearValue>,
}

/// What the index holds: name-to-code entries and code-to-series entries
/// in the order in which they were added (of two entries with one key the
/// later one counts), and the display names in the order of their rows.
pub struct TableModel {
    pub codes: Seq<(Seq<char>, Seq<char>)>,
    pub names: Seq<Seq<char>>,
    pub data: Seq<(Seq<char>, Seq<YearValue>)>,
}

/// The values of the year columns before column `upto`: one for each cell
/// that holds an amount, none for an empty or non-numeric cell.
pub open spec fn year_values(cells: Seq<Seq<char>>, upto: int) -> Seq<YearValue>
    decreases upto,
{
    if upto <= FIRST_YEAR_COLUMN {
        Seq::empty()
    } else {
        let before = year_values(cells, upto - 1);
        match cell_amount(trimmed(cells[upto - 1], '"')) {
            Some(v) => before.push(
                YearValue {
                    year: (BASE_YEAR + (upto - 1 - FIRST_YEAR_COLUMN)) as u32,
                    value: v as i64,
                },
            ),
            None => before,
        }
    }
}

/// The column at which the years of a row of `count` cells end.
pub open spec fn year_columns_end(count: int) -> int {
    if count < END_COLUMN {
        count
    } else {
        END_COLUMN as int
    }
}

/// The row that a line of the table stands for: none for a line of fewer
/// than five cells.
pub open spec fn row_of(line: Seq<char>) -> Option<RowModel> {
    let cells = split_cells(line, ',');
    if cells.len() < 5 {
        None
    } else {
        Some(
            RowModel {
                name: trimmed(cells[0], '"'),
                code: trimmed(cells[1], '"'),
                series: year_values(cells, year_columns_end(cells.len() as int)),
            },
        )
    }
}

/// The index without any row.
pub open spec fn empty_table() -> TableModel {
    TableModel { codes: Seq::empty(), names: Seq::empty(), data: Seq::empty() }
}

/// The index after one more row: the row's name and its lowercase form
/// both lead to the row's code, and the code leads to the row's series.
pub open spec fn with_row(table: TableModel, row: RowModel) -> TableModel {
    TableModel {
        codes: table.codes.push((row.name, row.code)).push((lowered(row.name), row.code)),
        names: table.names.push(row.name),
        data: table.data.push((row.code, row.series)),
    }
}

/// The index that the lines before line `upto` give; the header lines
/// give nothing.
pub open spec fn table_rows(lines: Seq<Seq<char>>, upto: int) -> TableModel
    decreases upto,
{
    if upto <= HEADER_LINES {
        empty_table()
    } else {
        let before = table_rows(lines, upto - 1);
        match row_of(lines[upto - 1]) {
            Some(row) => with_row(before, row),
            None => before,
        }
    }
}

/// The index that the lines of a table give.
pub open spec fn table_of(lines: Seq<Seq<char>>) -> TableModel {
    table_rows(lines, lines.len() as int)
}

/// The first components of a list of pairs.
pub open spec fn pair_keys<V>(pairs: Seq<(Seq<char>, V)>) -> Seq<Seq<char>> {
    Seq::new(pairs.len(), |i: int| pairs[i].0)
}

/// The code that a name leads to by an exact match.
pub open spec fn code_of(table: TableModel, name: Seq<char>) -> Option<Seq<char>> {
    match last_index(pair_keys(table.codes), name) {
        Some(i) => Some(table.codes[i].1),
        None => None,
    }
}

/// Whether a known name and a query match partially: one is a contiguous
/// part of the other.
pub open spec fn partial_match(known: Seq<char>, query: Seq<char>) -> bool {
    is_part_of(query, known) || is_part_of(known, query)
}

/// The code of the first of `names` that matches the query partially and
/// leads to a code.
pub open spec fn fuzzy_code(table: TableModel, names: Seq<Seq<char>>, query: Seq<char>) -> Option<
    Seq<char>,
>
    decreases names.len(),
{
    if names.len() == 0 {
        None
    } else {
        match fuzzy_code(table, names.drop_last(), query) {
            Some(code) => Some(code),
            None => if partial_match(names.last(), query) {
                code_of(table, names.last())
            } else {
                None
            },
        }
    }
}

/// The code that a name resolves to: by an exact match, else by a match
/// of its lowercase form, else by the first partial match.
pub open spec fn resolved_code(table: TableModel, name: Seq<char>) -> Option<Seq<char>> {
    match code_of(table, name) {
        Some(code) => Some(code),
        None => match code_of(table, lowered(name)) {
            Some(code) => Some(code),
            None => fuzzy_code(table, table.names, name),
        },
    }
}

/// The series stored for a code.
pub open spec fn series_of(table: TableModel, code: Seq<char>) -> Option<Seq<YearValue>> {
    match last_index(pair_keys(table.data), code) {
        Some(i) => Some(table.data[i].1),
        None => None,
    }
}

/// The series that a name resolves to.
pub open spec fn resolved_series(table: TableModel, name: Seq<char>) -> Option<Seq<YearValue>> {
    match resolved_code(table, name) {
        Some(code) => series_of(table, code),
        None => None,
    }
}

/// The value of the greatest year of a series; of two values with that
/// year the earlier one.
pub open spec fn latest_of(series: Seq<YearValue>) -> Option<YearValue>
    decreases series.len(),
{
    if series.len() == 0 {
        None
    } else {
        match latest_of(series.drop_last()) {
            Some(best) => if series.last().year > best.year {
                Some(series.last())
            } else {
                Some(best)
            },
            None => Some(series.last()),
        }
    }
}

/// A name-to-code entry.
#[derive(Debug)]
pub struct CodeEntry {
    pub name: String,
    pub code: String,
}

impl Keyed for CodeEntry {
    open spec fn key_view(&self) -> Seq<char> {
        self.name@
    }

    fn key_text(&self) -> (r: &str) {
        self.name.as_str()
    }
}

/// A code-to-series entry.
#[derive(Debug)]
pub struct SeriesEntry {
    pub code: String,
    pub values: Vec<YearValue>,
}

impl Keyed for SeriesEntry {
    open spec fn key_view(&self) -> Seq<char> {
        self.code@
    }

    fn key_text(&self) -> (r: &str) {
        self.code.as_str()
    }
}

/// Name-to-code entries as plain values.
pub open spec fn code_pairs(entries: Seq<CodeEntry>) -> Seq<(Seq<char>, Seq<char>)> {
    Seq::new(entries.len(), |i: int| (entries[i].name@, entries[i].code@))
}

/// Code-to-series entries as plain values.
pub open spec fn series_pairs(entries: Seq<SeriesEntry>) -> Seq<(Seq<char>, Seq<YearValue>)> {
    Seq::new(entries.len(), |i: int| (entries[i].code@, entries[i].values@))
}

/// The position of the last item with the given key.
pub fn find_last_keyed<T: Keyed>(items: &Vec<T>, key: &str) -> (r: Option<usize>)
    ensures
        match r {
            Some(i) => last_index(keys_of(items@), key@) == Some(i as int) && i < items.len(),
            None => last_index(keys_of(items@), key@) is None,
        },
{
    let ghost all = keys_of(items@);
    let mut found: Option<usize> = None;
    let mut i: usize = 0;
    while i < items.len()
        invariant
            i <= items.len(),
            all == keys_of(items@),
            match found {
                Some(k) => last_index(all.take(i as int), key@) == Some(k as int) && k < i,
                None => last_index(all.take(i as int), key@) is None,
            },
        decreases items.len() - i,
    {
        assert(all.take(i + 1).drop_last() == all.take(i as int));
        if same_text(items[i].key_text(), key) {
            found = Some(i);
        }
        i += 1;
    }
    assert(all.take(items.len() as int) == all);
    found
}

/// Reads the year values of a row's cells.
fn read_year_values(cells: &Vec<String>) -> (values: Vec<YearValue>)
    ensures
        values@ == year_values(texts(cells@), year_columns_end(cells.len() as int)),
{
    let end: usize = if cells.len() < END_COLUMN {
        cells.len()
    } else {
        END_COLUMN
    };
    let mut values: Vec<YearValue> = Vec::new();
    if end <= FIRST_YEAR_COLUMN {
        return values;
    }
    let mut i: usize = FIRST_YEAR_COLUMN;
    while i < end
        invariant
            FIRST_YEAR_COLUMN <= i <= end <= cells.len(),
            end <= END_COLUMN,
            values@ == year_values(texts(cells@), i as int),
        decreases end - i,
    {
        let cell = trim_char(cells[i].as_str(), '"');
        assert(texts(cells@)[i as int] == cells@[i as int]@);
        match parse_amount(cell.as_str()) {
            Some(v) => {
                let year: u32 = BASE_YEAR + (i - FIRST_YEAR_COLUMN) as u32;
                values.push(YearValue { year, value: v });
            },
            None => {},
        }
        i += 1;
    }
    values
}

/// GDP figures per country and year.
pub struct GDPData {
    data: Vec<SeriesEntry>,
    country_codes: Vec<CodeEntry>,
    country_names: Vec<String>,
}

impl View for GDPData {
    type V = TableModel;

    closed spec fn view(&self) -> TableModel {
        TableModel {
            codes: code_pairs(self.country_codes@),
            names: texts(self.country_names@),
            data: series_pairs(self.data@),
        }
    }
}

impl GDPData {
    /// Reads the index from the lines of a table. The first five lines
    /// are headers. Of each further line, divided at its commas, the
    /// first cell is the display name, the second the country code, and
    /// the cells from the fifth on the values of the years from 1960, one
    /// year per cell, up to cell 68; quotes round a cell are dropped. A
    /// line of fewer than five cells gives no row, a cell that holds no
    /// amount gives no value.
    pub fn new(lines: &Vec<String>) -> (index: GDPData)
        ensures
            index@ == table_of(texts(lines@)),
    {
        let mut index = GDPData {
            data: Vec::new(),
            country_codes: Vec::new(),
            country_names: Vec::new(),
        };
        assert(index@.codes =~= Seq::empty());
        assert(index@.names =~= Seq::empty());
        assert(index@.data =~= Seq::empty());
        if lines.len() <= HEADER_LINES {
            return index;
        }
        let mut i: usize = HEADER_LINES;
        while i < lines.len()
            invariant
                HEADER_LINES <= i <= lines.len(),
                index@ == table_rows(texts(lines@), i as int),
            decreases lines.len() - i,
        {
            assert(texts(lines@)[i as int] == lines@[i as int]@);
            let cells = split_line(lines[i].as_str(), ',');
            if cells.len() >= 5 {
                assert(texts(cells@)[0] == cells@[0]@);
                assert(texts(cells@)[1] == cells@[1]@);
                let name = trim_char(cells[0].as_str(), '"');
                let code = trim_char(cells[1].as_str(), '"');
                let lower = lower_text(name.as_str());
                let values = read_year_values(&cells);
                let ghost before = index@;
                let ghost row = row_of(lines@[i as int]@).unwrap();
                index.country_codes.push(CodeEntry { name: name.clone(), code: code.clone() });
                index.country_codes.push(CodeEntry { name: lower, code: code.clone() });
                index.country_names.push(name);
                index.data.push(SeriesEntry { code, values });
                assert(index@.codes =~= with_row(before, row).codes);
                assert(index@.names =~= with_row(before, row).names);
                assert(index@.data =~= with_row(before, row).data);
            }
            i += 1;
        }
        index
    }

    /// The code that a name resolves to.
    fn resolve(&self, country_name: &str) -> (r: Option<usize>)
        ensures
            match r {
                Some(i) => i < self.country_codes.len() && resolved_code(self@, country_name@)
                    == Some(self.country_codes@[i as int].code@),
                None => resolved_code(self@, country_name@) is None,
            },
    {
        assert(keys_of(self.country_codes@) =~= pair_keys(self@.codes));
        match find_last_keyed(&self.country_codes, country_name) {
            Some(i) => {
                return Some(i);
            },
            None => {},
        }
        let lower = lower_text(country_name);
        match find_last_keyed(&self.country_codes, lower.as_str()) {
            Some(i) => {
                return Some(i);
            },
            None => {},
        }
        let ghost names = texts(self.country_names@);
        let mut k: usize = 0;
        while k < self.country_names.len()
            invariant
                k <= self.country_names.len(),
                names == texts(self.country_names@),
                names == self@.names,
                keys_of(self.country_codes@) == pair_keys(self@.codes),
                code_of(self@, country_name@) is None,
                code_of(self@, lowered(country_name@)) is None,
                fuzzy_code(self@, names.take(k as int), country_name@) is None,
            decreases self.country_names.len() - k,
        {
            assert(names.take(k + 1).drop_last() == names.take(k as int));
            assert(names.take(k + 1).last() == self.country_names@[k as int]@);
            let known = self.country_names[k].as_str();
            if contains_text(known, country_name) || contains_text(country_name, known) {
                match find_last_keyed(&self.country_codes, known) {
                    Some(i) => {
                        proof {
                            lemma_fuzzy_prefix(self@, names, country_name@, k + 1);
                        }
                        return Some(i);
                    },
                    None => {},
                }
            }
            k += 1;
        }
        assert(names.take(names.len() as int) == names);
        None
    }

    /// The latest value on record for a country: the year and the amount
    /// in hundredths. The name is resolved exactly, then in lowercase,
    /// then by the first known name that contains it or is contained in
    /// it; none where no code, no series or no value is found.
    pub fn get_latest_gdp(&self, country_name: &str) -> (r: Option<(u32, i64)>)
        ensures
            match r {
                Some(pair) => match resolved_series(self@, country_name@) {
                    Some(series) => latest_of(series) == Some(
                        YearValue { year: pair.0, value: pair.1 },
                    ),
                    None => false,
                },
                None => match resolved_series(self@, country_name@) {
                    Some(series) => latest_of(series) is None,
                    None => true,
                },
            },
    {
        let at = match self.resolve(country_name) {
            Some(i) => i,
            None => {
                return None;
            },
        };
        assert(keys_of(self.data@) =~= pair_keys(self@.data));
        let series = match find_last_keyed(&self.data, self.country_codes[at].code.as_str()) {
            Some(j) => &self.data[j].values,
            None => {
                return None;
            },
        };
        let mut latest: Option<YearValue> = None;
        let mut i: usize = 0;
        while i < series.len()
            invariant
                i <= series.len(),
                latest == latest_of(series@.take(i as int)),
            decreases series.len() - i,
        {
            assert(series@.take(i + 1).drop_last() == series@.take(i as int));
            let candidate = series[i];
            latest = match latest {
                Some(best) => if candidate.year > best.year {
                    Some(candidate)
                } else {
                    Some(best)
                },
                None => Some(candidate),
            };
            i += 1;
        }
        assert(series@.take(series@.len() as int) == series@);
        match latest {
            Some(best) => Some((best.year, best.value)),
            None => None,
        }
    }

    /// The whole series on record for a country, in the order of the
    /// table's year columns; the name is resolved as for the latest
    /// value.
    pub fn get_all_gdp_data(&self, country_name: &str) -> (r: Option<Vec<YearValue>>)
        ensures
            match r {
                Some(values) => resolved_series(self@, country_name@) == Some(values@),
                None => resolved_series(self@, country_name@) is None,
            },
    {
        let at = match self.resolve(country_name) {
            Some(i) => i,
            None => {
                return None;
            },
        };
        assert(keys_of(self.data@) =~= pair_keys(self@.data));
        match find_last_keyed(&self.data, self.country_codes[at].code.as_str()) {
            Some(j) => {
                let copy = self.data[j].values.clone();
                assert(copy@ =~= self.data@[j as int].values@);
                Some(copy)
            },
            None => None,
        }
    }

    /// Renders an amount, given in hundredths, with two decimal places:
    /// in units of 10^12 with the suffix " bln USD" from 10^12 on, of 10^9
    /// with " mld USD" from 10^9 on, of 10^6 with " mln USD" from 10^6 on,
    /// and as it is with " USD" below that.
    pub fn format_gdp_value(value: i64) -> (text: String)
        ensures
            text@ == magnitude_text(value as int),
    {
        format_amount(value)
    }
}

/// A code found among the first `k` names is the code found among all.
proof fn lemma_fuzzy_prefix(table: TableModel, names: Seq<Seq<char>>, query: Seq<char>, k: int)
    requires
        0 <= k <= names.len(),
        fuzzy_code(table, names.take(k), query) is Some,
    ensures
        fuzzy_code(table, names, query) == fuzzy_code(table, names.take(k), query),
    decreases names.len() - k,
{
    if k < names.len() {
        assert(names.take(k + 1).drop_last() == names.take(k));
        lemma_fuzzy_prefix(table, names, query, k + 1);
    } else {
        assert(names.take(k) == names);
    }
}

} // verus!
