use geo_explorer::amount::{format_amount, parse_amount};
use geo_explorer::gdp_reader::{GDPData, YearValue};

fn table(rows: &[&str]) -> Vec<String> {
    let mut lines: Vec<String> = vec![
        "\"Data Source\",\"World Development Indicators\",".to_string(),
        "".to_string(),
        "\"Last Updated Date\",\"2025-01-01\",".to_string(),
        "".to_string(),
        "\"Country Name\",\"Country Code\",\"Indicator Name\",\"Indicator Code\",\"1960\",\"1961\"".to_string(),
    ];
    for row in rows {
        lines.push(row.to_string());
    }
    lines
}

fn sample() -> GDPData {
    GDPData::new(&table(&[
        "\"Poland\",\"POL\",\"GDP (current US$)\",\"NY.GDP.MKTP.CD\",\"\",\"100.5\",\"\",\"250\"",
        "\"United States of America\",\"USA\",\"GDP\",\"NY\",\"543300000000\",\"563300000000\"",
        "\"Aruba\",\"ABW\",\"GDP\",\"NY\",\"\",\"\"",
        "\"Chad\",\"TCD\",\"GDP\",\"NY\",\"n/a\",\"12.345\",\"..\",\"7\"",
    ]))
}

#[test]
fn format_magnitude_classes() {
    assert_eq!(GDPData::format_gdp_value(2_500_000_000_000 * 100), "2.50 bln USD");
    assert_eq!(GDPData::format_gdp_value(3_400_000_000 * 100), "3.40 mld USD");
    assert_eq!(GDPData::format_gdp_value(999 * 100), "999.00 USD");
    assert_eq!(GDPData::format_gdp_value(7_250_000 * 100), "7.25 mln USD");
}

#[test]
fn format_magnitude_at_the_thresholds() {
    assert_eq!(format_amount(1_000_000_000_000 * 100), "1.00 bln USD");
    assert_eq!(format_amount(1_000_000_000_000 * 100 - 1), "1000.00 mld USD");
    assert_eq!(format_amount(1_000_000_000 * 100), "1.00 mld USD");
    assert_eq!(format_amount(1_000_000_000 * 100 - 1), "1000.00 mln USD");
    assert_eq!(format_amount(1_000_000 * 100), "1.00 mln USD");
    assert_eq!(format_amount(1_000_000 * 100 - 1), "999999.99 USD");
}

#[test]
fn format_magnitude_rounds_to_two_places() {
    assert_eq!(format_amount(1_234_000_000 * 100), "1.23 mld USD");
    assert_eq!(format_amount(1_235_000_000 * 100), "1.24 mld USD");
    assert_eq!(format_amount(1_239_999_999 * 100), "1.24 mld USD");
    assert_eq!(format_amount(12_345), "123.45 USD");
    assert_eq!(format_amount(5), "0.05 USD");
    assert_eq!(format_amount(0), "0.00 USD");
}

#[test]
fn format_magnitude_of_negative_and_extreme_amounts() {
    assert_eq!(format_amount(-12_345), "-123.45 USD");
    assert_eq!(format_amount(-1), "-0.01 USD");
    assert_eq!(format_amount(-5_000_000_000_000 * 100), "-5000000000000.00 USD");
    assert_eq!(format_amount(i64::MAX), "92233.72 bln USD");
    assert_eq!(format_amount(i64::MIN), "-92233720368547758.08 USD");
}

#[test]
fn parse_amount_reads_decimals_as_hundredths() {
    assert_eq!(parse_amount("250"), Some(25_000));
    assert_eq!(parse_amount("100.5"), Some(10_050));
    assert_eq!(parse_amount("0.07"), Some(7));
    assert_eq!(parse_amount("12.345"), Some(1_235));
    assert_eq!(parse_amount("12.344999"), Some(1_234));
    assert_eq!(parse_amount("405463417.117746"), Some(40_546_341_712));
    assert_eq!(parse_amount("5."), Some(500));
    assert_eq!(parse_amount(".5"), Some(50));
    assert_eq!(parse_amount("007"), Some(700));
    assert_eq!(parse_amount("0.999"), Some(100));
}

#[test]
fn parse_amount_reads_signs() {
    assert_eq!(parse_amount("-5"), Some(-500));
    assert_eq!(parse_amount("+5"), Some(500));
    assert_eq!(parse_amount("-0.005"), Some(-1));
    assert_eq!(parse_amount("-0"), Some(0));
}

#[test]
fn parse_amount_rejects_what_is_no_decimal() {
    assert_eq!(parse_amount(""), None);
    assert_eq!(parse_amount("."), None);
    assert_eq!(parse_amount("-"), None);
    assert_eq!(parse_amount("+."), None);
    assert_eq!(parse_amount("abc"), None);
    assert_eq!(parse_amount("1,5"), None);
    assert_eq!(parse_amount("1.2.3"), None);
    assert_eq!(parse_amount("12a"), None);
    assert_eq!(parse_amount("1.5x"), None);
    assert_eq!(parse_amount(" 1"), None);
    assert_eq!(parse_amount("--1"), None);
    assert_eq!(parse_amount("inf"), None);
    assert_eq!(parse_amount("infinity"), None);
    assert_eq!(parse_amount("NaN"), None);
    assert_eq!(parse_amount("١٢"), None);
}

#[test]
fn parse_amount_at_the_limit() {
    assert_eq!(parse_amount("92233720368547758.07"), Some(i64::MAX));
    assert_eq!(parse_amount("-92233720368547758.07"), Some(-i64::MAX));
    assert_eq!(parse_amount("92233720368547758.08"), None);
    assert_eq!(parse_amount("92233720368547758.069"), Some(i64::MAX));
    assert_eq!(parse_amount("92233720368547758.075"), None);
    assert_eq!(parse_amount("92233720368547759"), None);
    assert_eq!(parse_amount("99999999999999999999999999999999"), None);
    assert_eq!(parse_amount("00000000000000000000000000000001"), Some(100));
}

#[test]
fn latest_value_skips_gaps() {
    let data = sample();
    assert_eq!(data.get_latest_gdp("Poland"), Some((1963, 25_000)));
    assert_eq!(data.get_latest_gdp("Chad"), Some((1963, 700)));
    assert_eq!(
        data.get_all_gdp_data("Poland"),
        Some(vec![YearValue { year: 1961, value: 10_050 }, YearValue { year: 1963, value: 25_000 }])
    );
    assert_eq!(
        data.get_all_gdp_data("Chad"),
        Some(vec![YearValue { year: 1961, value: 1_235 }, YearValue { year: 1963, value: 700 }])
    );
}

#[test]
fn lowercase_query_resolves_like_the_exact_name() {
    let data = sample();
    let exact = data.get_latest_gdp("Poland");
    assert_eq!(exact, Some((1963, 25_000)));
    assert_eq!(data.get_latest_gdp("poland"), exact);
    assert_eq!(data.get_latest_gdp("POLAND"), exact);
    assert_eq!(data.get_all_gdp_data("poland"), data.get_all_gdp_data("Poland"));
}

#[test]
fn partial_name_resolves_by_containment() {
    let data = sample();
    assert_eq!(data.get_latest_gdp("United States"), Some((1961, 56_330_000_000_000)));
    assert_eq!(
        data.get_latest_gdp("United States of America (the)"),
        Some((1961, 56_330_000_000_000))
    );
    assert_eq!(data.get_latest_gdp("Atlantis"), None);
    assert_eq!(data.get_all_gdp_data("Atlantis"), None);
}

#[test]
fn partial_match_takes_the_first_known_name() {
    let data = GDPData::new(&table(&[
        "\"Guinea\",\"GIN\",\"GDP\",\"NY\",\"1\"",
        "\"Guinea-Bissau\",\"GNB\",\"GDP\",\"NY\",\"2\"",
        "\"Equatorial Guinea\",\"GNQ\",\"GDP\",\"NY\",\"3\"",
    ]));
    assert_eq!(data.get_latest_gdp("Guinea-Bissau"), Some((1960, 200)));
    assert_eq!(data.get_latest_gdp("New Guinea"), Some((1960, 100)));
    assert_eq!(data.get_latest_gdp("uinea-B"), Some((1960, 200)));
    // The empty query is a part of every name: the first row wins.
    assert_eq!(data.get_latest_gdp(""), Some((1960, 100)));
}

#[test]
fn a_series_without_values_has_no_latest_value() {
    let data = sample();
    assert_eq!(data.get_latest_gdp("Aruba"), None);
    assert_eq!(data.get_all_gdp_data("Aruba"), Some(Vec::new()));
}

#[test]
fn header_lines_and_short_rows_give_nothing() {
    let data = GDPData::new(&vec![
        "\"Poland\",\"POL\",\"GDP\",\"NY\",\"1\"".to_string(),
        "\"Spain\",\"ESP\",\"GDP\",\"NY\",\"2\"".to_string(),
    ]);
    assert_eq!(data.get_latest_gdp("Poland"), None);
    let data = GDPData::new(&Vec::new());
    assert_eq!(data.get_latest_gdp("Poland"), None);
    let data = GDPData::new(&table(&["\"Poland\",\"POL\",\"GDP\",\"NY\"", "", "\"Spain\",\"ESP\",\"GDP\",\"NY\",\"2\""]));
    assert_eq!(data.get_latest_gdp("Poland"), None);
    assert_eq!(data.get_latest_gdp("Spain"), Some((1960, 200)));
}

#[test]
fn year_columns_end_with_2023() {
    let mut row = String::from("\"Poland\",\"POL\",\"GDP\",\"NY\"");
    for i in 0..70 {
        row.push_str(&format!(",\"{}\"", i + 1));
    }
    let data = GDPData::new(&table(&[row.as_str()]));
    let series = data.get_all_gdp_data("Poland").unwrap();
    assert_eq!(series.len(), 64);
    assert_eq!(series[0], YearValue { year: 1960, value: 100 });
    assert_eq!(series[63], YearValue { year: 2023, value: 6_400 });
    assert_eq!(data.get_latest_gdp("Poland"), Some((2023, 6_400)));
}

#[test]
fn a_later_row_replaces_an_earlier_one_of_the_same_code() {
    let data = GDPData::new(&table(&[
        "\"Poland\",\"POL\",\"GDP\",\"NY\",\"1\"",
        "\"Polska\",\"POL\",\"GDP\",\"NY\",\"\",\"9\"",
    ]));
    assert_eq!(data.get_latest_gdp("Poland"), Some((1961, 900)));
    assert_eq!(data.get_latest_gdp("Polska"), Some((1961, 900)));
}

#[test]
fn names_are_split_at_every_comma() {
    let data = GDPData::new(&table(&["\"Bahamas, The\",\"BHS\",\"GDP\",\"NY\",\"5\",\"6\""]));
    // The row divides into name `Bahamas`, code ` The` and year cells from
    // the fifth cell on, which is `NY`.
    assert_eq!(data.get_latest_gdp("Bahamas"), Some((1962, 600)));
    assert_eq!(
        data.get_all_gdp_data("Bahamas"),
        Some(vec![YearValue { year: 1961, value: 500 }, YearValue { year: 1962, value: 600 }])
    );
}

#[test]
fn parse_amount_reads_exponents() {
    assert_eq!(parse_amount("1.5e3"), Some(150_000));
    assert_eq!(parse_amount("5.433E+11"), Some(54_330_000_000_000));
    assert_eq!(parse_amount("1E5"), Some(10_000_000));
    assert_eq!(parse_amount("1E+05"), Some(10_000_000));
    assert_eq!(parse_amount("-1.5E2"), Some(-15_000));
    assert_eq!(parse_amount("+.5e1"), Some(500));
    assert_eq!(parse_amount("12345e-2"), Some(12_345));
    assert_eq!(parse_amount("12345.678e-3"), Some(1_235));
    assert_eq!(parse_amount("2.03417190395364E+15"), Some(203_417_190_395_364_000));
    assert_eq!(parse_amount("7e0"), Some(700));
    assert_eq!(parse_amount("7e-0"), Some(700));
}

#[test]
fn parse_amount_rounds_small_numbers() {
    assert_eq!(parse_amount("1e-2"), Some(1));
    assert_eq!(parse_amount("1e-3"), Some(0));
    assert_eq!(parse_amount("5e-3"), Some(1));
    assert_eq!(parse_amount("4.9e-3"), Some(0));
    assert_eq!(parse_amount("9e-4"), Some(0));
    assert_eq!(parse_amount("-5e-3"), Some(-1));
    assert_eq!(parse_amount("1e-400"), Some(0));
    assert_eq!(parse_amount("1e-99999999999999999999999999999999999"), Some(0));
}

#[test]
fn parse_amount_with_exponents_at_the_limit() {
    assert_eq!(parse_amount("9.223372036854775807e16"), Some(i64::MAX));
    assert_eq!(parse_amount("9.223372036854775808e16"), None);
    assert_eq!(parse_amount("92233720368547758.07e0"), Some(i64::MAX));
    assert_eq!(parse_amount("1e17"), None);
    assert_eq!(parse_amount("1e16"), Some(1_000_000_000_000_000_000));
    assert_eq!(parse_amount("1e400"), None);
    assert_eq!(parse_amount("0e400"), Some(0));
    assert_eq!(parse_amount("0.00e99999999999999999999999999999999999"), Some(0));
    assert_eq!(parse_amount("1e99999999999999999999999999999999999"), None);
    assert_eq!(parse_amount("0.000000000000000000001e40"), None);
    assert_eq!(parse_amount("0.000000000000000000001e30"), Some(100_000_000_000));
}

#[test]
fn parse_amount_rejects_broken_exponents() {
    assert_eq!(parse_amount("e5"), None);
    assert_eq!(parse_amount("-e5"), None);
    assert_eq!(parse_amount(".e5"), None);
    assert_eq!(parse_amount("1e"), None);
    assert_eq!(parse_amount("1e+"), None);
    assert_eq!(parse_amount("1e-"), None);
    assert_eq!(parse_amount("1e5.0"), None);
    assert_eq!(parse_amount("1e5e5"), None);
    assert_eq!(parse_amount("1e 5"), None);
    assert_eq!(parse_amount("1e++5"), None);
    assert_eq!(parse_amount("1x5"), None);
}

#[test]
fn rows_may_hold_values_in_exponent_notation() {
    let data = GDPData::new(&table(&[
        "\"United States\",\"USA\",\"GDP\",\"NY\",\"5.433E+11\",\"5.633e11\",\"bad e\"",
    ]));
    assert_eq!(
        data.get_all_gdp_data("United States"),
        Some(vec![
            YearValue { year: 1960, value: 54_330_000_000_000 },
            YearValue { year: 1961, value: 56_330_000_000_000 },
        ])
    );
    assert_eq!(GDPData::format_gdp_value(54_330_000_000_000), "543.30 mld USD");
}
