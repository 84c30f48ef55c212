use geo_explorer::text::{
    canonical_key, chars_of, contains_text, find_text, key_is_stable, lower_text, same_text,
    split_line, trim_char,
};

#[test]
fn canonical_key_lowercases_and_reshapes() {
    assert_eq!(canonical_key("North America"), "north_america");
    assert_eq!(canonical_key("Congo (Kinshasa)"), "congo_kinshasa");
    assert_eq!(canonical_key("POLAND"), "poland");
    assert_eq!(canonical_key("world"), "world");
    assert_eq!(canonical_key(""), "");
}

#[test]
fn canonical_key_handles_letters_outside_ascii() {
    assert_eq!(canonical_key("Åland Islands"), "åland_islands");
    assert_eq!(canonical_key("São Tomé (and) Príncipe"), "são_tomé_and_príncipe");
}

#[test]
fn canonical_key_is_idempotent_on_samples() {
    let samples = [
        "North America",
        "Congo (Kinshasa)",
        "Åland Islands",
        "a  b",
        "((x))",
        "ΟΔΟΣ",
        "İstanbul",
        "",
    ];
    for name in samples {
        let once = canonical_key(name);
        let twice = canonical_key(&once);
        assert_eq!(once, twice);
    }
}

#[test]
fn canonical_key_keeps_underscores_and_other_marks() {
    assert_eq!(canonical_key("a_b-c.d"), "a_b-c.d");
    assert_eq!(canonical_key(" (  ) "), "____");
}

#[test]
fn chars_of_gives_the_characters_in_order() {
    assert_eq!(chars_of("héllo"), vec!['h', 'é', 'l', 'l', 'o']);
    assert_eq!(chars_of(""), Vec::new());
}

#[test]
fn same_text_compares_characters() {
    assert!(same_text("abc", "abc"));
    assert!(!same_text("abc", "abd"));
    assert!(!same_text("abc", "ab"));
    assert!(same_text("", ""));
}

#[test]
fn find_text_gives_the_first_position() {
    let names = vec!["b".to_string(), "a".to_string(), "b".to_string()];
    assert_eq!(find_text(&names, "b"), Some(0));
    assert_eq!(find_text(&names, "a"), Some(1));
    assert_eq!(find_text(&names, "c"), None);
    assert_eq!(find_text(&Vec::new(), "a"), None);
}

#[test]
fn contains_text_finds_contiguous_parts() {
    assert!(contains_text("United States of America", "United States"));
    assert!(contains_text("United States of America", "America"));
    assert!(contains_text("abc", ""));
    assert!(contains_text("", ""));
    assert!(!contains_text("abc", "ac"));
    assert!(!contains_text("ab", "abc"));
    assert!(contains_text("aab", "ab"));
}

#[test]
fn split_line_divides_at_every_separator() {
    assert_eq!(split_line("a,b,c", ','), vec!["a", "b", "c"]);
    assert_eq!(split_line("", ','), vec![""]);
    assert_eq!(split_line(",", ','), vec!["", ""]);
    assert_eq!(split_line("a,,b,", ','), vec!["a", "", "b", ""]);
    assert_eq!(split_line("no separator", ','), vec!["no separator"]);
}

#[test]
fn trim_char_strips_both_ends_only() {
    assert_eq!(trim_char("\"Poland\"", '"'), "Poland");
    assert_eq!(trim_char("\"\"a\"b\"\"", '"'), "a\"b");
    assert_eq!(trim_char("\"\"\"", '"'), "");
    assert_eq!(trim_char("plain", '"'), "plain");
    assert_eq!(trim_char("", '"'), "");
}

#[test]
fn lower_text_turns_capitals_into_small_letters() {
    assert_eq!(lower_text("Hello, World! 123"), "hello, world! 123");
    assert_eq!(lower_text("@AZ[`az{"), "@az[`az{");
    assert_eq!(lower_text(""), "");
    assert_eq!(lower_text("ŁÓDŹ"), "łódź");
    assert_eq!(lower_text("Łódź AND Back"), "łódź and back");
}

#[test]
fn lower_text_agrees_with_the_standard_library() {
    let mut every_ascii = String::new();
    for code in 0u8..128 {
        every_ascii.push(code as char);
    }
    assert_eq!(lower_text(&every_ascii), every_ascii.to_lowercase());
    for sample in ["North America", "ΟΔΟΣ", "İstanbul", "Straße", "ǅ", "K"] {
        assert_eq!(lower_text(sample), sample.to_lowercase());
    }
}

#[test]
fn canonical_key_agrees_with_the_rule_on_samples() {
    let mut every_ascii = String::new();
    for code in 0u8..128 {
        every_ascii.push(code as char);
    }
    for sample in [every_ascii.as_str(), "Congo (Kinshasa)", "Åland (Islands)", "A B(C)D"] {
        let expected = sample.to_lowercase().replace(' ', "_").replace(['(', ')'], "");
        assert_eq!(canonical_key(sample), expected);
    }
}

#[test]
fn keys_of_the_samples_are_stable() {
    for name in ["North America", "Congo (Kinshasa)", "Åland Islands", "ΟΔΟΣ", "İstanbul", "Straße", ""] {
        assert!(key_is_stable(name));
        assert_eq!(canonical_key(&canonical_key(name)), canonical_key(name));
    }
}
