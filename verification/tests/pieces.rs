use wtpn::date::{current_date, four_digit, two_digit, u32_dec, format_year};
use wtpn::music_pattern;
use wtpn::sort::sort_lines;
use wtpn::text::{split_dash_str, str_contains, str_eq, str_le, str_lt};

#[test]
fn pattern_rooted_at_home() {
    assert_eq!(music_pattern("/home/u"), "/home/u/music/*/*/01-*");
}

#[test]
fn current_date_in_calendar_range() {
    let t = current_date();
    assert!((1..=12).contains(&t.month));
    assert!((1..=31).contains(&t.day));
    assert!((-262143..=262142).contains(&t.year));
}

#[test]
fn decimal_forms() {
    assert_eq!(u32_dec(0), "0");
    assert_eq!(u32_dec(2026), "2026");
    assert_eq!(two_digit(7), "07");
    assert_eq!(two_digit(12), "12");
    assert_eq!(four_digit(7), "0007");
    assert_eq!(four_digit(2026), "2026");
    assert_eq!(four_digit(12345), "12345");
    assert_eq!(format_year(-43), "-0043");
}

#[test]
fn split_on_dashes() {
    assert_eq!(split_dash_str("2023-03-15"), vec!["2023", "03", "15"]);
    assert_eq!(split_dash_str("a--b"), vec!["a", "", "b"]);
    assert_eq!(split_dash_str(""), vec![""]);
    assert_eq!(split_dash_str("-x"), vec!["", "x"]);
}

#[test]
fn containment_is_literal() {
    assert!(str_contains("Hard Rock", "Rock"));
    assert!(str_contains("anything", ""));
    assert!(!str_contains("Rock", "rock"));
    assert!(!str_contains("Ro", "Rock"));
}

#[test]
fn lexicographic_order() {
    assert!(str_le("2019-05-05", "2020-03-03"));
    assert!(!str_le("b", "a"));
    assert!(str_le("abc", "abc"));
    assert!(str_lt("ab", "abc"));
    assert!(!str_lt("abc", "abc"));
    assert!(str_eq("same", "same"));
    assert!(!str_eq("same", "sane"));
}

#[test]
fn sorting_is_lexicographic() {
    let lines = vec![
        "2020-01-02 b".to_string(),
        "2019-12-31 z".to_string(),
        "2020-01-02 a".to_string(),
        "2019-12-31 z".to_string(),
    ];
    let sorted = sort_lines(lines);
    assert_eq!(
        sorted,
        vec![
            "2019-12-31 z".to_string(),
            "2019-12-31 z".to_string(),
            "2020-01-02 a".to_string(),
            "2020-01-02 b".to_string(),
        ]
    );
}
