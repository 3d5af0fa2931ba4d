use wtpn::opts::{parse_args, OptionRecord, ParseResult};

fn strings(args: &[&str]) -> Vec<String> {
    args.iter().map(|a| a.to_string()).collect()
}

fn expect_parsed(r: ParseResult) -> OptionRecord {
    match r {
        ParseResult::Parsed(rec) => rec,
        ParseResult::Help => panic!("expected a parsed record, got the help request"),
        ParseResult::MissingValue(f) => panic!("expected a parsed record, got missing value for {}", f),
    }
}

fn expect_missing(r: ParseResult) -> String {
    match r {
        ParseResult::MissingValue(f) => f,
        _ => panic!("expected a missing-value error"),
    }
}

#[test]
fn parse_year_and_genre() {
    let rec = expect_parsed(parse_args(&strings(&["wtpn", "-y", "2023", "-g", "Rock"])));
    assert_eq!(rec.year, "2023");
    assert_eq!(rec.genre, "Rock");
    assert_eq!(rec.decade, "");
    assert_eq!(rec.month, "");
    assert_eq!(rec.original, "");
    assert_eq!(rec.today, "");
}

#[test]
fn parse_long_flags() {
    let rec = expect_parsed(parse_args(&strings(&["wtpn", "--month", "05", "--original", "--today"])));
    assert_eq!(rec.month, "05");
    assert_eq!(rec.original, "1");
    assert_eq!(rec.today, "1");
    assert_eq!(rec.year, "");
    assert_eq!(rec.decade, "");
    assert_eq!(rec.genre, "");
}

#[test]
fn parse_unrecognized_ignored() {
    let rec = expect_parsed(parse_args(&strings(&["wtpn", "something", "else"])));
    assert_eq!(rec.year, "");
    assert_eq!(rec.decade, "");
    assert_eq!(rec.month, "");
    assert_eq!(rec.original, "");
    assert_eq!(rec.today, "");
    assert_eq!(rec.genre, "");
}

#[test]
fn parse_missing_value_at_end() {
    let flag = expect_missing(parse_args(&strings(&["wtpn", "-y"])));
    assert_eq!(flag, "-y");
}

#[test]
fn parse_missing_value_flag_follows() {
    let flag = expect_missing(parse_args(&strings(&["wtpn", "--month", "-5"])));
    assert_eq!(flag, "--month");
}

#[test]
fn parse_value_with_dash_rejected() {
    let flag = expect_missing(parse_args(&strings(&["wtpn", "-g", "Hip-Hop"])));
    assert_eq!(flag, "-g");
}

#[test]
fn parse_first_missing_named() {
    let flag = expect_missing(parse_args(&strings(&["wtpn", "-y", "2023", "-d", "-m"])));
    assert_eq!(flag, "-d");
}

#[test]
fn parse_help_short_circuits() {
    assert!(matches!(parse_args(&strings(&["wtpn", "-y", "-h"])), ParseResult::Help));
    assert!(matches!(parse_args(&strings(&["wtpn", "--help"])), ParseResult::Help));
}

#[test]
fn arg_value_is_following_token() {
    let args = strings(&["wtpn", "-y", "2023"]);
    assert_eq!(wtpn::opts::get_arg_value(&args, 1), Some("2023".to_string()));
    assert_eq!(wtpn::opts::get_arg_value(&args, 2), None);
}

#[test]
fn parse_last_occurrence_wins() {
    let rec = expect_parsed(parse_args(&strings(&["wtpn", "-y", "1999", "--year", "2001"])));
    assert_eq!(rec.year, "2001");
}
