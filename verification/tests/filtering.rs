use wtpn::date::Today;
use wtpn::filter::{evaluate_track, select_lines, TrackMeta, TrackVerdict};
use wtpn::opts::OptionRecord;

fn empty_opts() -> OptionRecord {
    OptionRecord {
        year: String::new(),
        decade: String::new(),
        month: String::new(),
        original: String::new(),
        today: String::new(),
        genre: String::new(),
    }
}

fn track(date: &str, artist: &str, album: &str, genre: &str) -> TrackMeta {
    TrackMeta {
        date: date.to_string(),
        artist: artist.to_string(),
        album: album.to_string(),
        genre: genre.to_string(),
    }
}

fn expect_line(v: TrackVerdict) -> String {
    match v {
        TrackVerdict::Line(l) => l,
        TrackVerdict::Skip => panic!("expected a line, track was skipped"),
        TrackVerdict::MalformedDate => panic!("expected a line, date was malformed"),
    }
}

fn is_skip(v: TrackVerdict) -> bool {
    matches!(v, TrackVerdict::Skip)
}

#[test]
fn bucket_month_before_current() {
    // Parsed month "03" comes before the current month "04", so the year
    // is rewritten to the next-cycle bucket, the current year plus one.
    let t = Today { year: 2025, month: 4, day: 10 };
    let v = evaluate_track(&empty_opts(), &track("2023-03-15", "X", "Y", "Rock"), &t);
    assert_eq!(expect_line(v), "2026-03-15 X - Y");
}

#[test]
fn bucket_month_after_current() {
    // Parsed month "11" comes after the current month "04": next-cycle
    // bucket as well.
    let t = Today { year: 2025, month: 4, day: 10 };
    let v = evaluate_track(&empty_opts(), &track("2020-11-05", "X", "Y", ""), &t);
    assert_eq!(expect_line(v), "2026-11-05 X - Y");
}

#[test]
fn bucket_same_month_day_not_yet_passed() {
    // Equal month, day on or after today: this year's bucket.
    let t = Today { year: 2025, month: 6, day: 15 };
    let v = evaluate_track(&empty_opts(), &track("2020-06-15", "A", "B", ""), &t);
    assert_eq!(expect_line(v), "2025-06-15 A - B");
}

#[test]
fn bucket_same_month_day_passed() {
    // Equal month, day already past: next year's bucket.
    let t = Today { year: 2025, month: 6, day: 15 };
    let v = evaluate_track(&empty_opts(), &track("2020-06-14", "A", "B", ""), &t);
    assert_eq!(expect_line(v), "2026-06-14 A - B");
}

#[test]
fn original_mode_keeps_year() {
    let t = Today { year: 2025, month: 4, day: 10 };
    let mut opts = empty_opts();
    opts.original = "1".to_string();
    opts.year = "2023".to_string();
    let v = evaluate_track(&opts, &track("2023-03-15", "X", "Y", "Rock"), &t);
    assert_eq!(expect_line(v), "2023-03-15 X - Y");
}

#[test]
fn year_filter_mismatch_skips() {
    let t = Today { year: 2025, month: 4, day: 10 };
    let mut opts = empty_opts();
    opts.year = "2022".to_string();
    assert!(is_skip(evaluate_track(&opts, &track("2023-03-15", "X", "Y", ""), &t)));
}

#[test]
fn month_filter_exact_two_chars() {
    let t = Today { year: 2025, month: 4, day: 10 };
    let mut opts = empty_opts();
    opts.month = "05".to_string();
    assert!(is_skip(evaluate_track(&opts, &track("2023-04-01", "X", "Y", ""), &t)));
    assert!(is_skip(evaluate_track(&opts, &track("2023-5-01", "X", "Y", ""), &t)));
    let v = evaluate_track(&opts, &track("2023-05-01", "X", "Y", ""), &t);
    assert_eq!(expect_line(v), "2026-05-01 X - Y");
}

#[test]
fn decade_filter_compares_literal_year() {
    let t = Today { year: 2025, month: 4, day: 10 };
    let mut opts = empty_opts();
    opts.decade = "2020".to_string();
    assert!(is_skip(evaluate_track(&opts, &track("2023-03-15", "X", "Y", ""), &t)));
    opts.decade = "2023".to_string();
    let v = evaluate_track(&opts, &track("2023-03-15", "X", "Y", ""), &t);
    assert_eq!(expect_line(v), "2026-03-15 X - Y");
}

#[test]
fn genre_filter_substring() {
    let t = Today { year: 2025, month: 4, day: 10 };
    let mut opts = empty_opts();
    opts.genre = "Rock".to_string();
    let v = evaluate_track(&opts, &track("2023-03-15", "X", "Y", "Hard Rock"), &t);
    assert_eq!(expect_line(v), "2026-03-15 X - Y");
    assert!(is_skip(evaluate_track(&opts, &track("2023-03-15", "X", "Y", "Jazz"), &t)));
    assert!(is_skip(evaluate_track(&opts, &track("2023-03-15", "X", "Y", "hard rock"), &t)));
}

#[test]
fn today_only_includes_exact_date() {
    let t = Today { year: 2025, month: 6, day: 15 };
    let mut opts = empty_opts();
    opts.today = "1".to_string();
    // Rewritten to 2025-06-15, which is today.
    let v = evaluate_track(&opts, &track("2020-06-15", "A", "B", ""), &t);
    assert_eq!(expect_line(v), "2025-06-15 A - B");
    // Rewritten to 2026-06-14, which is not today.
    assert!(is_skip(evaluate_track(&opts, &track("2020-06-14", "A", "B", ""), &t)));
    // A different month is rewritten to 2026-01-01, not today either.
    assert!(is_skip(evaluate_track(&opts, &track("2020-01-01", "A", "B", ""), &t)));
}

#[test]
fn malformed_date_reported() {
    let t = Today { year: 2025, month: 4, day: 10 };
    let v = evaluate_track(&empty_opts(), &track("2023", "X", "Y", ""), &t);
    assert!(matches!(v, TrackVerdict::MalformedDate));
}

#[test]
fn select_lines_err_on_first_malformed() {
    let t = Today { year: 2025, month: 4, day: 10 };
    let tracks = vec![
        track("2023-03-15", "X", "Y", ""),
        track("bad", "X", "Y", ""),
        track("2023-04-01", "X", "Y", ""),
    ];
    assert_eq!(select_lines(&empty_opts(), &tracks, &t), Err(1));
}

#[test]
fn select_lines_sorted_output() {
    let t = Today { year: 2025, month: 4, day: 10 };
    let mut opts = empty_opts();
    opts.original = "1".to_string();
    let tracks = vec![
        track("2021-01-01", "B", "Later", ""),
        track("2019-05-05", "C", "Oldest", ""),
        track("2020-03-03", "A", "Middle", ""),
    ];
    let lines = select_lines(&opts, &tracks, &t).unwrap();
    assert_eq!(
        lines,
        vec![
            "2019-05-05 C - Oldest".to_string(),
            "2020-03-03 A - Middle".to_string(),
            "2021-01-01 B - Later".to_string(),
        ]
    );
}

#[test]
fn extra_date_parts_ignored() {
    let t = Today { year: 2025, month: 4, day: 10 };
    let mut opts = empty_opts();
    opts.original = "1".to_string();
    let v = evaluate_track(&opts, &track("2023-03-15-extra", "X", "Y", ""), &t);
    assert_eq!(expect_line(v), "2023-03-15 X - Y");
}
