//! Today's calendar date, decimal formatting of its parts, and the
//! year-bucket rule that rewrites a track's year when original-release
//! mode is off.
use vstd::prelude::*;
use vstd::string::*;
use crate::text::{lex_lt, str_lt, str_eq};

verus! {

/// The calendar date the filters compare against.
pub struct Today {
    pub year: i32,
    pub month: u32,
    pub day: u32,
}

impl Today {
    /// A date chrono can produce: its years stay within the range of
    /// `chrono::NaiveDate`, so the year after this one exists too.
    pub open spec fn wf(self) -> bool {
        &&& -262143 <= self.year <= 262142
        &&& 1 <= self.month <= 12
        &&& 1 <= self.day <= 31
    }
}

/// Relies on `chrono::Local::now` and the `chrono::Datelike` accessors
/// `year`, `month` and `day`: `month` ranges over 1..=12, `day` over
/// 1..=31, and every chrono date's year lies between the years of
/// `NaiveDate::MIN` and `NaiveDate::MAX`, -262143 and 262142.
#[verifier::external_body]
fn now_year_month_day() -> (r: (i32, u32, u32))
    ensures
        -262143 <= r.0 <= 262142,
        1 <= r.1 <= 12,
        1 <= r.2 <= 31,
{
    let now = chrono::Local::now();
    (chrono::Datelike::year(&now), chrono::Datelike::month(&now), chrono::Datelike::day(&now))
}

/// The machine's current local date.
pub fn current_date() -> (t: Today)
    ensures
        t.wf(),
{
    let (year, month, day) = now_year_month_day();
    Today { year, month, day }
}

/// The character for one decimal digit.
pub open spec fn digit_char(d: int) -> char {
    if d == 0 {
        '0'
    } else if d == 1 {
        '1'
    } else if d == 2 {
        '2'
    } else if d == 3 {
        '3'
    } else if d == 4 {
        '4'
    } else if d == 5 {
        '5'
    } else if d == 6 {
        '6'
    } else if d == 7 {
        '7'
    } else if d == 8 {
        '8'
    } else {
        '9'
    }
}

/// The decimal digits of `n`, most significant first, no leading zeros.
pub open spec fn dec_rep(n: nat) -> Seq<char>
    decreases n,
{
    if n < 10 {
        seq![digit_char(n as int)]
    } else {
        dec_rep(n / 10).push(digit_char((n % 10) as int))
    }
}

/// `k` copies of `'0'`.
pub open spec fn zeros(k: nat) -> Seq<char>
    decreases k,
{
    if k == 0 {
        Seq::<char>::empty()
    } else {
        zeros((k - 1) as nat).push('0')
    }
}

/// `s` left-padded with zeros to at least `w` characters.
pub open spec fn zero_pad(s: Seq<char>, w: nat) -> Seq<char> {
    if s.len() >= w {
        s
    } else {
        zeros((w - s.len()) as nat) + s
    }
}

/// A one-digit string slice.
fn digit_str(d: u32) -> (r: &'static str)
    requires
        d < 10,
    ensures
        r@ == seq![digit_char(d as int)],
{
    if d == 0 {
        proof {
            reveal_strlit("0");
        }
        "0"
    } else if d == 1 {
        proof {
            reveal_strlit("1");
        }
        "1"
    } else if d == 2 {
        proof {
            reveal_strlit("2");
        }
        "2"
    } else if d == 3 {
        proof {
            reveal_strlit("3");
        }
        "3"
    } else if d == 4 {
        proof {
            reveal_strlit("4");
        }
        "4"
    } else if d == 5 {
        proof {
            reveal_strlit("5");
        }
        "5"
    } else if d == 6 {
        proof {
            reveal_strlit("6");
        }
        "6"
    } else if d == 7 {
        proof {
            reveal_strlit("7");
        }
        "7"
    } else if d == 8 {
        proof {
            reveal_strlit("8");
        }
        "8"
    } else {
        proof {
            reveal_strlit("9");
        }
        "9"
    }
}

/// The decimal form of `n`.
pub fn u32_dec(n: u32) -> (r: String)
    ensures
        r@ == dec_rep(n as nat),
    decreases n,
{
    if n < 10 {
        digit_str(n).to_owned()
    } else {
        proof {
            assert(n / 10 < n) by (nonlinear_arith)
                requires
                    n >= 10,
            ;
        }
        let mut s = u32_dec(n / 10);
        s.append(digit_str(n % 10));
        proof {
            assert(dec_rep((n / 10) as nat) + seq![digit_char((n % 10) as int)] =~= dec_rep(
                (n / 10) as nat,
            ).push(digit_char((n % 10) as int)));
        }
        s
    }
}

/// `dec_rep` never yields the empty string.
pub proof fn lemma_dec_rep_len(n: nat)
    ensures
        dec_rep(n).len() >= 1,
        n < 10 ==> dec_rep(n).len() == 1,
        10 <= n < 100 ==> dec_rep(n).len() == 2,
    decreases n,
{
    if n >= 10 {
        lemma_dec_rep_len(n / 10);
        if n < 100 {
            assert(n / 10 < 10) by (nonlinear_arith)
                requires
                    n < 100,
            ;
        }
    }
}

/// The decimal form of `n`, zero-padded to at least two characters.
pub fn two_digit(n: u32) -> (r: String)
    requires
        n < 100,
    ensures
        r@ == zero_pad(dec_rep(n as nat), 2),
{
    proof {
        lemma_dec_rep_len(n as nat);
    }
    if n < 10 {
        let mut s = digit_str(0).to_owned();
        s.append(digit_str(n));
        proof {
            assert(zeros(0) =~= Seq::<char>::empty());
            assert(zeros(1) =~= seq!['0']);
            assert(seq!['0'] + seq![digit_char(n as int)] =~= zero_pad(dec_rep(n as nat), 2));
        }
        s
    } else {
        u32_dec(n)
    }
}

/// The decimal form of `n`, zero-padded to at least four characters.
pub fn four_digit(n: u32) -> (r: String)
    ensures
        r@ == zero_pad(dec_rep(n as nat), 4),
{
    let d = u32_dec(n);
    let dl = d.as_str().unicode_len();
    proof {
        lemma_dec_rep_len(n as nat);
        assert(zeros(0) =~= Seq::<char>::empty());
        assert(zeros(1) =~= seq!['0']);
        assert(zeros(2) =~= seq!['0', '0']);
        assert(zeros(3) =~= seq!['0', '0', '0']);
        reveal_strlit("0");
        reveal_strlit("00");
        reveal_strlit("000");
    }
    if dl >= 4 {
        d
    } else if dl == 3 {
        let mut s = String::from_str("0");
        s.append(d.as_str());
        proof {
            assert("0"@ =~= zeros(1));
        }
        s
    } else if dl == 2 {
        let mut s = String::from_str("00");
        s.append(d.as_str());
        proof {
            assert("00"@ =~= zeros(2));
        }
        s
    } else {
        let mut s = String::from_str("000");
        s.append(d.as_str());
        proof {
            assert("000"@ =~= zeros(3));
        }
        s
    }
}

/// The text of a year: its decimal value padded to four digits, with a
/// leading minus sign for years before year zero.
pub open spec fn year_seq(y: int) -> Seq<char> {
    if y >= 0 {
        zero_pad(dec_rep(y as nat), 4)
    } else {
        seq!['-'] + zero_pad(dec_rep((-y) as nat), 4)
    }
}

/// Format a year as four-digit text.
pub fn format_year(y: i32) -> (r: String)
    requires
        y > i32::MIN,
    ensures
        r@ == year_seq(y as int),
{
    if y >= 0 {
        four_digit(y as u32)
    } else {
        let m = (-y) as u32;
        let mut s = String::from_str("-");
        s.append(four_digit(m).as_str());
        proof {
            reveal_strlit("-");
            assert("-"@ =~= seq!['-']);
        }
        s
    }
}

/// The text of today's date, `YYYY-MM-DD`.
pub open spec fn today_seq(t: Today) -> Seq<char> {
    year_seq(t.year as int) + seq!['-'] + zero_pad(dec_rep(t.month as nat), 2) + seq!['-']
        + zero_pad(dec_rep(t.day as nat), 2)
}

/// Format today's date as `YYYY-MM-DD`.
pub fn today_string(t: &Today) -> (r: String)
    requires
        t.wf(),
    ensures
        r@ == today_seq(*t),
{
    let mut s = format_year(t.year);
    s.append("-");
    s.append(two_digit(t.month).as_str());
    s.append("-");
    s.append(two_digit(t.day).as_str());
    proof {
        reveal_strlit("-");
        assert("-"@ =~= seq!['-']);
    }
    s
}

/// The year a track is filed under when original-release mode is off.
/// A track whose month and day have not yet come round this cycle stays
/// in this year's bucket; one already past moves to next year's.
pub open spec fn bucket_year(t: Today, pm: Seq<char>, pd: Seq<char>) -> Seq<char> {
    let cm = zero_pad(dec_rep(t.month as nat), 2);
    let cd = zero_pad(dec_rep(t.day as nat), 2);
    if lex_lt(cm, pm) {
        year_seq(t.year + 1)
    } else if pm == cm {
        if lex_lt(pd, cd) {
            year_seq(t.year + 1)
        } else {
            year_seq(t.year as int)
        }
    } else {
        year_seq(t.year + 1)
    }
}

/// Compute the bucket year for the parsed month and day strings.
pub fn bucket_year_string(t: &Today, pm: &str, pd: &str) -> (r: String)
    requires
        t.wf(),
    ensures
        r@ == bucket_year(*t, pm@, pd@),
{
    let cm = two_digit(t.month);
    let cd = two_digit(t.day);
    if str_lt(cm.as_str(), pm) {
        format_year(t.year + 1)
    } else if str_eq(pm, cm.as_str()) {
        if str_lt(pd, cd.as_str()) {
            format_year(t.year + 1)
        } else {
            format_year(t.year)
        }
    } else {
        format_year(t.year + 1)
    }
}

} // verus!
