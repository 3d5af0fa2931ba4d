//! The argument parser: turns the raw argument list into the six-slot
//! option record, or reports the flag whose value is missing, or asks
//! for the usage text.
use vstd::prelude::*;
use vstd::string::*;
use crate::text::{str_eq, str_has_char};

verus! {

/// The six option slots. An empty slot means "no constraint"; the two
/// value-less flags hold a non-empty marker when set.
pub struct OptionRecord {
    pub year: String,
    pub decade: String,
    pub month: String,
    pub original: String,
    pub today: String,
    pub genre: String,
}

/// The option record as six character sequences.
pub struct OptionsModel {
    pub year: Seq<char>,
    pub decade: Seq<char>,
    pub month: Seq<char>,
    pub original: Seq<char>,
    pub today: Seq<char>,
    pub genre: Seq<char>,
}

impl View for OptionRecord {
    type V = OptionsModel;

    open spec fn view(&self) -> OptionsModel {
        OptionsModel {
            year: self.year@,
            decade: self.decade@,
            month: self.month@,
            original: self.original@,
            today: self.today@,
            genre: self.genre@,
        }
    }
}

/// What parsing the arguments yields.
pub enum ParseResult {
    /// A help flag stood anywhere in the list.
    Help,
    /// A value-taking flag had no usable value; the flag itself is named.
    MissingValue(String),
    /// The filled option record.
    Parsed(OptionRecord),
}

/// `ParseResult`, at the spec level.
pub enum ParseModel {
    Help,
    MissingValue(Seq<char>),
    Parsed(OptionsModel),
}

impl View for ParseResult {
    type V = ParseModel;

    open spec fn view(&self) -> ParseModel {
        match self {
            ParseResult::Help => ParseModel::Help,
            ParseResult::MissingValue(f) => ParseModel::MissingValue(f@),
            ParseResult::Parsed(r) => ParseModel::Parsed(r@),
        }
    }
}

pub open spec fn empty_options() -> OptionsModel {
    OptionsModel {
        year: Seq::<char>::empty(),
        decade: Seq::<char>::empty(),
        month: Seq::<char>::empty(),
        original: Seq::<char>::empty(),
        today: Seq::<char>::empty(),
        genre: Seq::<char>::empty(),
    }
}

pub open spec fn is_help_arg(a: Seq<char>) -> bool {
    a == "-h"@ || a == "--help"@
}

pub open spec fn has_help(args: Seq<Seq<char>>) -> bool {
    exists|i: int| 0 <= i < args.len() && is_help_arg(#[trigger] args[i])
}

pub open spec fn is_year_flag(a: Seq<char>) -> bool {
    a == "-y"@ || a == "--year"@
}

pub open spec fn is_decade_flag(a: Seq<char>) -> bool {
    a == "-d"@ || a == "--decade"@
}

pub open spec fn is_month_flag(a: Seq<char>) -> bool {
    a == "-m"@ || a == "--month"@
}

pub open spec fn is_genre_flag(a: Seq<char>) -> bool {
    a == "-g"@ || a == "--genre"@
}

pub open spec fn is_original_flag(a: Seq<char>) -> bool {
    a == "-o"@ || a == "--original"@
}

pub open spec fn is_today_flag(a: Seq<char>) -> bool {
    a == "-t"@ || a == "--today"@
}

/// A flag that consumes the following argument as its value.
pub open spec fn is_value_flag(a: Seq<char>) -> bool {
    is_year_flag(a) || is_decade_flag(a) || is_month_flag(a) || is_genre_flag(a)
}

/// A token that cannot serve as an option value: empty, or holding a
/// dash anywhere (so no flag-looking token is swallowed as a value).
pub open spec fn bad_value(v: Seq<char>) -> bool {
    v.len() == 0 || v.contains('-')
}

/// A value-taking flag at position `i` that is last or followed by an
/// unusable token.
pub open spec fn value_missing_at(args: Seq<Seq<char>>, i: int) -> bool {
    is_value_flag(args[i]) && (i == args.len() - 1 || bad_value(args[i + 1]))
}

/// One slot of the record replaced.
pub open spec fn set_slot(acc: OptionsModel, a: Seq<char>, v: Seq<char>) -> OptionsModel {
    if is_year_flag(a) {
        OptionsModel { year: v, ..acc }
    } else if is_decade_flag(a) {
        OptionsModel { decade: v, ..acc }
    } else if is_month_flag(a) {
        OptionsModel { month: v, ..acc }
    } else {
        OptionsModel { genre: v, ..acc }
    }
}

/// One pass over the arguments from position `i`, the slots gathered so
/// far in `acc`: every argument is looked at in order, a recognized flag
/// fills its slot (a later occurrence overwrites an earlier one), an
/// unrecognized argument is ignored, and the walk stops at the first
/// value-taking flag whose value is missing.
pub open spec fn parse_from(args: Seq<Seq<char>>, i: int, acc: OptionsModel) -> ParseModel
    decreases args.len() - i,
{
    if i < 0 || i >= args.len() {
        ParseModel::Parsed(acc)
    } else {
        let a = args[i];
        if is_value_flag(a) {
            if i == args.len() - 1 || bad_value(args[i + 1]) {
                ParseModel::MissingValue(a)
            } else {
                parse_from(args, i + 1, set_slot(acc, a, args[i + 1]))
            }
        } else if is_original_flag(a) {
            parse_from(args, i + 1, OptionsModel { original: "1"@, ..acc })
        } else if is_today_flag(a) {
            parse_from(args, i + 1, OptionsModel { today: "1"@, ..acc })
        } else {
            parse_from(args, i + 1, acc)
        }
    }
}

/// What the parser returns for an argument list: the usage text wins
/// over everything, then the walk over the list.
pub open spec fn parse_model(args: Seq<Seq<char>>) -> ParseModel {
    if has_help(args) {
        ParseModel::Help
    } else {
        parse_from(args, 0, empty_options())
    }
}

/// The value for the flag at `key`, or nothing when it is missing.
pub fn get_arg_value(args: &Vec<String>, key: usize) -> (r: Option<String>)
    requires
        key < args@.len(),
    ensures
        match r {
            Some(v) => key + 1 < args@.len() && !bad_value(args@[key + 1 as int]@) && v@ == args@[
                key + 1 as int
            ]@,
            None => key == args@.len() - 1 || bad_value(args@[key + 1 as int]@),
        },
{
    if key == args.len() - 1 {
        return None;
    }
    let value = &args[key + 1];
    if value.as_str().unicode_len() == 0 || str_has_char(value.as_str(), '-') {
        return None;
    }
    Some(value.clone())
}

/// Parse the raw argument list into the option record.
pub fn parse_args(args: &Vec<String>) -> (r: ParseResult)
    ensures
        r@ == parse_model(args.deep_view()),
{
    let ghost dv = args.deep_view();
    let mut i: usize = 0;
    while i < args.len()
        invariant
            dv == args.deep_view(),
            i <= dv.len(),
            dv.len() == args@.len(),
            forall|j: int| 0 <= j < i ==> !is_help_arg(#[trigger] dv[j]),
        decreases dv.len() - i,
    {
        let a = args[i].as_str();
        if str_eq(a, "-h") || str_eq(a, "--help") {
            proof {
                assert(is_help_arg(dv[i as int]));
            }
            return ParseResult::Help;
        }
        i = i + 1;
    }
    proof {
        assert(!has_help(dv));
    }
    let mut acc = OptionRecord {
        year: String::new(),
        decade: String::new(),
        month: String::new(),
        original: String::new(),
        today: String::new(),
        genre: String::new(),
    };
    let mut i: usize = 0;
    while i < args.len()
        invariant
            dv == args.deep_view(),
            i <= dv.len(),
            dv.len() == args@.len(),
            !has_help(dv),
            parse_from(dv, 0, empty_options()) == parse_from(dv, i as int, acc@),
        decreases dv.len() - i,
    {
        let a = args[i].as_str();
        let value_flag = str_eq(a, "-y") || str_eq(a, "--year") || str_eq(a, "-d") || str_eq(
            a,
            "--decade",
        ) || str_eq(a, "-m") || str_eq(a, "--month") || str_eq(a, "-g") || str_eq(a, "--genre");
        if value_flag {
            match get_arg_value(args, i) {
                None => {
                    return ParseResult::MissingValue(args[i].clone());
                },
                Some(v) => {
                    if str_eq(a, "-y") || str_eq(a, "--year") {
                        acc.year = v;
                    } else if str_eq(a, "-d") || str_eq(a, "--decade") {
                        acc.decade = v;
                    } else if str_eq(a, "-m") || str_eq(a, "--month") {
                        acc.month = v;
                    } else {
                        acc.genre = v;
                    }
                },
            }
        } else if str_eq(a, "-o") || str_eq(a, "--original") {
            acc.original = String::from_str("1");
        } else if str_eq(a, "-t") || str_eq(a, "--today") {
            acc.today = String::from_str("1");
        }
        i = i + 1;
    }
    ParseResult::Parsed(acc)
}

/// Arguments in which nothing is recognized leave every slot empty.
pub open spec fn recognized(a: Seq<char>) -> bool {
    is_help_arg(a) || is_value_flag(a) || is_original_flag(a) || is_today_flag(a)
}

proof fn lemma_parse_from_unrecognized(args: Seq<Seq<char>>, i: int, acc: OptionsModel)
    requires
        forall|j: int| 0 <= j < args.len() ==> !recognized(#[trigger] args[j]),
    ensures
        parse_from(args, i, acc) == ParseModel::Parsed(acc),
    decreases args.len() - i,
{
    if 0 <= i < args.len() {
        lemma_parse_from_unrecognized(args, i + 1, acc);
    }
}

/// A list without a recognized flag parses to the all-empty record:
/// unrecognized arguments are ignored, and only recognized flags can
/// populate a slot.
pub proof fn lemma_unrecognized_ignored(args: Seq<Seq<char>>)
    requires
        forall|j: int| 0 <= j < args.len() ==> !recognized(#[trigger] args[j]),
    ensures
        parse_model(args) == ParseModel::Parsed(empty_options()),
{
    lemma_parse_from_unrecognized(args, 0, empty_options());
}

proof fn lemma_parse_from_slots(args: Seq<Seq<char>>, i: int, acc: OptionsModel)
    requires
        0 <= i <= args.len(),
        forall|k: int| i <= k < args.len() ==> !value_missing_at(args, k),
    ensures
        parse_from(args, i, acc) is Parsed,
        (parse_from(args, i, acc)->Parsed_0.year.len() != 0 <==> acc.year.len() != 0 || exists|
            j: int,
        | i <= j < args.len() && is_year_flag(#[trigger] args[j])),
        (parse_from(args, i, acc)->Parsed_0.decade.len() != 0 <==> acc.decade.len() != 0
            || exists|j: int| i <= j < args.len() && is_decade_flag(#[trigger] args[j])),
        (parse_from(args, i, acc)->Parsed_0.month.len() != 0 <==> acc.month.len() != 0 || exists|
            j: int,
        | i <= j < args.len() && is_month_flag(#[trigger] args[j])),
        (parse_from(args, i, acc)->Parsed_0.genre.len() != 0 <==> acc.genre.len() != 0 || exists|
            j: int,
        | i <= j < args.len() && is_genre_flag(#[trigger] args[j])),
        (parse_from(args, i, acc)->Parsed_0.original.len() != 0 <==> acc.original.len() != 0
            || exists|j: int| i <= j < args.len() && is_original_flag(#[trigger] args[j])),
        (parse_from(args, i, acc)->Parsed_0.today.len() != 0 <==> acc.today.len() != 0 || exists|
            j: int,
        | i <= j < args.len() && is_today_flag(#[trigger] args[j])),
    decreases args.len() - i,
{
    reveal_strlit("1");
    reveal_strlit("-y");
    reveal_strlit("--year");
    reveal_strlit("-d");
    reveal_strlit("--decade");
    reveal_strlit("-m");
    reveal_strlit("--month");
    reveal_strlit("-g");
    reveal_strlit("--genre");
    reveal_strlit("-o");
    reveal_strlit("--original");
    reveal_strlit("-t");
    reveal_strlit("--today");
    assert("-y"@.len() == 2 && "-y"@[1] == 'y');
    assert("-d"@.len() == 2 && "-d"@[1] == 'd');
    assert("-m"@.len() == 2 && "-m"@[1] == 'm');
    assert("-g"@.len() == 2 && "-g"@[1] == 'g');
    assert("-o"@.len() == 2 && "-o"@[1] == 'o');
    assert("-t"@.len() == 2 && "-t"@[1] == 't');
    assert("--year"@.len() == 6 && "--year"@[2] == 'y');
    assert("--decade"@.len() == 8 && "--decade"@[2] == 'd');
    assert("--month"@.len() == 7 && "--month"@[2] == 'm');
    assert("--genre"@.len() == 7 && "--genre"@[2] == 'g');
    assert("--original"@.len() == 10 && "--original"@[2] == 'o');
    assert("--today"@.len() == 7 && "--today"@[2] == 't');
    if i < args.len() {
        assert(!value_missing_at(args, i));
        let a = args[i];
        if is_value_flag(a) {
            let v = args[i + 1];
            assert(v.len() != 0);
            let acc2 = set_slot(acc, a, v);
            lemma_parse_from_slots(args, i + 1, acc2);
            assert(parse_from(args, i, acc) == parse_from(args, i + 1, acc2));
            if is_year_flag(a) {
                assert(!is_decade_flag(a));
                assert(!is_month_flag(a));
                assert(!is_genre_flag(a));
                assert(acc2.year.len() != 0);
            } else if is_decade_flag(a) {
                assert(!is_year_flag(a));
                assert(!is_month_flag(a));
                assert(!is_genre_flag(a));
                assert(acc2.decade.len() != 0);
            } else if is_month_flag(a) {
                assert(!is_year_flag(a));
                assert(!is_decade_flag(a));
                assert(!is_genre_flag(a));
                assert(acc2.month.len() != 0);
            } else {
                assert(is_genre_flag(a));
                assert(!is_year_flag(a));
                assert(!is_decade_flag(a));
                assert(!is_month_flag(a));
                assert(acc2.genre.len() != 0);
            }
            assert(!is_original_flag(a));
            assert(!is_today_flag(a));
        } else if is_original_flag(a) {
            lemma_parse_from_slots(args, i + 1, OptionsModel { original: "1"@, ..acc });
        } else if is_today_flag(a) {
            lemma_parse_from_slots(args, i + 1, OptionsModel { today: "1"@, ..acc });
        } else {
            lemma_parse_from_slots(args, i + 1, acc);
        }
    }
}

/// On a list without a help flag and without a missing value, parsing
/// succeeds, and each slot of the record is populated exactly when its
/// flag occurs in the list: option values are never empty, the two
/// value-less flags leave their non-empty marker, and every other slot
/// stays empty.
pub proof fn lemma_exactly_recognized_populated(args: Seq<Seq<char>>)
    requires
        !has_help(args),
        forall|k: int| 0 <= k < args.len() ==> !value_missing_at(args, k),
    ensures
        parse_model(args) is Parsed,
        ({
            let m = parse_model(args)->Parsed_0;
            &&& (m.year.len() != 0 <==> exists|j: int|
                0 <= j < args.len() && is_year_flag(#[trigger] args[j]))
            &&& (m.decade.len() != 0 <==> exists|j: int|
                0 <= j < args.len() && is_decade_flag(#[trigger] args[j]))
            &&& (m.month.len() != 0 <==> exists|j: int|
                0 <= j < args.len() && is_month_flag(#[trigger] args[j]))
            &&& (m.genre.len() != 0 <==> exists|j: int|
                0 <= j < args.len() && is_genre_flag(#[trigger] args[j]))
            &&& (m.original.len() != 0 <==> exists|j: int|
                0 <= j < args.len() && is_original_flag(#[trigger] args[j]))
            &&& (m.today.len() != 0 <==> exists|j: int|
                0 <= j < args.len() && is_today_flag(#[trigger] args[j]))
        }),
{
    lemma_parse_from_slots(args, 0, empty_options());
}

proof fn lemma_parse_from_missing(args: Seq<Seq<char>>, i: int, acc: OptionsModel, j: int)
    requires
        0 <= i <= j < args.len(),
        value_missing_at(args, j),
        forall|k: int| i <= k < j ==> !value_missing_at(args, k),
    ensures
        parse_from(args, i, acc) == ParseModel::MissingValue(args[j]),
    decreases j - i,
{
    if i < j {
        let a = args[i];
        assert(!value_missing_at(args, i));
        if is_value_flag(a) {
            lemma_parse_from_missing(args, i + 1, set_slot(acc, a, args[i + 1]), j);
        } else if is_original_flag(a) {
            lemma_parse_from_missing(args, i + 1, OptionsModel { original: "1"@, ..acc }, j);
        } else if is_today_flag(a) {
            lemma_parse_from_missing(args, i + 1, OptionsModel { today: "1"@, ..acc }, j);
        } else {
            lemma_parse_from_missing(args, i + 1, acc, j);
        }
    }
}

/// Without a help flag, the parser stops at the first value-taking flag
/// whose value is missing — last in the list, or followed by a token
/// holding a dash — and names that flag.
pub proof fn lemma_missing_value_named(args: Seq<Seq<char>>, j: int)
    requires
        !has_help(args),
        0 <= j < args.len(),
        value_missing_at(args, j),
        forall|k: int| 0 <= k < j ==> !value_missing_at(args, k),
    ensures
        parse_model(args) == ParseModel::MissingValue(args[j]),
{
    lemma_parse_from_missing(args, 0, empty_options(), j);
}

} // verus!
