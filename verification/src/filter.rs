//! The filter chain: split the recording date, apply the year, decade,
//! month and genre filters, rewrite the year when original-release mode
//! is off, apply the today-only filter, and format the surviving tracks.
use vstd::prelude::*;
use vstd::string::*;
use crate::date::{Today, bucket_year, bucket_year_string, today_seq, today_string};
use crate::opts::{OptionRecord, OptionsModel};
use crate::sort::{sorted_lex, sort_lines};
use crate::text::{contains_seq, split_dash, split_dash_str, str_contains, str_eq};

verus! {

/// The tag fields read from one audio file.
pub struct TrackMeta {
    pub date: String,
    pub artist: String,
    pub album: String,
    pub genre: String,
}

/// `TrackMeta` as character sequences.
pub struct TrackModel {
    pub date: Seq<char>,
    pub artist: Seq<char>,
    pub album: Seq<char>,
    pub genre: Seq<char>,
}

impl View for TrackMeta {
    type V = TrackModel;

    open spec fn view(&self) -> TrackModel {
        TrackModel { date: self.date@, artist: self.artist@, album: self.album@, genre: self.genre@ }
    }
}

impl DeepView for TrackMeta {
    type V = TrackModel;

    open spec fn deep_view(&self) -> TrackModel {
        self.view()
    }
}

/// What the filter chain decides for one track.
pub enum TrackVerdict {
    /// The formatted line `date artist - album`.
    Line(String),
    /// Some filter rejected the track.
    Skip,
    /// The recording date does not split into year, month and day.
    MalformedDate,
}

/// `TrackVerdict`, at the spec level.
pub enum VerdictModel {
    Line(Seq<char>),
    Skip,
    MalformedDate,
}

impl View for TrackVerdict {
    type V = VerdictModel;

    open spec fn view(&self) -> VerdictModel {
        match self {
            TrackVerdict::Line(l) => VerdictModel::Line(l@),
            TrackVerdict::Skip => VerdictModel::Skip,
            TrackVerdict::MalformedDate => VerdictModel::MalformedDate,
        }
    }
}

/// An empty filter slot constrains nothing; a set one must match its
/// date part exactly, and the genre filter must occur in the genre tag.
/// The decade filter compares against the literal year part, not a
/// decade bucket.
pub open spec fn passes_filters(opts: OptionsModel, parts: Seq<Seq<char>>, genre: Seq<char>) -> bool
    recommends
        parts.len() >= 3,
{
    &&& (opts.year.len() == 0 || opts.year == parts[0])
    &&& (opts.decade.len() == 0 || opts.decade == parts[0])
    &&& (opts.month.len() == 0 || opts.month == parts[1])
    &&& (opts.genre.len() == 0 || contains_seq(genre, opts.genre))
}

/// The date a surviving track is shown under: its own parts, with the
/// year replaced by the bucket year unless original-release mode is on.
pub open spec fn shown_date(opts: OptionsModel, parts: Seq<Seq<char>>, t: Today) -> Seq<char>
    recommends
        parts.len() >= 3,
{
    let y = if opts.original.len() == 0 {
        bucket_year(t, parts[1], parts[2])
    } else {
        parts[0]
    };
    y + seq!['-'] + parts[1] + seq!['-'] + parts[2]
}

/// The printed line for a track shown under `date`.
pub open spec fn line_of(date: Seq<char>, artist: Seq<char>, album: Seq<char>) -> Seq<char> {
    date + seq![' '] + artist + seq![' ', '-', ' '] + album
}

/// The whole chain for one track: a malformed date is its own outcome, a
/// failing filter skips the track, and the today-only mode admits only
/// the line whose shown date is today's.
pub open spec fn verdict_model(opts: OptionsModel, track: TrackModel, t: Today) -> VerdictModel {
    let parts = split_dash(track.date);
    if parts.len() < 3 {
        VerdictModel::MalformedDate
    } else if !passes_filters(opts, parts, track.genre) {
        VerdictModel::Skip
    } else {
        let d = shown_date(opts, parts, t);
        if opts.today.len() != 0 && d != today_seq(t) {
            VerdictModel::Skip
        } else {
            VerdictModel::Line(line_of(d, track.artist, track.album))
        }
    }
}

/// Decide one track.
pub fn evaluate_track(opts: &OptionRecord, track: &TrackMeta, t: &Today) -> (v: TrackVerdict)
    requires
        t.wf(),
    ensures
        v@ == verdict_model(opts@, track@, *t),
{
    let parts = split_dash_str(track.date.as_str());
    if parts.len() < 3 {
        return TrackVerdict::MalformedDate;
    }
    if opts.year.as_str().unicode_len() != 0 && !str_eq(opts.year.as_str(), parts[0].as_str()) {
        return TrackVerdict::Skip;
    }
    if opts.decade.as_str().unicode_len() != 0 && !str_eq(opts.decade.as_str(), parts[0].as_str()) {
        return TrackVerdict::Skip;
    }
    if opts.month.as_str().unicode_len() != 0 && !str_eq(opts.month.as_str(), parts[1].as_str()) {
        return TrackVerdict::Skip;
    }
    if opts.genre.as_str().unicode_len() != 0 && !str_contains(
        track.genre.as_str(),
        opts.genre.as_str(),
    ) {
        return TrackVerdict::Skip;
    }
    let year = if opts.original.as_str().unicode_len() == 0 {
        bucket_year_string(t, parts[1].as_str(), parts[2].as_str())
    } else {
        parts[0].clone()
    };
    let mut date = year;
    date.append("-");
    date.append(parts[1].as_str());
    date.append("-");
    date.append(parts[2].as_str());
    proof {
        reveal_strlit("-");
        assert("-"@ =~= seq!['-']);
        assert(date@ == shown_date(opts@, parts.deep_view(), *t));
    }
    if opts.today.as_str().unicode_len() != 0 {
        let today = today_string(t);
        if !str_eq(date.as_str(), today.as_str()) {
            return TrackVerdict::Skip;
        }
    }
    let mut line = date;
    line.append(" ");
    line.append(track.artist.as_str());
    line.append(" - ");
    line.append(track.album.as_str());
    proof {
        reveal_strlit(" ");
        reveal_strlit(" - ");
        assert(" "@ =~= seq![' ']);
        assert(" - "@ =~= seq![' ', '-', ' ']);
        assert(line@ == line_of(
            shown_date(opts@, parts.deep_view(), *t),
            track.artist@,
            track.album@,
        ));
    }
    TrackVerdict::Line(line)
}

/// The lines of the tracks the chain admits, in scan order.
pub open spec fn lines_model(opts: OptionsModel, tracks: Seq<TrackModel>, t: Today) -> Seq<
    Seq<char>,
>
    decreases tracks.len(),
{
    if tracks.len() == 0 {
        Seq::<Seq<char>>::empty()
    } else {
        lines_model(opts, tracks.drop_last(), t) + (match verdict_model(
            opts,
            tracks.last(),
            t,
        ) {
            VerdictModel::Line(l) => seq![l],
            _ => Seq::<Seq<char>>::empty(),
        })
    }
}

/// Scan the tracks, decide each, and return the surviving lines sorted
/// lexicographically — or the index of the first track whose recording
/// date is malformed, on which the whole run fails.
pub fn select_lines(opts: &OptionRecord, tracks: &Vec<TrackMeta>, t: &Today) -> (r: Result<
    Vec<String>,
    usize,
>)
    requires
        t.wf(),
    ensures
        match r {
            Ok(lines) => {
                &&& forall|i: int|
                    0 <= i < tracks@.len() ==> !(verdict_model(opts@, #[trigger] tracks@[i]@, *t)
                        is MalformedDate)
                &&& sorted_lex(lines.deep_view())
                &&& lines.deep_view().to_multiset() == lines_model(
                    opts@,
                    tracks.deep_view(),
                    *t,
                ).to_multiset()
            },
            Err(i) => {
                &&& 0 <= i < tracks@.len()
                &&& verdict_model(opts@, tracks@[i as int]@, *t) is MalformedDate
                &&& forall|j: int|
                    0 <= j < i ==> !(verdict_model(opts@, #[trigger] tracks@[j]@, *t)
                        is MalformedDate)
            },
        },
{
    let ghost dv = tracks.deep_view();
    let mut lines: Vec<String> = Vec::new();
    let mut i: usize = 0;
    while i < tracks.len()
        invariant
            t.wf(),
            dv == tracks.deep_view(),
            dv.len() == tracks@.len(),
            i <= dv.len(),
            forall|j: int|
                0 <= j < i ==> !(verdict_model(opts@, #[trigger] tracks@[j]@, *t)
                    is MalformedDate),
            lines.deep_view() == lines_model(opts@, dv.take(i as int), *t),
        decreases dv.len() - i,
    {
        let ghost pre = lines.deep_view();
        match evaluate_track(opts, &tracks[i], t) {
            TrackVerdict::MalformedDate => {
                return Err(i);
            },
            TrackVerdict::Skip => {},
            TrackVerdict::Line(l) => {
                lines.push(l);
            },
        }
        proof {
            assert(dv.take(i + 1).drop_last() =~= dv.take(i as int));
            assert(dv.take(i + 1).last() == dv[i as int]);
            assert(dv[i as int] == tracks@[i as int]@);
            match verdict_model(opts@, dv[i as int], *t) {
                VerdictModel::Line(l) => {
                    assert(lines.deep_view() =~= pre.push(l));
                    assert(lines.deep_view() =~= lines_model(opts@, dv.take(i + 1), *t));
                },
                _ => {
                    assert(lines.deep_view() =~= lines_model(opts@, dv.take(i + 1), *t));
                },
            }
        }
        i = i + 1;
    }
    proof {
        assert(dv.take(dv.len() as int) =~= dv);
    }
    Ok(sort_lines(lines))
}

/// With today-only mode on, a track is shown only when its shown date is
/// exactly today's, and a track whose shown date is today's is shown
/// whenever the other filters admit it.
pub proof fn lemma_today_only(opts: OptionsModel, track: TrackModel, t: Today)
    requires
        opts.today.len() != 0,
    ensures
        (verdict_model(opts, track, t) is Line) ==> shown_date(opts, split_dash(track.date), t)
            == today_seq(t),
        ({
            &&& split_dash(track.date).len() >= 3
            &&& passes_filters(opts, split_dash(track.date), track.genre)
            &&& shown_date(opts, split_dash(track.date), t) == today_seq(t)
        }) ==> verdict_model(opts, track, t) == VerdictModel::Line(
            line_of(today_seq(t), track.artist, track.album),
        ),
{
}

/// With a genre filter set, a track is shown only if its genre tag holds
/// the filter as a literal, case-sensitive substring.
pub proof fn lemma_genre_substring(opts: OptionsModel, track: TrackModel, t: Today)
    requires
        opts.genre.len() != 0,
    ensures
        (verdict_model(opts, track, t) is Line) ==> contains_seq(track.genre, opts.genre),
{
}

} // verus!
