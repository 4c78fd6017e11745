//! What splitting a CUE sheet into tracks means: which tracks, where each one
//! starts and ends, what each output file is called and which tags it gets.
use vstd::prelude::*;

use crate::config::{Config, ConfigModel};
use crate::cue::{time_position, CueSheet, CueSheetModel, File, FileModel, Index, Time, Track, TrackModel};
use crate::errors::FFmpregError;
use crate::parser::text_of;
use crate::text::{
    chars_of, decimal, decimal2, lemma_decimal_value, decimal2_chars, decimal_chars, split_words, starts_with,
    string_of, trim, trim_chars, words, TrimKind,
};

verus! {

// ---------------------------------------------------------------------------
// File names
// ---------------------------------------------------------------------------

/// A character that a file name cannot hold.
pub open spec fn forbidden_char(c: char) -> bool {
    c == '/' || c == '\\' || c == ':' || c == '*' || c == '?' || c == '"' || c == '<' || c == '>'
        || c == '|'
}

/// A character as it may stand in a file name.
pub open spec fn sanitize_char(c: char) -> char {
    if forbidden_char(c) {
        '_'
    } else {
        c
    }
}

/// `s` with every forbidden character replaced by `_`.
pub open spec fn sanitize(s: Seq<char>) -> Seq<char> {
    Seq::new(s.len(), |i: int| sanitize_char(s[i]))
}

/// Replaces the characters that a file name cannot hold with `_`.
pub fn sanitize_filename(name: &str) -> (r: String)
    ensures
        r@ == sanitize(name@),
        r@.len() == name@.len(),
        forall|i: int| 0 <= i < name@.len() ==> #[trigger] r@[i] == (if name@[i] == '/' || name@[i] == '\\'
            || name@[i] == ':' || name@[i] == '*' || name@[i] == '?' || name@[i] == '"' || name@[i] == '<'
            || name@[i] == '>' || name@[i] == '|' {
            '_'
        } else {
            name@[i]
        }),
{
    proof {
        lemma_sanitize_replaces_exactly(name@);
    }
    let v = chars_of(name);
    let mut out: Vec<char> = Vec::new();
    let mut i: usize = 0;
    while i < v.len()
        invariant
            i <= v.len(),
            v@ == name@,
            out@ == sanitize(v@).take(i as int),
        decreases v.len() - i,
    {
        let c = v[i];
        let d = if c == '/' || c == '\\' || c == ':' || c == '*' || c == '?' || c == '"' || c == '<'
            || c == '>' || c == '|' {
            '_'
        } else {
            c
        };
        out.push(d);
        i = i + 1;
        assert(out@ =~= sanitize(v@).take(i as int));
    }
    assert(sanitize(v@).take(v.len() as int) =~= sanitize(v@));
    string_of(&out)
}

/// Sanitizing replaces exactly the nine characters `/ \ : * ? " < > |` with `_`, one
/// for one, and keeps every other character where it stands.
pub proof fn lemma_sanitize_replaces_exactly(s: Seq<char>)
    ensures
        sanitize(s).len() == s.len(),
        forall|i: int| 0 <= i < s.len() ==> #[trigger] sanitize(s)[i] == (if s[i] == '/' || s[i] == '\\'
            || s[i] == ':' || s[i] == '*' || s[i] == '?' || s[i] == '"' || s[i] == '<' || s[i] == '>'
            || s[i] == '|' {
            '_'
        } else {
            s[i]
        }),
{
}

/// Sanitizing keeps the length, leaves no forbidden character, and changes nothing
/// when applied a second time.
pub proof fn lemma_sanitize(s: Seq<char>)
    ensures
        sanitize(s).len() == s.len(),
        forall|i: int| 0 <= i < s.len() ==> !forbidden_char(#[trigger] sanitize(s)[i]),
        sanitize(sanitize(s)) == sanitize(s),
{
    assert(sanitize(sanitize(s)) =~= sanitize(s));
}


// ---------------------------------------------------------------------------
// Start and end of a track
// ---------------------------------------------------------------------------

/// The time of the first index numbered `n`.
pub open spec fn find_index(idxs: Seq<Index>, n: u8) -> Option<Time>
    decreases idxs.len(),
{
    if idxs.len() == 0 {
        None
    } else if idxs[0].number == n {
        Some(idxs[0].time)
    } else {
        find_index(idxs.drop_first(), n)
    }
}

fn find_index_exec(idxs: &Vec<Index>, n: u8) -> (r: Option<Time>)
    ensures
        r == find_index(idxs@, n),
{
    let mut i: usize = 0;
    assert(idxs@.skip(0) =~= idxs@);
    while i < idxs.len()
        invariant
            i <= idxs.len(),
            find_index(idxs@, n) == find_index(idxs@.skip(i as int), n),
        decreases idxs.len() - i,
    {
        assert(idxs@.skip(i as int)[0] == idxs@[i as int]);
        if idxs[i].number == n {
            return Some(idxs[i].time);
        }
        assert(idxs@.skip(i as int).drop_first() =~= idxs@.skip(i + 1));
        i = i + 1;
    }
    None
}

/// The place of the first track numbered above `n`.
pub open spec fn next_track_pos(tracks: Seq<TrackModel>, n: u8, from: nat) -> Option<nat>
    decreases tracks.len() - from,
{
    if from >= tracks.len() {
        None
    } else if tracks[from as int].number > n {
        Some(from)
    } else {
        next_track_pos(tracks, n, from + 1)
    }
}

/// Where the track numbered `n` ends: at index 1 of the first track numbered above
/// it, if that track has one.
pub open spec fn track_end(tracks: Seq<TrackModel>, n: u8) -> Option<Time> {
    match next_track_pos(tracks, n, 0) {
        Some(j) => find_index(tracks[j as int].indexes, 1),
        None => None,
    }
}

/// Tracks as models.
pub open spec fn tracks_view(v: Seq<Track>) -> Seq<TrackModel> {
    v.map_values(|t: Track| t@)
}

fn track_end_exec(tracks: &Vec<Track>, n: u8) -> (r: Option<Time>)
    ensures
        r == track_end(tracks_view(tracks@), n),
{
    let ghost tv = tracks_view(tracks@);
    let mut i: usize = 0;
    while i < tracks.len()
        invariant
            i <= tracks.len(),
            tv == tracks_view(tracks@),
            next_track_pos(tv, n, 0) == next_track_pos(tv, n, i as nat),
        decreases tracks.len() - i,
    {
        assert(tv[i as int] == tracks[i as int]@);
        if tracks[i].number > n {
            return find_index_exec(&tracks[i].indexes, 1);
        }
        i = i + 1;
    }
    None
}

/// Where the output of a track starts: index 0 when pregaps are included and the
/// track has one, index 1 otherwise.
pub open spec fn effective_start(t: TrackModel, start: Time, include_pregap: bool) -> Time {
    if include_pregap {
        match find_index(t.indexes, 0) {
            Some(p) => p,
            None => start,
        }
    } else {
        start
    }
}

// ---------------------------------------------------------------------------
// Output names and tags
// ---------------------------------------------------------------------------

/// The output file name of a track: number, performer and title when both are
/// known, number and title when only the title is, `track` and the number otherwise;
/// then a dot and the format.
pub open spec fn output_name(t: TrackModel, format: Seq<char>) -> Seq<char> {
    let num = decimal2(t.number as nat);
    match (t.performer, t.title) {
        (Some(p), Some(ti)) => num + " - "@ + sanitize(p) + " - "@ + sanitize(ti) + "."@ + format,
        (None, Some(ti)) => num + " - "@ + sanitize(ti) + "."@ + format,
        _ => "track"@ + num + "."@ + format,
    }
}

/// `c` begins with `p`.
pub open spec fn has_prefix(c: Seq<char>, p: Seq<char>) -> bool {
    p.len() <= c.len() && c.take(p.len() as int) == p
}

/// The tag of a `REM DATE` or `REM GENRE` comment, if it has a value.
pub open spec fn comment_tag(c: Seq<char>) -> Seq<Seq<char>> {
    let parts = words(c);
    if has_prefix(c, "REM DATE"@) {
        if parts.len() >= 3 {
            seq!["DATE="@ + trim(TrimKind::Quote, parts[2])]
        } else {
            Seq::empty()
        }
    } else if has_prefix(c, "REM GENRE"@) {
        if parts.len() >= 3 {
            seq!["GENRE="@ + trim(TrimKind::Quote, parts[2])]
        } else {
            Seq::empty()
        }
    } else {
        Seq::empty()
    }
}

/// The tags of the first `n` comments.
pub open spec fn comment_tags(cs: Seq<Seq<char>>, n: nat) -> Seq<Seq<char>>
    decreases n,
{
    if n == 0 {
        Seq::empty()
    } else {
        comment_tags(cs, (n - 1) as nat) + comment_tag(cs[n - 1])
    }
}

/// The tag `key` and the value, if there is a value.
pub open spec fn opt_tag(key: Seq<char>, v: Option<Seq<char>>) -> Seq<Seq<char>> {
    match v {
        Some(x) => seq![key + x],
        None => Seq::empty(),
    }
}

/// The `KEY=value` tags of a track: album, artist and performer, title, composer,
/// ISRC, track number twice, the number of tracks of the file, then the date and
/// genre comments of the sheet.
pub open spec fn track_tags(cue: CueSheetModel, f: FileModel, t: TrackModel) -> Seq<Seq<char>> {
    opt_tag("ALBUM="@, f.title) + opt_tag("ARTIST="@, t.performer) + opt_tag(
        "PERFORMER="@,
        t.performer,
    ) + opt_tag("TITLE="@, t.title) + opt_tag("COMPOSER="@, t.songwriter) + opt_tag(
        "ISRC="@,
        t.isrc,
    ) + seq![
        "TRACK="@ + decimal(t.number as nat),
        "TRACKNUMBER="@ + decimal(t.number as nat),
        "TOTALTRACKS="@ + decimal(f.tracks.len()),
    ] + comment_tags(cue.comments, cue.comments.len())
}


/// Every date or genre tag of the comments begins with `D` or `G`.
proof fn lemma_comment_tags_initials(cs: Seq<Seq<char>>, n: nat)
    ensures
        forall|j: int| 0 <= j < comment_tags(cs, n).len() ==> (#[trigger] comment_tags(cs, n)[j]).len() >= 2
            && (comment_tags(cs, n)[j][0] == 'D' || comment_tags(cs, n)[j][0] == 'G'),
    decreases n,
{
    reveal_strlit("DATE=");
    reveal_strlit("GENRE=");
    if n > 0 {
        lemma_comment_tags_initials(cs, (n - 1) as nat);
        let prev = comment_tags(cs, (n - 1) as nat);
        let last = comment_tag(cs[n - 1]);
        assert(comment_tags(cs, n) == prev + last);
        assert forall|j: int| 0 <= j < last.len() implies (#[trigger] last[j]).len() >= 2
            && (last[j][0] == 'D' || last[j][0] == 'G') by {
            assert(j == 0);
        }
    }
}

/// `tags` credit the track `t`: its performer as `ARTIST=` and `PERFORMER=`, its
/// songwriter as `COMPOSER=` and its title as `TITLE=`, each where the track has one;
/// and every `ARTIST=` tag carries the performer, every `COMPOSER=` tag the
/// songwriter, never anything else.
pub open spec fn credits_track(tags: Seq<Seq<char>>, t: TrackModel) -> bool {
    &&& (t.performer matches Some(p) ==> tags.contains("ARTIST="@ + p) && tags.contains("PERFORMER="@ + p))
    &&& (t.songwriter matches Some(w) ==> tags.contains("COMPOSER="@ + w))
    &&& (t.title matches Some(ti) ==> tags.contains("TITLE="@ + ti))
    &&& forall|i: int|
        0 <= i < tags.len() && has_prefix(#[trigger] tags[i], "ARTIST="@) ==> t.performer is Some && tags[i]
            == "ARTIST="@ + t.performer->0
    &&& forall|i: int|
        0 <= i < tags.len() && has_prefix(#[trigger] tags[i], "COMPOSER="@) ==> t.songwriter is Some
            && tags[i] == "COMPOSER="@ + t.songwriter->0
}

/// The tags of a track credit it: performer, songwriter and title each under its
/// own key.
pub proof fn lemma_track_tags_credit(cue: CueSheetModel, f: FileModel, t: TrackModel)
    ensures
        credits_track(track_tags(cue, f, t), t),
        f.title matches Some(a) ==> track_tags(cue, f, t).contains("ALBUM="@ + a),
        t.isrc matches Some(i) ==> track_tags(cue, f, t).contains("ISRC="@ + i),
        track_tags(cue, f, t).contains("TRACK="@ + decimal(t.number as nat)),
        track_tags(cue, f, t).contains("TRACKNUMBER="@ + decimal(t.number as nat)),
        track_tags(cue, f, t).contains("TOTALTRACKS="@ + decimal(f.tracks.len())),
{
    reveal_strlit("ALBUM=");
    reveal_strlit("ARTIST=");
    reveal_strlit("PERFORMER=");
    reveal_strlit("TITLE=");
    reveal_strlit("COMPOSER=");
    reveal_strlit("ISRC=");
    reveal_strlit("TRACK=");
    reveal_strlit("TRACKNUMBER=");
    reveal_strlit("TOTALTRACKS=");
    let a0 = opt_tag("ALBUM="@, f.title);
    let a1 = opt_tag("ARTIST="@, t.performer);
    let a2 = opt_tag("PERFORMER="@, t.performer);
    let a3 = opt_tag("TITLE="@, t.title);
    let a4 = opt_tag("COMPOSER="@, t.songwriter);
    let a5 = opt_tag("ISRC="@, t.isrc);
    let sx = seq![
        "TRACK="@ + decimal(t.number as nat),
        "TRACKNUMBER="@ + decimal(t.number as nat),
        "TOTALTRACKS="@ + decimal(f.tracks.len()),
    ];
    let ct = comment_tags(cue.comments, cue.comments.len());
    let tags = track_tags(cue, f, t);
    assert(tags == a0 + a1 + a2 + a3 + a4 + a5 + sx + ct);
    let l1 = a0.len() as int;
    let l2 = l1 + a1.len();
    let l3 = l2 + a2.len();
    let l4 = l3 + a3.len();
    let l5 = l4 + a4.len();
    let l6 = l5 + a5.len();
    let l7 = l6 + 3;
    lemma_comment_tags_initials(cue.comments, cue.comments.len());
    if let Some(p) = t.performer {
        assert(tags[l1] == "ARTIST="@ + p);
        assert(tags[l2] == "PERFORMER="@ + p);
    }
    if let Some(w) = t.songwriter {
        assert(tags[l4] == "COMPOSER="@ + w);
    }
    if let Some(ti) = t.title {
        assert(tags[l3] == "TITLE="@ + ti);
    }
    if let Some(al) = f.title {
        assert(tags[0] == "ALBUM="@ + al);
    }
    if let Some(i) = t.isrc {
        assert(tags[l5] == "ISRC="@ + i);
    }
    assert(tags[l6] == "TRACK="@ + decimal(t.number as nat));
    assert(tags[l6 + 1] == "TRACKNUMBER="@ + decimal(t.number as nat));
    assert(tags[l6 + 2] == "TOTALTRACKS="@ + decimal(f.tracks.len()));
    assert forall|i: int| 0 <= i < tags.len() implies (has_prefix(#[trigger] tags[i], "ARTIST="@)
        ==> t.performer is Some && tags[i] == "ARTIST="@ + t.performer->0) && (has_prefix(tags[i], "COMPOSER="@)
        ==> t.songwriter is Some && tags[i] == "COMPOSER="@ + t.songwriter->0) by {
        let x = tags[i];
        if has_prefix(x, "ARTIST="@) {
            assert(x[0] == x.take(7)[0]);
            assert(x[1] == x.take(7)[1]);
        }
        if has_prefix(x, "COMPOSER="@) {
            assert(x[0] == x.take(9)[0]);
        }
        if i < l1 {
            assert(x == "ALBUM="@ + f.title->0);
            assert(x[0] == 'A' && x[1] == 'L');
        } else if i < l2 {
            assert(x == "ARTIST="@ + t.performer->0);
            assert(x[0] == 'A');
        } else if i < l3 {
            assert(x == "PERFORMER="@ + t.performer->0);
            assert(x[0] == 'P');
        } else if i < l4 {
            assert(x == "TITLE="@ + t.title->0);
            assert(x[0] == 'T');
        } else if i < l5 {
            assert(x == "COMPOSER="@ + t.songwriter->0);
            assert(x[0] == 'C');
        } else if i < l6 {
            assert(x == "ISRC="@ + t.isrc->0);
            assert(x[0] == 'I');
        } else if i < l7 {
            assert(x == sx[i - l6]);
            assert(x[0] == 'T');
        } else {
            assert(x == ct[i - l7]);
        }
    }
}

fn push_lit(v: &mut Vec<char>, lit: &str)
    ensures
        final(v)@ == old(v)@ + lit@,
{
    let mut l = chars_of(lit);
    v.append(&mut l);
}

fn push_chars(v: &mut Vec<char>, s: &Vec<char>)
    ensures
        final(v)@ == old(v)@ + s@,
{
    let mut c = s.clone();
    v.append(&mut c);
}

fn output_name_exec(t: &Track, format: &String) -> (r: String)
    ensures
        r@ == output_name(t@, format@),
{
    let num = decimal2_chars(t.number as u64);
    let fmt = chars_of(format.as_str());
    let mut v: Vec<char> = Vec::new();
    match (&t.performer, &t.title) {
        (Some(p), Some(ti)) => {
            push_chars(&mut v, &num);
            push_lit(&mut v, " - ");
            push_chars(&mut v, &chars_of(sanitize_filename(p.as_str()).as_str()));
            push_lit(&mut v, " - ");
            push_chars(&mut v, &chars_of(sanitize_filename(ti.as_str()).as_str()));
            push_lit(&mut v, ".");
            push_chars(&mut v, &fmt);
        },
        (None, Some(ti)) => {
            push_chars(&mut v, &num);
            push_lit(&mut v, " - ");
            push_chars(&mut v, &chars_of(sanitize_filename(ti.as_str()).as_str()));
            push_lit(&mut v, ".");
            push_chars(&mut v, &fmt);
        },
        _ => {
            push_lit(&mut v, "track");
            push_chars(&mut v, &num);
            push_lit(&mut v, ".");
            push_chars(&mut v, &fmt);
        },
    }
    proof {
        assert(v@ =~= output_name(t@, format@));
    }
    string_of(&v)
}

fn comment_tag_exec(c: &String, out: &mut Vec<String>)
    ensures
        final(out).deep_view() == old(out).deep_view() + comment_tag(c@),
{
    let v = chars_of(c.as_str());
    let ghost before = out.deep_view();
    let date = starts_with(&v, "REM DATE");
    let genre = starts_with(&v, "REM GENRE");
    if date || genre {
        let parts = split_words(&v);
        if parts.len() >= 3 {
            assert(parts.deep_view()[2] == parts[2]@);
            let mut t: Vec<char> = Vec::new();
            if date {
                push_lit(&mut t, "DATE=");
            } else {
                push_lit(&mut t, "GENRE=");
            }
            push_chars(&mut t, &trim_chars(TrimKind::Quote, &parts[2]));
            let s = string_of(&t);
            out.push(s);
            proof {
                assert(out.deep_view() =~~= before + comment_tag(c@));
            }
            return;
        }
    }
    assert(out.deep_view() =~~= before + comment_tag(c@));
}

fn push_tag(out: &mut Vec<String>, key: &str, value: &Vec<char>)
    ensures
        final(out).deep_view() == old(out).deep_view().push(key@ + value@),
{
    let ghost before = out.deep_view();
    let mut t = chars_of(key);
    push_chars(&mut t, value);
    let s = string_of(&t);
    out.push(s);
    assert(out.deep_view() =~~= before.push(key@ + value@));
}

fn push_opt_tag(out: &mut Vec<String>, key: &str, value: &Option<String>)
    ensures
        final(out).deep_view() == old(out).deep_view() + opt_tag(key@, value.deep_view()),
{
    let ghost before = out.deep_view();
    match value {
        Some(x) => {
            push_tag(out, key, &chars_of(x.as_str()));
            assert(out.deep_view() =~~= before + opt_tag(key@, value.deep_view()));
        },
        None => {
            assert(out.deep_view() =~~= before + opt_tag(key@, value.deep_view()));
        },
    }
}

fn track_tags_exec(cue: &CueSheet, f: &File, t: &Track) -> (r: Vec<String>)
    ensures
        r.deep_view() == track_tags(cue@, f@, t@),
{
    let mut out: Vec<String> = Vec::new();
    assert(out.deep_view() =~~= Seq::<Seq<char>>::empty());
    push_opt_tag(&mut out, "ALBUM=", &f.title);
    push_opt_tag(&mut out, "ARTIST=", &t.performer);
    push_opt_tag(&mut out, "PERFORMER=", &t.performer);
    push_opt_tag(&mut out, "TITLE=", &t.title);
    push_opt_tag(&mut out, "COMPOSER=", &t.songwriter);
    push_opt_tag(&mut out, "ISRC=", &t.isrc);
    let ghost mid = out.deep_view();
    push_tag(&mut out, "TRACK=", &decimal_chars(t.number as u64));
    push_tag(&mut out, "TRACKNUMBER=", &decimal_chars(t.number as u64));
    assert(f@.tracks.len() == f.tracks.len());
    push_tag(&mut out, "TOTALTRACKS=", &decimal_chars(f.tracks.len() as u64));
    let ghost fixed = out.deep_view();
    let mut i: usize = 0;
    while i < cue.comments.len()
        invariant
            i <= cue.comments.len(),
            out.deep_view() == fixed + comment_tags(cue@.comments, i as nat),
        decreases cue.comments.len() - i,
    {
        assert(cue@.comments[i as int] == cue.comments[i as int]@);
        comment_tag_exec(&cue.comments[i], &mut out);
        i = i + 1;
        assert(out.deep_view() =~~= fixed + comment_tags(cue@.comments, i as nat));
    }
    assert(out.deep_view() =~~= track_tags(cue@, f@, t@));
    out
}

// ---------------------------------------------------------------------------
// The plan
// ---------------------------------------------------------------------------

/// What to do for one track.
pub struct TrackPlan {
    pub number: u8,
    /// Where the output starts.
    pub start: Time,
    /// Where the output ends, if the next track says so.
    pub end: Option<Time>,
    /// Whether there is an end and it lies after the start.
    pub has_duration: bool,
    /// The output file name, without a directory.
    pub output_name: String,
    /// The `KEY=value` tags to write, none when metadata is skipped.
    pub tags: Vec<String>,
}

/// Each track of the sheet, in order.
pub enum PlanItem {
    /// A track without index 1 is left out.
    Skipped(u8),
    /// A track to cut out.
    Split(TrackPlan),
}

#[verifier::ext_equal]
pub struct TrackPlanModel {
    pub number: u8,
    pub start: Time,
    pub end: Option<Time>,
    pub has_duration: bool,
    pub output_name: Seq<char>,
    pub tags: Seq<Seq<char>>,
}

pub enum PlanItemModel {
    Skipped(u8),
    Split(TrackPlanModel),
}

impl View for PlanItem {
    type V = PlanItemModel;

    open spec fn view(&self) -> PlanItemModel {
        match self {
            PlanItem::Skipped(n) => PlanItemModel::Skipped(*n),
            PlanItem::Split(p) => PlanItemModel::Split(
                TrackPlanModel {
                    number: p.number,
                    start: p.start,
                    end: p.end,
                    has_duration: p.has_duration,
                    output_name: p.output_name@,
                    tags: p.tags.deep_view(),
                },
            ),
        }
    }
}

/// What to do for the track `t` of the file `f`.
pub open spec fn plan_track(cue: CueSheetModel, f: FileModel, t: TrackModel, cfg: ConfigModel) -> PlanItemModel {
    match find_index(t.indexes, 1) {
        None => PlanItemModel::Skipped(t.number),
        Some(start) => {
            let s = effective_start(t, start, cfg.include_pregap);
            let e = track_end(f.tracks, t.number);
            PlanItemModel::Split(
                TrackPlanModel {
                    number: t.number,
                    start: s,
                    end: e,
                    has_duration: match e {
                        Some(x) => time_position(x) > time_position(s),
                        None => false,
                    },
                    output_name: output_name(t, cfg.format),
                    tags: if cfg.skip_metadata {
                        Seq::empty()
                    } else {
                        track_tags(cue, f, t)
                    },
                },
            )
        },
    }
}

/// A planned track carries no tags when metadata is skipped, and otherwise tags that
/// credit its performer, songwriter and title each under its own key.
pub proof fn lemma_plan_track_credit(cue: CueSheetModel, f: FileModel, t: TrackModel, cfg: ConfigModel)
    ensures
        plan_track(cue, f, t, cfg) matches PlanItemModel::Split(p) ==> (if cfg.skip_metadata {
            p.tags.len() == 0
        } else {
            credits_track(p.tags, t)
        }),
{
    lemma_track_tags_credit(cue, f, t);
}

/// The plan for the first `n` tracks of `f`.
pub open spec fn plan_tracks(cue: CueSheetModel, f: FileModel, cfg: ConfigModel, n: nat) -> Seq<PlanItemModel>
    decreases n,
{
    if n == 0 {
        Seq::empty()
    } else {
        plan_tracks(cue, f, cfg, (n - 1) as nat).push(plan_track(cue, f, f.tracks[n - 1], cfg))
    }
}

/// The plan for the tracks of the first `n` files.
pub open spec fn plan_files(cue: CueSheetModel, cfg: ConfigModel, n: nat) -> Seq<PlanItemModel>
    decreases n,
{
    if n == 0 {
        Seq::empty()
    } else {
        let f = cue.files[n - 1];
        plan_files(cue, cfg, (n - 1) as nat) + plan_tracks(cue, f, cfg, f.tracks.len())
    }
}

/// What `plan_split` gives: an error for a sheet without files, else the plan for
/// every track of every file, in order.
pub open spec fn plan_spec(cue: CueSheetModel, cfg: ConfigModel) -> Option<Seq<PlanItemModel>> {
    if cue.files.len() == 0 {
        None
    } else {
        Some(plan_files(cue, cfg, cue.files.len()))
    }
}

/// Plan items as models.
pub open spec fn plan_view(v: Seq<PlanItem>) -> Seq<PlanItemModel> {
    v.map_values(|p: PlanItem| p@)
}

fn plan_track_exec(cue: &CueSheet, f: &File, t: &Track, cfg: &Config) -> (r: PlanItem)
    ensures
        r@ == plan_track(cue@, f@, t@, cfg@),
{
    match find_index_exec(&t.indexes, 1) {
        None => PlanItem::Skipped(t.number),
        Some(start) => {
            let s = if cfg.include_pregap {
                match find_index_exec(&t.indexes, 0) {
                    Some(p) => p,
                    None => start,
                }
            } else {
                start
            };
            let e = track_end_exec(&f.tracks, t.number);
            let has_duration = match e {
                Some(x) => {
                    let xe: u64 = (x.minutes as u64 * 60 + x.seconds as u64) * 75 + x.frames as u64;
                    let se: u64 = (s.minutes as u64 * 60 + s.seconds as u64) * 75 + s.frames as u64;
                    xe > se
                },
                None => false,
            };
            let tags = if cfg.skip_metadata {
                Vec::new()
            } else {
                track_tags_exec(cue, f, t)
            };
            let name = output_name_exec(t, &cfg.format);
            let p = TrackPlan { number: t.number, start: s, end: e, has_duration, output_name: name, tags };
            assert(p.tags.deep_view() =~~= (if cfg@.skip_metadata { Seq::empty() } else { track_tags(cue@, f@, t@) }));
            PlanItem::Split(p)
        },
    }
}

/// Decides, for every track of the sheet, whether and how it is cut out.
pub fn plan_split(cue: &CueSheet, config: &Config) -> (r: Result<Vec<PlanItem>, FFmpregError>)
    ensures
        match plan_spec(cue@, config@) {
            None => r matches Err(FFmpregError::EmptyCue(m)) && m@ == "No FILE entries found in CUE sheet"@,
            Some(p) => r is Ok && plan_view(r->Ok_0@) == p,
        },
{
    if cue.files.len() == 0 {
        return Err(FFmpregError::EmptyCue(text_of("No FILE entries found in CUE sheet")));
    }
    let mut out: Vec<PlanItem> = Vec::new();
    let mut i: usize = 0;
    assert(plan_view(out@) =~= plan_files(cue@, config@, 0));
    while i < cue.files.len()
        invariant
            i <= cue.files.len(),
            plan_view(out@) == plan_files(cue@, config@, i as nat),
        decreases cue.files.len() - i,
    {
        let f = &cue.files[i];
        assert(cue@.files[i as int] == f@);
        let ghost base = plan_view(out@);
        let mut j: usize = 0;
        assert(base + plan_tracks(cue@, f@, config@, 0) =~= base);
        while j < f.tracks.len()
            invariant
                i < cue.files.len(),
                f == &cue.files[i as int],
                j <= f.tracks.len(),
                plan_view(out@) == base + plan_tracks(cue@, f@, config@, j as nat),
            decreases f.tracks.len() - j,
        {
            assert(f@.tracks[j as int] == f.tracks[j as int]@);
            let item = plan_track_exec(cue, f, &f.tracks[j], config);
            let ghost before = plan_view(out@);
            let ghost iv = item@;
            out.push(item);
            assert(plan_view(out@) =~= before.push(iv));
            j = j + 1;
            assert(plan_view(out@) =~= base + plan_tracks(cue@, f@, config@, j as nat));
        }
        i = i + 1;
    }
    Ok(out)
}


/// The number of tracks of the first `n` files.
pub open spec fn total_tracks(fs: Seq<FileModel>, n: nat) -> nat
    decreases n,
{
    if n == 0 {
        0
    } else {
        total_tracks(fs, (n - 1) as nat) + fs[n - 1].tracks.len()
    }
}

proof fn lemma_plan_tracks(cue: CueSheetModel, f: FileModel, cfg: ConfigModel, n: nat)
    requires
        n <= f.tracks.len(),
    ensures
        plan_tracks(cue, f, cfg, n).len() == n,
        forall|i: int|
            0 <= i < n ==> #[trigger] plan_tracks(cue, f, cfg, n)[i] == plan_track(
                cue,
                f,
                f.tracks[i],
                cfg,
            ),
    decreases n,
{
    if n > 0 {
        lemma_plan_tracks(cue, f, cfg, (n - 1) as nat);
    }
}

/// The plan has one item per track of the sheet.
pub proof fn lemma_plan_covers_tracks(cue: CueSheetModel, cfg: ConfigModel, n: nat)
    requires
        n <= cue.files.len(),
    ensures
        plan_files(cue, cfg, n).len() == total_tracks(cue.files, n),
    decreases n,
{
    if n > 0 {
        lemma_plan_covers_tracks(cue, cfg, (n - 1) as nat);
        let f = cue.files[n - 1];
        lemma_plan_tracks(cue, f, cfg, f.tracks.len());
    }
}

/// The plan item of a track is skipped exactly when the track has no index 1; a split
/// track starts at its index 1 (or index 0 with pregaps), ends where the next track
/// starts, and is written to a file whose name ends with a dot and the format.
pub proof fn lemma_plan_track(cue: CueSheetModel, f: FileModel, t: TrackModel, cfg: ConfigModel)
    ensures
        (plan_track(cue, f, t, cfg) is Skipped) <==> find_index(t.indexes, 1) is None,
        plan_track(cue, f, t, cfg) matches PlanItemModel::Split(p) ==> {
            &&& p.number == t.number
            &&& p.start == effective_start(t, find_index(t.indexes, 1)->0, cfg.include_pregap)
            &&& p.end == track_end(f.tracks, t.number)
            &&& (p.has_duration <==> (p.end matches Some(e) && time_position(e) > time_position(p.start)))
            &&& exists|pre: Seq<char>| p.output_name == pre + "."@ + cfg.format
        },
{
    if let PlanItemModel::Split(p) = plan_track(cue, f, t, cfg) {
        let num = decimal2(t.number as nat);
        match (t.performer, t.title) {
            (Some(pf), Some(ti)) => {
                let pre = num + " - "@ + sanitize(pf) + " - "@ + sanitize(ti);
                assert(p.output_name == pre + "."@ + cfg.format);
            },
            (None, Some(ti)) => {
                let pre = num + " - "@ + sanitize(ti);
                assert(p.output_name == pre + "."@ + cfg.format);
            },
            _ => {
                let pre = "track"@ + num;
                assert(p.output_name == pre + "."@ + cfg.format);
            },
        }
    }
}


// ---------------------------------------------------------------------------
// Encoder settings and cover art
// ---------------------------------------------------------------------------

/// The encoder arguments of a configuration: bitrate, sample rate, channel count,
/// each with its switch, in that order, for those that are set.
pub open spec fn encoding_args_spec(c: ConfigModel) -> Seq<Seq<char>> {
    (match c.bitrate {
        Some(b) => seq!["-b:a"@, decimal(b as nat)],
        None => Seq::empty(),
    }) + (match c.sample_rate {
        Some(r) => seq!["-ar"@, decimal(r as nat)],
        None => Seq::empty(),
    }) + (match c.channels {
        Some(ch) => seq!["-ac"@, decimal(ch as nat)],
        None => Seq::empty(),
    })
}

fn push_pair(out: &mut Vec<String>, switch: &str, n: u64)
    ensures
        final(out).deep_view() == old(out).deep_view() + seq![switch@, decimal(n as nat)],
{
    let ghost before = out.deep_view();
    out.push(text_of(switch));
    out.push(string_of(&decimal_chars(n)));
    assert(out.deep_view() =~~= before + seq![switch@, decimal(n as nat)]);
}

/// The switch `sw` stands in `a` followed by the decimal text of `v` where `v` is set,
/// and wherever `sw` stands, it is followed by that text.
pub open spec fn switch_value(a: Seq<Seq<char>>, sw: Seq<char>, v: Option<nat>) -> bool {
    &&& (v matches Some(x) ==> exists|i: int| #![trigger a[i]]
        0 <= i && i + 1 < a.len() && a[i] == sw && a[i + 1] == decimal(x))
    &&& forall|i: int| #![trigger a[i]]
        0 <= i < a.len() && a[i] == sw ==> v is Some && i + 1 < a.len() && a[i + 1] == decimal(v->0)
}

/// A number setting as a natural number.
pub open spec fn opt_nat(v: Option<u64>) -> Option<nat> {
    match v {
        Some(x) => Some(x as nat),
        None => None,
    }
}

/// The encoder arguments pair each switch with its own setting: `-b:a` with the
/// bitrate, `-ar` with the sample rate and `-ac` with the channel count, each switch
/// present exactly where its setting is, and two arguments per setting.
pub proof fn lemma_encoding_args_pairs(c: ConfigModel)
    ensures
        switch_value(encoding_args_spec(c), "-b:a"@, opt_nat(c.bitrate)),
        switch_value(encoding_args_spec(c), "-ar"@, opt_nat(c.sample_rate)),
        switch_value(
            encoding_args_spec(c),
            "-ac"@,
            match c.channels {
                Some(ch) => Some(ch as nat),
                None => None,
            },
        ),
        encoding_args_spec(c).len() == 2 * ((if c.bitrate is Some { 1int } else { 0 }) + (if c.sample_rate is Some {
            1int
        } else {
            0
        }) + (if c.channels is Some { 1int } else { 0 })),
        forall|i: int, j: int|
            0 <= i < encoding_args_spec(c).len() && 0 <= j < encoding_args_spec(c).len() && #[trigger] encoding_args_spec(c)[i]
                == "-b:a"@ && #[trigger] encoding_args_spec(c)[j] == "-ar"@ ==> i < j,
        forall|i: int, j: int|
            0 <= i < encoding_args_spec(c).len() && 0 <= j < encoding_args_spec(c).len() && #[trigger] encoding_args_spec(c)[i]
                == "-ar"@ && #[trigger] encoding_args_spec(c)[j] == "-ac"@ ==> i < j,
{
    reveal_strlit("-b:a");
    reveal_strlit("-ar");
    reveal_strlit("-ac");
    let a = encoding_args_spec(c);
    let bseg: Seq<Seq<char>> = match c.bitrate {
        Some(b) => seq!["-b:a"@, decimal(b as nat)],
        None => Seq::empty(),
    };
    let rseg: Seq<Seq<char>> = match c.sample_rate {
        Some(r) => seq!["-ar"@, decimal(r as nat)],
        None => Seq::empty(),
    };
    let cseg: Seq<Seq<char>> = match c.channels {
        Some(ch) => seq!["-ac"@, decimal(ch as nat)],
        None => Seq::empty(),
    };
    assert(a == bseg + rseg + cseg);
    let pr = bseg.len() as int;
    let pc = (bseg.len() + rseg.len()) as int;
    if let Some(b) = c.bitrate {
        lemma_decimal_value(b as nat, b as nat);
        assert(a[0] == "-b:a"@ && a[1] == decimal(b as nat));
    }
    if let Some(r) = c.sample_rate {
        lemma_decimal_value(r as nat, r as nat);
        assert(a[pr] == "-ar"@ && a[pr + 1] == decimal(r as nat));
    }
    if let Some(ch) = c.channels {
        lemma_decimal_value(ch as nat, ch as nat);
        assert(a[pc] == "-ac"@ && a[pc + 1] == decimal(ch as nat));
    }
    assert forall|i: int| 0 <= i < a.len() implies
        (a[i] == "-b:a"@ ==> i == 0 && c.bitrate is Some) && (a[i] == "-ar"@ ==> i == pr && c.sample_rate is Some)
        && (#[trigger] a[i] == "-ac"@ ==> i == pc && c.channels is Some) by {
        assert("-b:a"@[1] != "-ar"@[1]);
        assert("-b:a"@[1] != "-ac"@[1]);
        assert("-ar"@[2] != "-ac"@[2]);
        if i < pr {
            if i == 1 {
                lemma_decimal_value(c.bitrate->0 as nat, c.bitrate->0 as nat);
                assert(a[i][0] != '-');
            }
        } else if i < pc {
            if i == pr + 1 {
                lemma_decimal_value(c.sample_rate->0 as nat, c.sample_rate->0 as nat);
                assert(a[i][0] != '-');
            }
        } else {
            if i == pc + 1 {
                lemma_decimal_value(c.channels->0 as nat, c.channels->0 as nat);
                assert(a[i][0] != '-');
            }
        }
    }
    assert forall|i: int| 0 <= i < a.len() implies
        (#[trigger] a[i] == "-b:a"@ ==> c.bitrate is Some && i + 1 < a.len() && a[i + 1] == decimal(c.bitrate->0 as nat))
        && (a[i] == "-ar"@ ==> c.sample_rate is Some && i + 1 < a.len() && a[i + 1] == decimal(c.sample_rate->0 as nat))
        && (a[i] == "-ac"@ ==> c.channels is Some && i + 1 < a.len() && a[i + 1] == decimal(c.channels->0 as nat))
    by {
        assert("-b:a"@[1] != "-ar"@[1]);
        assert("-b:a"@[1] != "-ac"@[1]);
        assert("-ar"@[2] != "-ac"@[2]);
        if i < pr {
            if i == 1 {
                assert(a[i] == decimal(c.bitrate->0 as nat));
                assert(a[i][0] != '-');
            }
        } else if i < pc {
            if i == pr + 1 {
                assert(a[i] == decimal(c.sample_rate->0 as nat));
                assert(a[i][0] != '-');
            } else {
                assert(a[i] == "-ar"@);
            }
        } else {
            if i == pc + 1 {
                assert(a[i] == decimal(c.channels->0 as nat));
                assert(a[i][0] != '-');
            } else {
                assert(a[i] == "-ac"@);
            }
        }
    }
}

/// The encoder arguments of a configuration.
pub fn encoding_args(config: &Config) -> (r: Vec<String>)
    ensures
        r.deep_view() == encoding_args_spec(config@),
        switch_value(r.deep_view(), "-b:a"@, opt_nat(config.bitrate)),
        switch_value(r.deep_view(), "-ar"@, opt_nat(config.sample_rate)),
        switch_value(
            r.deep_view(),
            "-ac"@,
            match config.channels {
                Some(ch) => Some(ch as nat),
                None => None,
            },
        ),
{
    proof {
        lemma_encoding_args_pairs(config@);
    }
    let mut out: Vec<String> = Vec::new();
    if let Some(b) = config.bitrate {
        push_pair(&mut out, "-b:a", b);
    }
    if let Some(r) = config.sample_rate {
        push_pair(&mut out, "-ar", r);
    }
    if let Some(c) = config.channels {
        push_pair(&mut out, "-ac", c as u64);
    }
    assert(out.deep_view() =~~= encoding_args_spec(config@));
    out
}

/// The file names looked for, in order, when the album cover is a directory.
pub open spec fn cover_names_spec() -> Seq<Seq<char>> {
    seq!["cover.jpg"@, "cover.jpeg"@, "cover.png"@, "cover.tiff"@, "1.jpg"@, "1.jpeg"@, "1.png"@]
}

/// The file names looked for, in order, when the album cover is a directory.
pub fn cover_file_names() -> (r: Vec<String>)
    ensures
        r.deep_view() == cover_names_spec(),
{
    let mut out: Vec<String> = Vec::new();
    out.push(text_of("cover.jpg"));
    out.push(text_of("cover.jpeg"));
    out.push(text_of("cover.png"));
    out.push(text_of("cover.tiff"));
    out.push(text_of("1.jpg"));
    out.push(text_of("1.jpeg"));
    out.push(text_of("1.png"));
    assert(out.deep_view() =~~= cover_names_spec());
    out
}


// ---------------------------------------------------------------------------
// The `ffmpeg` command line of a track
// ---------------------------------------------------------------------------

/// The arguments that put the cover image in as the attached picture.
pub open spec fn cover_map_spec() -> Seq<Seq<char>> {
    seq![
        "-map"@, "0:a"@, "-map"@, "1:v"@, "-c:v"@, "png"@, "-disposition:v"@, "attached_pic"@,
        "-metadata:s:v"@, "title=\"Album cover\""@,
    ]
}

/// `-metadata` before each tag, in order.
pub open spec fn metadata_args(tags: Seq<Seq<char>>) -> Seq<Seq<char>>
    decreases tags.len(),
{
    if tags.len() == 0 {
        Seq::empty()
    } else {
        metadata_args(tags.drop_last()) + seq!["-metadata"@, tags.last()]
    }
}

/// The arguments handed to `ffmpeg` for the track `p`: the start, the audio input,
/// the cover input, the duration (where the track has one), the cover mapping, the
/// encoder settings, the tags, the extra arguments, `-y` when overwriting, and the
/// output path last. `start` and `duration` are the times in seconds as text.
pub open spec fn ffmpeg_args_spec(
    p: TrackPlanModel,
    c: ConfigModel,
    audio: Seq<char>,
    cover: Option<Seq<char>>,
    start: Seq<char>,
    duration: Option<Seq<char>>,
    output: Seq<char>,
) -> Seq<Seq<char>> {
    seq!["-ss"@, start, "-i"@, audio] + (match cover {
        Some(cv) => seq!["-i"@, cv],
        None => Seq::empty(),
    }) + (if p.end is Some && p.has_duration && duration is Some {
        seq!["-t"@, duration->0]
    } else {
        Seq::empty()
    }) + (if cover is Some {
        cover_map_spec()
    } else {
        Seq::empty()
    }) + encoding_args_spec(c) + metadata_args(p.tags) + c.extra_args + (if c.overwrite {
        seq!["-y"@]
    } else {
        Seq::empty()
    }) + seq![output]
}

/// The model of a track plan.
pub open spec fn track_plan_view(p: &TrackPlan) -> TrackPlanModel {
    TrackPlanModel {
        number: p.number,
        start: p.start,
        end: p.end,
        has_duration: p.has_duration,
        output_name: p.output_name@,
        tags: p.tags.deep_view(),
    }
}

/// The texts of an optional string.
pub open spec fn opt_view(o: Option<String>) -> Option<Seq<char>> {
    match o {
        Some(s) => Some(s@),
        None => None,
    }
}

fn push_str(out: &mut Vec<String>, lit: &str)
    ensures
        final(out).deep_view() == old(out).deep_view().push(lit@),
{
    let ghost before = out.deep_view();
    let t = text_of(lit);
    out.push(t);
    assert(out.deep_view() =~~= before.push(lit@));
}

fn push_text(out: &mut Vec<String>, s: &String)
    ensures
        final(out).deep_view() == old(out).deep_view().push(s@),
{
    let ghost before = out.deep_view();
    out.push(s.clone());
    assert(out.deep_view() =~~= before.push(s@));
}

fn push_strs(out: &mut Vec<String>, v: &Vec<String>)
    ensures
        final(out).deep_view() == old(out).deep_view() + v.deep_view(),
{
    let ghost start = out.deep_view();
    let mut i: usize = 0;
    while i < v.len()
        invariant
            i <= v.len(),
            out.deep_view() == start + v.deep_view().take(i as int),
        decreases v.len() - i,
    {
        push_text(out, &v[i]);
        i = i + 1;
        assert(v.deep_view().take(i as int) =~~= v.deep_view().take(i - 1).push(v[i - 1]@));
        assert(start + v.deep_view().take(i as int) =~~= start + v.deep_view().take(i - 1) + seq![v[i - 1]@]);
    }
    assert(v.deep_view().take(v.len() as int) =~~= v.deep_view());
}

/// The arguments handed to `ffmpeg` to cut out the track `plan`, with the audio
/// file, the cover image if any, the start and the duration in seconds as text, and
/// the output path.
pub fn ffmpeg_args(
    plan: &TrackPlan,
    config: &Config,
    audio: &String,
    cover: &Option<String>,
    start: &String,
    duration: &Option<String>,
    output: &String,
) -> (r: Vec<String>)
    ensures
        r.deep_view() == ffmpeg_args_spec(
            track_plan_view(plan),
            config@,
            audio@,
            opt_view(*cover),
            start@,
            opt_view(*duration),
            output@,
        ),
{
    let mut out: Vec<String> = Vec::new();
    push_str(&mut out, "-ss");
    push_text(&mut out, start);
    push_str(&mut out, "-i");
    push_text(&mut out, audio);
    let ghost a0 = out.deep_view();
    assert(a0 =~~= seq!["-ss"@, start@, "-i"@, audio@]);
    if let Some(cv) = cover {
        push_str(&mut out, "-i");
        push_text(&mut out, cv);
    }
    let ghost a1 = out.deep_view();
    assert(a1 =~~= a0 + (match opt_view(*cover) {
        Some(cv) => seq!["-i"@, cv],
        None => Seq::<Seq<char>>::empty(),
    }));
    if plan.end.is_some() && plan.has_duration {
        if let Some(d) = duration {
            push_str(&mut out, "-t");
            push_text(&mut out, d);
        }
    }
    let ghost a2 = out.deep_view();
    assert(a2 =~~= a1 + (if plan.end is Some && plan.has_duration && duration is Some {
        seq!["-t"@, opt_view(*duration)->0]
    } else {
        Seq::<Seq<char>>::empty()
    }));
    if cover.is_some() {
        push_str(&mut out, "-map");
        push_str(&mut out, "0:a");
        push_str(&mut out, "-map");
        push_str(&mut out, "1:v");
        push_str(&mut out, "-c:v");
        push_str(&mut out, "png");
        push_str(&mut out, "-disposition:v");
        push_str(&mut out, "attached_pic");
        push_str(&mut out, "-metadata:s:v");
        push_str(&mut out, "title=\"Album cover\"");
    }
    let ghost a3 = out.deep_view();
    assert(a3 =~~= a2 + (if cover is Some {
        cover_map_spec()
    } else {
        Seq::<Seq<char>>::empty()
    }));
    let enc = encoding_args(config);
    push_strs(&mut out, &enc);
    let ghost a4 = out.deep_view();
    let mut i: usize = 0;
    while i < plan.tags.len()
        invariant
            i <= plan.tags.len(),
            out.deep_view() == a4 + metadata_args(plan.tags.deep_view().take(i as int)),
        decreases plan.tags.len() - i,
    {
        let ghost t = plan.tags.deep_view().take(i + 1);
        let ghost m = metadata_args(plan.tags.deep_view().take(i as int));
        assert(t.drop_last() =~~= plan.tags.deep_view().take(i as int));
        assert(t.last() == plan.tags[i as int]@);
        assert(metadata_args(t) == m + seq!["-metadata"@, plan.tags[i as int]@]);
        push_str(&mut out, "-metadata");
        push_text(&mut out, &plan.tags[i]);
        assert(out.deep_view() =~~= a4 + m + seq!["-metadata"@, plan.tags[i as int]@]);
        i = i + 1;
    }
    assert(plan.tags.deep_view().take(plan.tags.len() as int) =~~= plan.tags.deep_view());
    let ghost a5 = out.deep_view();
    push_strs(&mut out, &config.extra_args);
    if config.overwrite {
        push_str(&mut out, "-y");
    }
    push_text(&mut out, output);
    assert(out.deep_view() =~~= ffmpeg_args_spec(
        track_plan_view(plan),
        config@,
        audio@,
        opt_view(*cover),
        start@,
        opt_view(*duration),
        output@,
    ));
    out
}

} // verus!
