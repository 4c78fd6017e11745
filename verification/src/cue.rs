//! The data model of a parsed CUE sheet.
use vstd::prelude::*;

use crate::text::{chars_of, decimal, decimal2, decimal2_chars, decimal_chars, string_of};

verus! {

/// A position on a CD: minutes, seconds and frames (75 frames per second).
#[derive(Clone, Copy, PartialEq, Eq, Structural, Debug)]
pub struct Time {
    pub minutes: u8,
    pub seconds: u8,
    pub frames: u8,
}

/// `m:s:f` as `{:02}:{:02}:{:02}` formats it.
pub open spec fn time_text(t: Time) -> Seq<char> {
    decimal2(t.minutes as nat) + seq![':'] + decimal2(t.seconds as nat) + seq![':'] + decimal2(
        t.frames as nat,
    )
}

/// A time whose seconds and frames are in range.
pub open spec fn time_valid(t: Time) -> bool {
    t.seconds < 60 && t.frames < 75
}

impl Time {
    /// The frame count `minutes * 60 + seconds * 75 + frames`.
    pub fn total_frames(&self) -> (r: u64)
        ensures
            r == self.minutes as int * 60 + self.seconds as int * 75 + self.frames as int,
    {
        (self.minutes as u64 * 60) + (self.seconds as u64 * 75) + self.frames as u64
    }

    /// The time as `MM:SS:FF`, each field zero-padded to two digits.
    pub fn to_string(&self) -> (s: String)
        ensures
            s@ == time_text(*self),
    {
        let mut v = decimal2_chars(self.minutes as u64);
        v.push(':');
        let mut sec = decimal2_chars(self.seconds as u64);
        v.append(&mut sec);
        v.push(':');
        let mut fr = decimal2_chars(self.frames as u64);
        v.append(&mut fr);
        string_of(&v)
    }
}

/// The exact position of a time in frames, with 75 frames per second.
pub open spec fn time_position(t: Time) -> int {
    (t.minutes as int * 60 + t.seconds as int) * 75 + t.frames as int
}

/// An `INDEX` entry of a track.
#[derive(Clone, Copy, PartialEq, Eq, Structural, Debug)]
pub struct Index {
    pub number: u8,
    pub time: Time,
}

/// A `TRACK` of a `FILE`.
pub struct Track {
    pub number: u8,
    pub track_type: String,
    pub isrc: Option<String>,
    pub flags: Vec<String>,
    pub indexes: Vec<Index>,
    pub performer: Option<String>,
    pub songwriter: Option<String>,
    pub title: Option<String>,
    pub pregap: Option<Time>,
    pub postgap: Option<Time>,
}

/// A `FILE` of a CUE sheet with its tracks.
pub struct File {
    pub filename: String,
    pub file_type: String,
    pub performer: Option<String>,
    pub title: Option<String>,
    pub tracks: Vec<Track>,
}

/// A whole CUE sheet.
pub struct CueSheet {
    pub files: Vec<File>,
    pub comments: Vec<String>,
    pub catalog: Option<String>,
    pub cd_text_file: Option<String>,
}

/// A track, with its texts as character sequences.
#[verifier::ext_equal]
pub struct TrackModel {
    pub number: u8,
    pub track_type: Seq<char>,
    pub isrc: Option<Seq<char>>,
    pub flags: Seq<Seq<char>>,
    pub indexes: Seq<Index>,
    pub performer: Option<Seq<char>>,
    pub songwriter: Option<Seq<char>>,
    pub title: Option<Seq<char>>,
    pub pregap: Option<Time>,
    pub postgap: Option<Time>,
}

/// A file, with its texts as character sequences.
#[verifier::ext_equal]
pub struct FileModel {
    pub filename: Seq<char>,
    pub file_type: Seq<char>,
    pub performer: Option<Seq<char>>,
    pub title: Option<Seq<char>>,
    pub tracks: Seq<TrackModel>,
}

/// A CUE sheet, with its texts as character sequences.
#[verifier::ext_equal]
pub struct CueSheetModel {
    pub files: Seq<FileModel>,
    pub comments: Seq<Seq<char>>,
    pub catalog: Option<Seq<char>>,
    pub cd_text_file: Option<Seq<char>>,
}

impl View for Track {
    type V = TrackModel;

    open spec fn view(&self) -> TrackModel {
        TrackModel {
            number: self.number,
            track_type: self.track_type@,
            isrc: self.isrc.deep_view(),
            flags: self.flags.deep_view(),
            indexes: self.indexes@,
            performer: self.performer.deep_view(),
            songwriter: self.songwriter.deep_view(),
            title: self.title.deep_view(),
            pregap: self.pregap,
            postgap: self.postgap,
        }
    }
}

impl View for File {
    type V = FileModel;

    open spec fn view(&self) -> FileModel {
        FileModel {
            filename: self.filename@,
            file_type: self.file_type@,
            performer: self.performer.deep_view(),
            title: self.title.deep_view(),
            tracks: self.tracks@.map_values(|t: Track| t@),
        }
    }
}

impl View for CueSheet {
    type V = CueSheetModel;

    open spec fn view(&self) -> CueSheetModel {
        CueSheetModel {
            files: self.files@.map_values(|f: File| f@),
            comments: self.comments.deep_view(),
            catalog: self.catalog.deep_view(),
            cd_text_file: self.cd_text_file.deep_view(),
        }
    }
}

impl CueSheet {
    /// An empty CUE sheet.
    pub fn new() -> (c: CueSheet)
        ensures
            c@ == (CueSheetModel {
                files: Seq::empty(),
                comments: Seq::empty(),
                catalog: None,
                cd_text_file: None,
            }),
    {
        let c = CueSheet { files: Vec::new(), comments: Vec::new(), catalog: None, cd_text_file: None };
        proof {
            assert(c@.files =~= Seq::<FileModel>::empty());
            assert(c@.comments =~= Seq::<Seq<char>>::empty());
        }
        c
    }
}

impl Default for CueSheet {
    /// An empty CUE sheet.
    fn default() -> (c: CueSheet)
        ensures
            c@ == (CueSheetModel {
                files: Seq::empty(),
                comments: Seq::empty(),
                catalog: None,
                cd_text_file: None,
            }),
    {
        CueSheet::new()
    }
}

/// A copy of an optional string.
pub fn clone_opt(o: &Option<String>) -> (r: Option<String>)
    ensures
        r.deep_view() == o.deep_view(),
{
    match o {
        Some(s) => Some(s.clone()),
        None => None,
    }
}


// ---------------------------------------------------------------------------
// A readable summary of a sheet
// ---------------------------------------------------------------------------

/// A line `label` and the text, if there is a text.
pub open spec fn opt_line(label: Seq<char>, v: Option<Seq<char>>) -> Seq<Seq<char>> {
    match v {
        Some(x) => seq![label + x],
        None => Seq::empty(),
    }
}

/// The summary line of an index.
pub open spec fn index_line(i: Index) -> Seq<char> {
    "      INDEX "@ + decimal2(i.number as nat) + ": "@ + time_text(i.time)
}

/// The index lines of the first `n` indexes.
pub open spec fn index_lines(idxs: Seq<Index>, n: nat) -> Seq<Seq<char>>
    decreases n,
{
    if n == 0 {
        Seq::empty()
    } else {
        index_lines(idxs, (n - 1) as nat).push(index_line(idxs[n - 1]))
    }
}

/// The summary lines of a track: its number and type, title, performer, indexes.
pub open spec fn track_lines(t: TrackModel) -> Seq<Seq<char>> {
    seq!["    Track "@ + decimal2(t.number as nat) + ": "@ + t.track_type] + opt_line(
        "      Title: "@,
        t.title,
    ) + opt_line("      Performer: "@, t.performer) + index_lines(t.indexes, t.indexes.len())
}

/// The lines of the first `n` tracks.
pub open spec fn tracks_lines(ts: Seq<TrackModel>, n: nat) -> Seq<Seq<char>>
    decreases n,
{
    if n == 0 {
        Seq::empty()
    } else {
        tracks_lines(ts, (n - 1) as nat) + track_lines(ts[n - 1])
    }
}

/// The summary lines of a file: name and type, track count, album title, tracks.
pub open spec fn file_lines(f: FileModel) -> Seq<Seq<char>> {
    seq![
        "  FILE: "@ + f.filename + " ("@ + f.file_type + ")"@,
        "  Tracks: "@ + decimal(f.tracks.len()),
    ] + opt_line("  Album: "@, f.title) + tracks_lines(f.tracks, f.tracks.len())
}

/// The lines of the first `n` files.
pub open spec fn files_lines(fs: Seq<FileModel>, n: nat) -> Seq<Seq<char>>
    decreases n,
{
    if n == 0 {
        Seq::empty()
    } else {
        files_lines(fs, (n - 1) as nat) + file_lines(fs[n - 1])
    }
}

/// The summary of a sheet: a heading, the number of files, then each file with its
/// album title, and each track with its title, performer and indexes.
pub open spec fn summary_lines(c: CueSheetModel) -> Seq<Seq<char>> {
    seq!["CUE file parsed successfully:"@, "  Files: "@ + decimal(c.files.len())] + files_lines(
        c.files,
        c.files.len(),
    )
}

fn line_of(a: &str, b: &Vec<char>) -> (s: String)
    ensures
        s@ == a@ + b@,
{
    let mut v = chars_of(a);
    let mut w = b.clone();
    v.append(&mut w);
    string_of(&v)
}

fn push_line(out: &mut Vec<String>, s: String)
    ensures
        final(out).deep_view() == old(out).deep_view().push(s@),
{
    let ghost before = out.deep_view();
    let ghost sv = s@;
    out.push(s);
    assert(out.deep_view() =~~= before.push(sv));
}

fn push_opt_line(out: &mut Vec<String>, label: &str, v: &Option<String>)
    ensures
        final(out).deep_view() == old(out).deep_view() + opt_line(label@, v.deep_view()),
{
    let ghost before = out.deep_view();
    match v {
        Some(x) => {
            push_line(out, line_of(label, &chars_of(x.as_str())));
        },
        None => {},
    }
    assert(out.deep_view() =~~= before + opt_line(label@, v.deep_view()));
}

fn track_lines_exec(t: &Track, out: &mut Vec<String>)
    ensures
        final(out).deep_view() == old(out).deep_view() + track_lines(t@),
{
    let ghost before = out.deep_view();
    let mut head = decimal2_chars(t.number as u64);
    let mut ty = chars_of(": ");
    head.append(&mut ty);
    let mut tt = chars_of(t.track_type.as_str());
    head.append(&mut tt);
    push_line(out, line_of("    Track ", &head));
    push_opt_line(out, "      Title: ", &t.title);
    push_opt_line(out, "      Performer: ", &t.performer);
    let ghost mid = out.deep_view();
    let mut i: usize = 0;
    while i < t.indexes.len()
        invariant
            i <= t.indexes.len(),
            out.deep_view() == mid + index_lines(t@.indexes, i as nat),
        decreases t.indexes.len() - i,
    {
        let idx = t.indexes[i];
        let mut v = decimal2_chars(idx.number as u64);
        let mut sep = chars_of(": ");
        v.append(&mut sep);
        let mut tm = chars_of(idx.time.to_string().as_str());
        v.append(&mut tm);
        push_line(out, line_of("      INDEX ", &v));
        i = i + 1;
        assert(out.deep_view() =~~= mid + index_lines(t@.indexes, i as nat));
    }
    assert(out.deep_view() =~~= before + track_lines(t@));
}

impl CueSheet {
    /// The summary of the sheet, one line per element.
    pub fn summary(&self) -> (lines: Vec<String>)
        ensures
            lines.deep_view() == summary_lines(self@),
    {
        let mut out: Vec<String> = Vec::new();
        push_line(&mut out, String::from_str("CUE file parsed successfully:"));
        push_line(&mut out, line_of("  Files: ", &decimal_chars(self.files.len() as u64)));
        let ghost head = out.deep_view();
        let mut i: usize = 0;
        while i < self.files.len()
            invariant
                i <= self.files.len(),
                out.deep_view() == head + files_lines(self@.files, i as nat),
            decreases self.files.len() - i,
        {
            let f = &self.files[i];
            assert(self@.files[i as int] == f@);
            let ghost before = out.deep_view();
            let mut v = chars_of(f.filename.as_str());
            let mut open = chars_of(" (");
            v.append(&mut open);
            let mut ft = chars_of(f.file_type.as_str());
            v.append(&mut ft);
            let mut close = chars_of(")");
            v.append(&mut close);
            push_line(&mut out, line_of("  FILE: ", &v));
            push_line(&mut out, line_of("  Tracks: ", &decimal_chars(f.tracks.len() as u64)));
            push_opt_line(&mut out, "  Album: ", &f.title);
            let ghost mid = out.deep_view();
            let mut j: usize = 0;
            while j < f.tracks.len()
                invariant
                    i < self.files.len(),
                    f == &self.files[i as int],
                    j <= f.tracks.len(),
                    out.deep_view() == mid + tracks_lines(f@.tracks, j as nat),
                decreases f.tracks.len() - j,
            {
                assert(f@.tracks[j as int] == f.tracks[j as int]@);
                track_lines_exec(&f.tracks[j], &mut out);
                j = j + 1;
                assert(out.deep_view() =~~= mid + tracks_lines(f@.tracks, j as nat));
            }
            assert(out.deep_view() =~~= before + file_lines(f@));
            i = i + 1;
            assert(out.deep_view() =~~= head + files_lines(self@.files, i as nat));
        }
        assert(out.deep_view() =~~= summary_lines(self@));
        out
    }
}

} // verus!
