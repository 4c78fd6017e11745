//! The line-by-line state of the CUE sheet parser and the effect of one line.
use vstd::prelude::*;

use crate::cue::{clone_opt, CueSheet, CueSheetModel, File, FileModel, Index, Track, TrackModel};
use crate::errors::{ParseError, ParseErrorModel};
use crate::parser::{
    at_line, file_line, file_line_chars, line_msg, parse_time_chars, parse_u8, quoted_string,
    quoted_string_chars, text_of, time_of, u8_of,
};
use crate::text::{
    chars_are, chars_of, join, join_from, split_words, string_of, trim, trim_chars, words, TrimKind,
};

verus! {

/// The command word of a CUE line, after upper-casing.
#[derive(Clone, Copy, PartialEq, Eq, Structural, Debug)]
pub enum Command {
    Rem,
    Performer,
    Songwriter,
    Title,
    File,
    Track,
    Index,
    Catalog,
    CdTextFile,
    Isrc,
    Flags,
    Pregap,
    Postgap,
    Unknown,
}

/// The command that an upper-cased command word names.
pub open spec fn command_of(u: Seq<char>) -> Command {
    if u == "REM"@ {
        Command::Rem
    } else if u == "PERFORMER"@ {
        Command::Performer
    } else if u == "SONGWRITER"@ {
        Command::Songwriter
    } else if u == "TITLE"@ {
        Command::Title
    } else if u == "FILE"@ {
        Command::File
    } else if u == "TRACK"@ {
        Command::Track
    } else if u == "INDEX"@ {
        Command::Index
    } else if u == "CATALOG"@ {
        Command::Catalog
    } else if u == "CDTEXTFILE"@ {
        Command::CdTextFile
    } else if u == "ISRC"@ {
        Command::Isrc
    } else if u == "FLAGS"@ {
        Command::Flags
    } else if u == "PREGAP"@ {
        Command::Pregap
    } else if u == "POSTGAP"@ {
        Command::Postgap
    } else {
        Command::Unknown
    }
}

/// The command named by an upper-cased command word, as characters.
pub fn command_of_chars(u: &Vec<char>) -> (c: Command)
    ensures
        c == command_of(u@),
{
    if chars_are(u, "REM") {
        Command::Rem
    } else if chars_are(u, "PERFORMER") {
        Command::Performer
    } else if chars_are(u, "SONGWRITER") {
        Command::Songwriter
    } else if chars_are(u, "TITLE") {
        Command::Title
    } else if chars_are(u, "FILE") {
        Command::File
    } else if chars_are(u, "TRACK") {
        Command::Track
    } else if chars_are(u, "INDEX") {
        Command::Index
    } else if chars_are(u, "CATALOG") {
        Command::Catalog
    } else if chars_are(u, "CDTEXTFILE") {
        Command::CdTextFile
    } else if chars_are(u, "ISRC") {
        Command::Isrc
    } else if chars_are(u, "FLAGS") {
        Command::Flags
    } else if chars_are(u, "PREGAP") {
        Command::Pregap
    } else if chars_are(u, "POSTGAP") {
        Command::Postgap
    } else {
        Command::Unknown
    }
}

/// The command named by an upper-cased command word.
pub fn command_from_upper(upper: &str) -> (c: Command)
    ensures
        c == command_of(upper@),
{
    command_of_chars(&chars_of(upper))
}

/// The field that a `REM` line sets on the current track.
#[derive(Clone, Copy, PartialEq, Eq, Structural, Debug)]
pub enum RemField {
    Performer,
    Songwriter,
    Title,
    Other,
}

/// The field that an upper-cased `REM` type word names.
pub open spec fn rem_field_of(u: Seq<char>) -> RemField {
    if u == "PERFORMER"@ {
        RemField::Performer
    } else if u == "SONGWRITER"@ {
        RemField::Songwriter
    } else if u == "TITLE"@ {
        RemField::Title
    } else {
        RemField::Other
    }
}

/// The `REM` field named by an upper-cased type word, as characters.
pub fn rem_field_of_chars(u: &Vec<char>) -> (f: RemField)
    ensures
        f == rem_field_of(u@),
{
    if chars_are(u, "PERFORMER") {
        RemField::Performer
    } else if chars_are(u, "SONGWRITER") {
        RemField::Songwriter
    } else if chars_are(u, "TITLE") {
        RemField::Title
    } else {
        RemField::Other
    }
}

/// The field named by an upper-cased `REM` type word.
pub fn rem_field_from_upper(upper: &str) -> (f: RemField)
    ensures
        f == rem_field_of(upper@),
{
    rem_field_of_chars(&chars_of(upper))
}

/// The parser state: the sheet so far, the open file and track, and the
/// album-level texts seen before the first file.
#[verifier::ext_equal]
pub struct ParserModel {
    pub cue: CueSheetModel,
    pub file: Option<FileModel>,
    pub track: Option<TrackModel>,
    pub buf_title: Option<Seq<char>>,
    pub buf_performer: Option<Seq<char>>,
    pub buf_songwriter: Option<Seq<char>>,
}

/// What one line does to the parser state.
pub enum StepOutcome {
    /// The line was read; this is the new state.
    Next(ParserModel),
    /// The line is refused with this error.
    Fail(ParseErrorModel),
    /// Reading the line does not return (a `FILE` line without arguments).
    Panic,
}

/// The state before the first line: an empty sheet, nothing open, nothing seen.
pub open spec fn initial_model() -> ParserModel {
    ParserModel {
        cue: CueSheetModel {
            files: Seq::empty(),
            comments: Seq::empty(),
            catalog: None,
            cd_text_file: None,
        },
        file: None,
        track: None,
        buf_title: None,
        buf_performer: None,
        buf_songwriter: None,
    }
}

/// A value argument: the words joined with spaces, without surrounding quotes.
pub open spec fn value_text(args: Seq<Seq<char>>) -> Seq<char> {
    trim(TrimKind::Quote, join(args, ' '))
}

/// `st` with `t` as the open track.
pub open spec fn with_track(st: ParserModel, t: TrackModel) -> ParserModel {
    ParserModel { track: Some(t), ..st }
}

/// `st` with `f` as the open file.
pub open spec fn with_file(st: ParserModel, f: FileModel) -> ParserModel {
    ParserModel { file: Some(f), ..st }
}

/// `st` with `c` as the sheet so far.
pub open spec fn with_cue(st: ParserModel, c: CueSheetModel) -> ParserModel {
    ParserModel { cue: c, ..st }
}

/// `f` with `t` appended to its tracks, if there is a `t`.
pub open spec fn close_track(f: FileModel, t: Option<TrackModel>) -> FileModel {
    match t {
        Some(t) => FileModel { tracks: f.tracks.push(t), ..f },
        None => f,
    }
}

/// A `REM` line: kept as a comment; `REM PERFORMER`, `REM SONGWRITER` and
/// `REM TITLE` with a value also set that field of the open track.
pub open spec fn rem_step(st: ParserModel, line: Seq<char>, args: Seq<Seq<char>>, rem: RemField) -> StepOutcome {
    let st1 = with_cue(st, CueSheetModel { comments: st.cue.comments.push(line), ..st.cue });
    if args.len() >= 2 && st.track is Some {
        let v = value_text(args.drop_first());
        let t = st.track->0;
        match rem {
            RemField::Performer => StepOutcome::Next(with_track(st1, TrackModel { performer: Some(v), ..t })),
            RemField::Songwriter => StepOutcome::Next(with_track(st1, TrackModel { songwriter: Some(v), ..t })),
            RemField::Title => StepOutcome::Next(with_track(st1, TrackModel { title: Some(v), ..t })),
            RemField::Other => StepOutcome::Next(st1),
        }
    } else {
        StepOutcome::Next(st1)
    }
}

/// A `PERFORMER` line: sets the open track's performer, else the open file's,
/// else the album performer if none was seen yet.
pub open spec fn performer_step(st: ParserModel, k: nat, args: Seq<Seq<char>>) -> StepOutcome {
    if args.len() == 0 {
        StepOutcome::Fail(ParseErrorModel::InvalidArguments(
            line_msg("PERFORMER needs at least one argument at line "@, k),
        ))
    } else {
        let v = value_text(args);
        if st.track is Some {
            StepOutcome::Next(with_track(st, TrackModel { performer: Some(v), ..st.track->0 }))
        } else if st.file is Some {
            StepOutcome::Next(with_file(st, FileModel { performer: Some(v), ..st.file->0 }))
        } else if st.buf_performer is None {
            StepOutcome::Next(ParserModel { buf_performer: Some(v), ..st })
        } else {
            StepOutcome::Next(st)
        }
    }
}

/// A `SONGWRITER` line: sets the open track's songwriter, else the album
/// songwriter if none was seen yet.
pub open spec fn songwriter_step(st: ParserModel, k: nat, args: Seq<Seq<char>>) -> StepOutcome {
    if args.len() == 0 {
        StepOutcome::Fail(ParseErrorModel::InvalidArguments(
            line_msg("SONGWRITER needs at least one argument at line "@, k),
        ))
    } else {
        let v = value_text(args);
        if st.track is Some {
            StepOutcome::Next(with_track(st, TrackModel { songwriter: Some(v), ..st.track->0 }))
        } else if st.buf_songwriter is None {
            StepOutcome::Next(ParserModel { buf_songwriter: Some(v), ..st })
        } else {
            StepOutcome::Next(st)
        }
    }
}

/// A `TITLE` line: sets the open track's title, else the open file's, else the
/// album title if none was seen yet.
pub open spec fn title_step(st: ParserModel, k: nat, args: Seq<Seq<char>>) -> StepOutcome {
    if args.len() == 0 {
        StepOutcome::Fail(ParseErrorModel::InvalidArguments(
            line_msg("TITLE needs at least one argument at line "@, k),
        ))
    } else {
        let v = value_text(args);
        if st.track is Some {
            StepOutcome::Next(with_track(st, TrackModel { title: Some(v), ..st.track->0 }))
        } else if st.file is Some {
            StepOutcome::Next(with_file(st, FileModel { title: Some(v), ..st.file->0 }))
        } else if st.buf_title is None {
            StepOutcome::Next(ParserModel { buf_title: Some(v), ..st })
        } else {
            StepOutcome::Next(st)
        }
    }
}

/// A `FILE` line: closes the open file (with its open track) into the sheet and
/// opens a new file that takes the album performer and title.
pub open spec fn file_step(st: ParserModel, args: Seq<Seq<char>>) -> StepOutcome {
    if args.len() == 0 {
        StepOutcome::Panic
    } else {
        match file_line(args) {
            Err(e) => StepOutcome::Fail(e),
            Ok((name, ty)) => {
                let new_file = FileModel {
                    filename: name,
                    file_type: ty,
                    performer: st.buf_performer,
                    title: st.buf_title,
                    tracks: Seq::empty(),
                };
                match st.file {
                    Some(f) => StepOutcome::Next(
                        ParserModel {
                            cue: CueSheetModel {
                                files: st.cue.files.push(close_track(f, st.track)),
                                ..st.cue
                            },
                            file: Some(new_file),
                            track: None,
                            ..st
                        },
                    ),
                    None => StepOutcome::Next(with_file(st, new_file)),
                }
            },
        }
    }
}

/// The track that a `TRACK` line opens.
pub open spec fn new_track_model(st: ParserModel, number: u8, ty: Seq<char>) -> TrackModel {
    TrackModel {
        number,
        track_type: ty,
        isrc: None,
        flags: Seq::empty(),
        indexes: Seq::empty(),
        performer: st.buf_performer,
        songwriter: st.buf_songwriter,
        title: st.buf_title,
        pregap: None,
        postgap: None,
    }
}

/// A `TRACK` line: closes the open track into the open file and opens a new one.
pub open spec fn track_step(st: ParserModel, k: nat, args: Seq<Seq<char>>) -> StepOutcome {
    if args.len() < 2 {
        StepOutcome::Fail(ParseErrorModel::InvalidArguments(
            line_msg("TRACK needs at least 2 arguments at line "@, k),
        ))
    } else {
        match u8_of(args[0]) {
            Err(m) => StepOutcome::Fail(ParseErrorModel::InvalidNumber(m)),
            Ok(n) => if st.file is None {
                StepOutcome::Fail(ParseErrorModel::InvalidStructure(
                    line_msg("TRACK outside FILE at line "@, k),
                ))
            } else {
                StepOutcome::Next(
                    ParserModel {
                        file: Some(close_track(st.file->0, st.track)),
                        track: Some(new_track_model(st, n, join(args.drop_first(), ' '))),
                        ..st
                    },
                )
            },
        }
    }
}

/// An `INDEX` line: appends an index to the open track.
pub open spec fn index_step(st: ParserModel, k: nat, args: Seq<Seq<char>>) -> StepOutcome {
    if args.len() != 2 {
        StepOutcome::Fail(ParseErrorModel::InvalidArguments(
            line_msg("INDEX needs exactly 2 arguments at line "@, k),
        ))
    } else {
        match u8_of(args[0]) {
            Err(m) => StepOutcome::Fail(ParseErrorModel::InvalidNumber(m)),
            Ok(n) => match time_of(args[1]) {
                Err(e) => StepOutcome::Fail(e),
                Ok(t) => if st.track is None {
                    StepOutcome::Fail(ParseErrorModel::InvalidStructure(
                        line_msg("INDEX outside TRACK at line "@, k),
                    ))
                } else {
                    let tr = st.track->0;
                    StepOutcome::Next(with_track(st, TrackModel {
                        indexes: tr.indexes.push(Index { number: n, time: t }),
                        ..tr
                    }))
                },
            },
        }
    }
}

/// A `CATALOG` line: sets the catalog number of the sheet.
pub open spec fn catalog_step(st: ParserModel, k: nat, args: Seq<Seq<char>>) -> StepOutcome {
    if args.len() != 1 {
        StepOutcome::Fail(ParseErrorModel::InvalidArguments(
            line_msg("CATALOG needs exactly 1 argument at line "@, k),
        ))
    } else {
        StepOutcome::Next(with_cue(st, CueSheetModel { catalog: Some(args[0]), ..st.cue }))
    }
}

/// A `CDTEXTFILE` line: sets the CD-Text file of the sheet.
pub open spec fn cd_text_file_step(st: ParserModel, k: nat, args: Seq<Seq<char>>) -> StepOutcome {
    if args.len() != 1 {
        StepOutcome::Fail(ParseErrorModel::InvalidArguments(
            line_msg("CDTEXTFILE needs exactly 1 argument at line "@, k),
        ))
    } else {
        match quoted_string(args) {
            Err(e) => StepOutcome::Fail(e),
            Ok(v) => StepOutcome::Next(with_cue(st, CueSheetModel { cd_text_file: Some(v), ..st.cue })),
        }
    }
}

/// An `ISRC` line: sets the ISRC of the open track.
pub open spec fn isrc_step(st: ParserModel, k: nat, args: Seq<Seq<char>>) -> StepOutcome {
    if args.len() != 1 {
        StepOutcome::Fail(ParseErrorModel::InvalidArguments(
            line_msg("ISRC needs exactly 1 argument at line "@, k),
        ))
    } else if st.track is Some {
        StepOutcome::Next(with_track(st, TrackModel { isrc: Some(args[0]), ..st.track->0 }))
    } else {
        StepOutcome::Fail(ParseErrorModel::InvalidStructure(
            line_msg("ISRC outside TRACK at line "@, k),
        ))
    }
}

/// A `FLAGS` line: sets the flags of the open track.
pub open spec fn flags_step(st: ParserModel, k: nat, args: Seq<Seq<char>>) -> StepOutcome {
    if args.len() == 0 {
        StepOutcome::Fail(ParseErrorModel::InvalidArguments(
            line_msg("FLAGS needs at least one flag at line "@, k),
        ))
    } else if st.track is Some {
        StepOutcome::Next(with_track(st, TrackModel { flags: args, ..st.track->0 }))
    } else {
        StepOutcome::Fail(ParseErrorModel::InvalidStructure(
            line_msg("FLAGS outside TRACK at line "@, k),
        ))
    }
}

/// `PREGAP` (when `post` is false) or `POSTGAP` (when `post` is true).
pub open spec fn gap_step(st: ParserModel, k: nat, args: Seq<Seq<char>>, post: bool) -> StepOutcome {
    if args.len() != 1 {
        StepOutcome::Fail(ParseErrorModel::InvalidArguments(
            line_msg(
                if post {
                    "POSTGAP needs exactly 1 argument at line "@
                } else {
                    "PREGAP needs exactly 1 argument at line "@
                },
                k,
            ),
        ))
    } else {
        match time_of(args[0]) {
            Err(e) => StepOutcome::Fail(e),
            Ok(t) => if st.track is Some {
                let tr = st.track->0;
                if post {
                    StepOutcome::Next(with_track(st, TrackModel { postgap: Some(t), ..tr }))
                } else {
                    StepOutcome::Next(with_track(st, TrackModel { pregap: Some(t), ..tr }))
                }
            } else {
                StepOutcome::Next(st)
            },
        }
    }
}

/// What the trimmed line `line`, the `k`-th line of the input (from 0), does to the
/// state `st`, where `cmd` is the command its first word names and `rem` the field
/// that its second word names.
pub open spec fn step_spec(st: ParserModel, k: nat, line: Seq<char>, cmd: Command, rem: RemField) -> StepOutcome {
    let parts = words(line);
    if parts.len() == 0 {
        StepOutcome::Next(st)
    } else {
        let args = parts.drop_first();
        match cmd {
            Command::Rem => rem_step(st, line, args, rem),
            Command::Performer => performer_step(st, k, args),
            Command::Songwriter => songwriter_step(st, k, args),
            Command::Title => title_step(st, k, args),
            Command::File => file_step(st, args),
            Command::Track => track_step(st, k, args),
            Command::Index => index_step(st, k, args),
            Command::Catalog => catalog_step(st, k, args),
            Command::CdTextFile => cd_text_file_step(st, k, args),
            Command::Isrc => isrc_step(st, k, args),
            Command::Flags => flags_step(st, k, args),
            Command::Pregap => gap_step(st, k, args, false),
            Command::Postgap => gap_step(st, k, args, true),
            Command::Unknown => StepOutcome::Next(st),
        }
    }
}

/// `o`'s text, or "Unknown".
pub open spec fn or_unknown(o: Option<Seq<char>>) -> Seq<char> {
    match o {
        Some(v) => v,
        None => "Unknown"@,
    }
}

/// `t` with "Unknown" in place of a missing performer, songwriter or title.
pub open spec fn with_defaults(t: TrackModel) -> TrackModel {
    TrackModel {
        performer: Some(or_unknown(t.performer)),
        songwriter: Some(or_unknown(t.songwriter)),
        title: Some(or_unknown(t.title)),
        ..t
    }
}

/// What the end of the input does: the open file, with its open track completed by
/// `with_defaults`, is appended to the sheet; a track with no file is an error.
pub open spec fn finish_spec(st: ParserModel) -> Result<CueSheetModel, ParseErrorModel> {
    match st.file {
        Some(f) => {
            let t = match st.track {
                Some(t) => Some(with_defaults(t)),
                None => None,
            };
            Ok(CueSheetModel { files: st.cue.files.push(close_track(f, t)), ..st.cue })
        },
        None => if st.track is Some {
            Err(ParseErrorModel::InvalidStructure("TRACK without enclosing FILE at end of input"@))
        } else {
            Ok(st.cue)
        },
    }
}

/// Whether reading `line` as `cmd` does not return: a `FILE` line without arguments.
pub open spec fn step_panics(line: Seq<char>, cmd: Command) -> bool {
    cmd == Command::File && words(line).len() == 1
}


// ---------------------------------------------------------------------------
// The executable parser state
// ---------------------------------------------------------------------------

/// The state of the parser between lines.
pub struct CueParser {
    cue: CueSheet,
    current_file: Option<File>,
    current_track: Option<Track>,
    buf_title: Option<String>,
    buf_performer: Option<String>,
    buf_songwriter: Option<String>,
}

/// An optional file as a model.
pub open spec fn opt_file(o: Option<File>) -> Option<FileModel> {
    match o {
        Some(f) => Some(f@),
        None => None,
    }
}

/// An optional track as a model.
pub open spec fn opt_track(o: Option<Track>) -> Option<TrackModel> {
    match o {
        Some(t) => Some(t@),
        None => None,
    }
}

impl View for CueParser {
    type V = ParserModel;

    closed spec fn view(&self) -> ParserModel {
        ParserModel {
            cue: self.cue@,
            file: opt_file(self.current_file),
            track: opt_track(self.current_track),
            buf_title: self.buf_title.deep_view(),
            buf_performer: self.buf_performer.deep_view(),
            buf_songwriter: self.buf_songwriter.deep_view(),
        }
    }
}

/// `r` and the state `after` are what the outcome `o` of a line says, starting from `before`.
pub open spec fn step_done(
    o: StepOutcome,
    r: Result<(), ParseError>,
    before: ParserModel,
    after: ParserModel,
) -> bool {
    match o {
        StepOutcome::Next(m) => r is Ok && after == m,
        StepOutcome::Fail(e) => r is Err && r->Err_0@ == e && after == before,
        StepOutcome::Panic => false,
    }
}

/// `value_text` of `parts[from..]`, as a string.
fn value_string(parts: &Vec<Vec<char>>, from: usize) -> (s: String)
    requires
        from <= parts.len(),
    ensures
        s@ == value_text(parts.deep_view().skip(from as int)),
{
    let j = join_from(parts, from, ' ');
    string_of(&trim_chars(TrimKind::Quote, &j))
}

/// The strings of `parts[from..]`.
fn strings_of(parts: &Vec<Vec<char>>, from: usize) -> (r: Vec<String>)
    requires
        from <= parts.len(),
    ensures
        r.deep_view() == parts.deep_view().skip(from as int),
{
    let ghost all = parts.deep_view().skip(from as int);
    let mut r: Vec<String> = Vec::new();
    let mut i: usize = from;
    while i < parts.len()
        invariant
            from <= i <= parts.len(),
            all == parts.deep_view().skip(from as int),
            r.deep_view() == all.take(i - from),
        decreases parts.len() - i,
    {
        let ghost before = r.deep_view();
        let s = string_of(&parts[i]);
        r.push(s);
        assert(r.deep_view() =~~= before.push(s@));
        i = i + 1;
        assert(all.take(i - from) =~~= all.take(i - from - 1).push(parts[i - 1]@));
    }
    assert(all.take(parts.len() - from) =~~= all);
    r
}

impl CueParser {
    /// A parser that has read nothing.
    pub fn new() -> (p: CueParser)
        ensures
            p@ == initial_model(),
    {
        let p = CueParser {
            cue: CueSheet::new(),
            current_file: None,
            current_track: None,
            buf_title: None,
            buf_performer: None,
            buf_songwriter: None,
        };
        p
    }

    fn rem_line(&mut self, line: &Vec<char>, parts: &Vec<Vec<char>>, rem: RemField)
        requires
            parts.len() >= 1,
        ensures
            rem_step(old(self)@, line@, parts.deep_view().drop_first(), rem) == StepOutcome::Next(final(self)@),
    {
        let ghost args = parts.deep_view().drop_first();
        let ghost old_comments = self.cue@.comments;
        let text = string_of(line);
        self.cue.comments.push(text);
        assert(self.cue@.comments =~~= old_comments.push(line@));
        if parts.len() >= 3 {
            proof {
                assert(args.drop_first() =~~= parts.deep_view().skip(2));
            }
            match self.current_track.take() {
                Some(mut t) => {
                    let v = value_string(parts, 2);
                    match rem {
                        RemField::Performer => t.performer = Some(v),
                        RemField::Songwriter => t.songwriter = Some(v),
                        RemField::Title => t.title = Some(v),
                        RemField::Other => {},
                    }
                    self.current_track = Some(t);
                },
                None => {},
            }
        }
    }

    fn performer_line(&mut self, k: usize, parts: &Vec<Vec<char>>) -> (r: Result<(), ParseError>)
        requires
            parts.len() >= 1,
            k < usize::MAX,
        ensures
            step_done(performer_step(old(self)@, k as nat, parts.deep_view().drop_first()), r, old(self)@, final(self)@),
    {
        if parts.len() == 1 {
            return Err(ParseError::InvalidArguments(at_line("PERFORMER needs at least one argument at line ", k)));
        }
        assert(parts.deep_view().drop_first() =~~= parts.deep_view().skip(1));
        let v = value_string(parts, 1);
        if self.current_track.is_some() {
            let mut t = self.current_track.take().unwrap();
            t.performer = Some(v);
            self.current_track = Some(t);
        } else if self.current_file.is_some() {
            let mut f = self.current_file.take().unwrap();
            f.performer = Some(v);
            self.current_file = Some(f);
        } else if self.buf_performer.is_none() {
            self.buf_performer = Some(v);
        }
        Ok(())
    }

    fn songwriter_line(&mut self, k: usize, parts: &Vec<Vec<char>>) -> (r: Result<(), ParseError>)
        requires
            parts.len() >= 1,
            k < usize::MAX,
        ensures
            step_done(songwriter_step(old(self)@, k as nat, parts.deep_view().drop_first()), r, old(self)@, final(self)@),
    {
        if parts.len() == 1 {
            return Err(ParseError::InvalidArguments(at_line("SONGWRITER needs at least one argument at line ", k)));
        }
        assert(parts.deep_view().drop_first() =~~= parts.deep_view().skip(1));
        let v = value_string(parts, 1);
        if self.current_track.is_some() {
            let mut t = self.current_track.take().unwrap();
            t.songwriter = Some(v);
            self.current_track = Some(t);
        } else if self.buf_songwriter.is_none() {
            self.buf_songwriter = Some(v);
        }
        Ok(())
    }

    fn title_line(&mut self, k: usize, parts: &Vec<Vec<char>>) -> (r: Result<(), ParseError>)
        requires
            parts.len() >= 1,
            k < usize::MAX,
        ensures
            step_done(title_step(old(self)@, k as nat, parts.deep_view().drop_first()), r, old(self)@, final(self)@),
    {
        if parts.len() == 1 {
            return Err(ParseError::InvalidArguments(at_line("TITLE needs at least one argument at line ", k)));
        }
        assert(parts.deep_view().drop_first() =~~= parts.deep_view().skip(1));
        let v = value_string(parts, 1);
        if self.current_track.is_some() {
            let mut t = self.current_track.take().unwrap();
            t.title = Some(v);
            self.current_track = Some(t);
        } else if self.current_file.is_some() {
            let mut f = self.current_file.take().unwrap();
            f.title = Some(v);
            self.current_file = Some(f);
        } else if self.buf_title.is_none() {
            self.buf_title = Some(v);
        }
        Ok(())
    }

    fn file_cmd_line(&mut self, parts: &Vec<Vec<char>>) -> (r: Result<(), ParseError>)
        requires
            parts.len() >= 2,
        ensures
            step_done(file_step(old(self)@, parts.deep_view().drop_first()), r, old(self)@, final(self)@),
    {
        assert(parts.deep_view().drop_first() =~~= parts.deep_view().skip(1));
        let (filename, file_type) = match file_line_chars(parts, 1) {
            Ok(p) => p,
            Err(e) => return Err(e),
        };
        let performer = clone_opt(&self.buf_performer);
        let title = clone_opt(&self.buf_title);
        let new_file = File { filename, file_type, performer, title, tracks: Vec::new() };
        assert(new_file@.tracks =~= Seq::<TrackModel>::empty());
        match self.current_file.take() {
            Some(mut f) => {
                match self.current_track.take() {
                    Some(t) => {
                        let ghost before = f@;
                        f.tracks.push(t);
                        assert(f@.tracks =~= before.tracks.push(t@));
                    },
                    None => {},
                }
                let ghost files_before = self.cue@.files;
                self.cue.files.push(f);
                assert(self.cue@.files =~= files_before.push(f@));
            },
            None => {},
        }
        self.current_file = Some(new_file);
        Ok(())
    }

    fn track_line(&mut self, k: usize, parts: &Vec<Vec<char>>) -> (r: Result<(), ParseError>)
        requires
            parts.len() >= 1,
            k < usize::MAX,
        ensures
            step_done(track_step(old(self)@, k as nat, parts.deep_view().drop_first()), r, old(self)@, final(self)@),
    {
        let ghost args = parts.deep_view().drop_first();
        if parts.len() < 3 {
            return Err(ParseError::InvalidArguments(at_line("TRACK needs at least 2 arguments at line ", k)));
        }
        assert(args[0] == parts[1]@);
        let number: u8 = match parse_u8(&parts[1]) {
            Ok(n) => n,
            Err(m) => return Err(ParseError::InvalidNumber(m)),
        };
        assert(args.drop_first() =~~= parts.deep_view().skip(2));
        let track_type = string_of(&join_from(parts, 2, ' '));
        if self.current_file.is_none() {
            return Err(ParseError::InvalidStructure(at_line("TRACK outside FILE at line ", k)));
        }
        let performer = clone_opt(&self.buf_performer);
        let songwriter = clone_opt(&self.buf_songwriter);
        let title = clone_opt(&self.buf_title);
        let new_track = Track {
            number,
            track_type,
            isrc: None,
            flags: Vec::new(),
            indexes: Vec::new(),
            performer,
            songwriter,
            title,
            pregap: None,
            postgap: None,
        };
        assert(new_track@.flags =~= Seq::<Seq<char>>::empty());
        assert(new_track@.indexes =~= Seq::<Index>::empty());
        match self.current_track.take() {
            Some(t) => {
                let mut f = self.current_file.take().unwrap();
                let ghost before = f@;
                f.tracks.push(t);
                assert(f@.tracks =~= before.tracks.push(t@));
                self.current_file = Some(f);
            },
            None => {},
        }
        self.current_track = Some(new_track);
        Ok(())
    }

    fn index_line(&mut self, k: usize, parts: &Vec<Vec<char>>) -> (r: Result<(), ParseError>)
        requires
            parts.len() >= 1,
            k < usize::MAX,
        ensures
            step_done(index_step(old(self)@, k as nat, parts.deep_view().drop_first()), r, old(self)@, final(self)@),
    {
        let ghost args = parts.deep_view().drop_first();
        if parts.len() != 3 {
            return Err(ParseError::InvalidArguments(at_line("INDEX needs exactly 2 arguments at line ", k)));
        }
        assert(args[0] == parts[1]@);
        assert(args[1] == parts[2]@);
        let number: u8 = match parse_u8(&parts[1]) {
            Ok(n) => n,
            Err(m) => return Err(ParseError::InvalidNumber(m)),
        };
        let time = match parse_time_chars(&parts[2]) {
            Ok(t) => t,
            Err(e) => return Err(e),
        };
        if self.current_track.is_none() {
            return Err(ParseError::InvalidStructure(at_line("INDEX outside TRACK at line ", k)));
        }
        let mut t = self.current_track.take().unwrap();
        t.indexes.push(Index { number, time });
        self.current_track = Some(t);
        Ok(())
    }

    fn catalog_line(&mut self, k: usize, parts: &Vec<Vec<char>>) -> (r: Result<(), ParseError>)
        requires
            parts.len() >= 1,
            k < usize::MAX,
        ensures
            step_done(catalog_step(old(self)@, k as nat, parts.deep_view().drop_first()), r, old(self)@, final(self)@),
    {
        let ghost args = parts.deep_view().drop_first();
        if parts.len() != 2 {
            return Err(ParseError::InvalidArguments(at_line("CATALOG needs exactly 1 argument at line ", k)));
        }
        assert(args[0] == parts[1]@);
        self.cue.catalog = Some(string_of(&parts[1]));
        Ok(())
    }

    fn cd_text_file_line(&mut self, k: usize, parts: &Vec<Vec<char>>) -> (r: Result<(), ParseError>)
        requires
            parts.len() >= 1,
            k < usize::MAX,
        ensures
            step_done(cd_text_file_step(old(self)@, k as nat, parts.deep_view().drop_first()), r, old(self)@, final(self)@),
    {
        if parts.len() != 2 {
            return Err(ParseError::InvalidArguments(at_line("CDTEXTFILE needs exactly 1 argument at line ", k)));
        }
        assert(parts.deep_view().drop_first() =~~= parts.deep_view().skip(1));
        let v = match quoted_string_chars(parts, 1) {
            Ok(v) => v,
            Err(e) => return Err(e),
        };
        self.cue.cd_text_file = Some(v);
        Ok(())
    }

    fn isrc_line(&mut self, k: usize, parts: &Vec<Vec<char>>) -> (r: Result<(), ParseError>)
        requires
            parts.len() >= 1,
            k < usize::MAX,
        ensures
            step_done(isrc_step(old(self)@, k as nat, parts.deep_view().drop_first()), r, old(self)@, final(self)@),
    {
        let ghost args = parts.deep_view().drop_first();
        if parts.len() != 2 {
            return Err(ParseError::InvalidArguments(at_line("ISRC needs exactly 1 argument at line ", k)));
        }
        assert(args[0] == parts[1]@);
        if self.current_track.is_none() {
            return Err(ParseError::InvalidStructure(at_line("ISRC outside TRACK at line ", k)));
        }
        let mut t = self.current_track.take().unwrap();
        t.isrc = Some(string_of(&parts[1]));
        self.current_track = Some(t);
        Ok(())
    }

    fn flags_line(&mut self, k: usize, parts: &Vec<Vec<char>>) -> (r: Result<(), ParseError>)
        requires
            parts.len() >= 1,
            k < usize::MAX,
        ensures
            step_done(flags_step(old(self)@, k as nat, parts.deep_view().drop_first()), r, old(self)@, final(self)@),
    {
        if parts.len() == 1 {
            return Err(ParseError::InvalidArguments(at_line("FLAGS needs at least one flag at line ", k)));
        }
        if self.current_track.is_none() {
            return Err(ParseError::InvalidStructure(at_line("FLAGS outside TRACK at line ", k)));
        }
        assert(parts.deep_view().drop_first() =~~= parts.deep_view().skip(1));
        let flags = strings_of(parts, 1);
        let mut t = self.current_track.take().unwrap();
        t.flags = flags;
        self.current_track = Some(t);
        Ok(())
    }

    fn gap_line(&mut self, k: usize, parts: &Vec<Vec<char>>, post: bool) -> (r: Result<(), ParseError>)
        requires
            parts.len() >= 1,
            k < usize::MAX,
        ensures
            step_done(gap_step(old(self)@, k as nat, parts.deep_view().drop_first(), post), r, old(self)@, final(self)@),
    {
        let ghost args = parts.deep_view().drop_first();
        if parts.len() != 2 {
            if post {
                return Err(ParseError::InvalidArguments(at_line("POSTGAP needs exactly 1 argument at line ", k)));
            } else {
                return Err(ParseError::InvalidArguments(at_line("PREGAP needs exactly 1 argument at line ", k)));
            }
        }
        assert(args[0] == parts[1]@);
        let time = match parse_time_chars(&parts[1]) {
            Ok(t) => t,
            Err(e) => return Err(e),
        };
        if self.current_track.is_some() {
            let mut t = self.current_track.take().unwrap();
            if post {
                t.postgap = Some(time);
            } else {
                t.pregap = Some(time);
            }
            self.current_track = Some(t);
        }
        Ok(())
    }

    pub(crate) fn step_chars(
        &mut self,
        k: usize,
        line: &Vec<char>,
        parts: &Vec<Vec<char>>,
        cmd: Command,
        rem: RemField,
    ) -> (r: Result<(), ParseError>)
        requires
            k < usize::MAX,
            parts.deep_view() == words(line@),
            !step_panics(line@, cmd),
        ensures
            step_done(step_spec(old(self)@, k as nat, line@, cmd, rem), r, old(self)@, final(self)@),
    {
        if parts.len() == 0 {
            return Ok(());
        }
        match cmd {
            Command::Rem => {
                self.rem_line(line, parts, rem);
                Ok(())
            },
            Command::Performer => self.performer_line(k, parts),
            Command::Songwriter => self.songwriter_line(k, parts),
            Command::Title => self.title_line(k, parts),
            Command::File => self.file_cmd_line(parts),
            Command::Track => self.track_line(k, parts),
            Command::Index => self.index_line(k, parts),
            Command::Catalog => self.catalog_line(k, parts),
            Command::CdTextFile => self.cd_text_file_line(k, parts),
            Command::Isrc => self.isrc_line(k, parts),
            Command::Flags => self.flags_line(k, parts),
            Command::Pregap => self.gap_line(k, parts, false),
            Command::Postgap => self.gap_line(k, parts, true),
            Command::Unknown => Ok(()),
        }
    }

    /// Reads the trimmed line `line`, the `k`-th line of the input counting from 0,
    /// whose first word names the command `cmd` and whose second word names the
    /// `REM` field `rem` (both once upper-cased). On an error the state is unchanged.
    pub fn step(&mut self, k: usize, line: &str, cmd: Command, rem: RemField) -> (r: Result<(), ParseError>)
        requires
            k < usize::MAX,
            !step_panics(line@, cmd),
        ensures
            step_done(step_spec(old(self)@, k as nat, line@, cmd, rem), r, old(self)@, final(self)@),
    {
        let chars = chars_of(line);
        let parts = split_words(&chars);
        self.step_chars(k, &chars, &parts, cmd, rem)
    }

    /// Closes the open file and track and gives the sheet. A track still open at the
    /// end gets "Unknown" for a missing performer, songwriter or title.
    pub fn finish(self) -> (r: Result<CueSheet, ParseError>)
        ensures
            match finish_spec(self@) {
                Ok(c) => r is Ok && r->Ok_0@ == c,
                Err(e) => r is Err && r->Err_0@ == e,
            },
    {
        let CueParser { mut cue, current_file, current_track, .. } = self;
        match current_file {
            Some(mut f) => {
                match current_track {
                    Some(mut t) => {
                        if t.performer.is_none() {
                            t.performer = Some(text_of("Unknown"));
                        }
                        if t.songwriter.is_none() {
                            t.songwriter = Some(text_of("Unknown"));
                        }
                        if t.title.is_none() {
                            t.title = Some(text_of("Unknown"));
                        }
                        let ghost before = f@;
                        f.tracks.push(t);
                        assert(f@.tracks =~= before.tracks.push(t@));
                    },
                    None => {},
                }
                let ghost files_before = cue@.files;
                cue.files.push(f);
                assert(cue@.files =~= files_before.push(f@));
                Ok(cue)
            },
            None => {
                if current_track.is_some() {
                    Err(ParseError::InvalidStructure(text_of("TRACK without enclosing FILE at end of input")))
                } else {
                    Ok(cue)
                }
            },
        }
    }
}

} // verus!
