//! What every parse keeps: valid times, comments that are `REM` lines, and a last
//! track whose performer, songwriter and title are filled in; how a parsed sheet
//! follows its lines in order; what a line with an unknown command changes; and
//! where a track's songwriter comes from.
use vstd::prelude::*;

use crate::builder::{
    close_track, finish_spec, initial_model, step_spec, with_defaults, Command, ParserModel,
    RemField, StepOutcome,
};
use crate::cue::{time_valid, CueSheetModel, FileModel, TrackModel};
use crate::parser::{
    cue_outcome, file_line, line_command, line_outcome, line_rem_field, run_lines,
    time_of, u8_of, CueOutcome,
};
use crate::text::{join, lemma_split_on_concat, lemma_split_on_single, split_on, trim, words, TrimKind};

verus! {

/// Every time of the track is valid.
pub open spec fn track_times_valid(t: TrackModel) -> bool {
    &&& forall|i: int| 0 <= i < t.indexes.len() ==> time_valid(#[trigger] t.indexes[i].time)
    &&& (t.pregap matches Some(p) ==> time_valid(p))
    &&& (t.postgap matches Some(p) ==> time_valid(p))
}

/// Every time of every track of the file is valid.
pub open spec fn file_times_valid(f: FileModel) -> bool {
    forall|i: int| 0 <= i < f.tracks.len() ==> track_times_valid(#[trigger] f.tracks[i])
}

/// Every time in the sheet (index times, pregaps, postgaps) has seconds below 60 and
/// frames below 75.
pub open spec fn cue_times_valid(c: CueSheetModel) -> bool {
    forall|i: int| 0 <= i < c.files.len() ==> file_times_valid(#[trigger] c.files[i])
}

/// A line whose command word upper-cases to `REM`.
pub open spec fn is_rem_line(line: Seq<char>) -> bool {
    words(line).len() > 0 && line_command(words(line)) == Command::Rem
}

/// Every comment of the sheet is a `REM` line.
pub open spec fn comments_are_rem(c: CueSheetModel) -> bool {
    forall|i: int| 0 <= i < c.comments.len() ==> is_rem_line(#[trigger] c.comments[i])
}

/// The last track of the last file, if there is one, has a performer, a songwriter
/// and a title.
pub open spec fn last_track_complete(c: CueSheetModel) -> bool {
    c.files.len() > 0 && c.files.last().tracks.len() > 0 ==> {
        let t = c.files.last().tracks.last();
        &&& t.performer is Some
        &&& t.songwriter is Some
        &&& t.title is Some
    }
}

/// What holds of the parser state between lines.
pub open spec fn state_inv(st: ParserModel) -> bool {
    &&& cue_times_valid(st.cue)
    &&& comments_are_rem(st.cue)
    &&& (st.file is None ==> st.cue.files.len() == 0 && st.track is None)
    &&& (st.file matches Some(f) ==> file_times_valid(f) && (f.tracks.len() > 0 ==> st.track is Some))
    &&& (st.track matches Some(t) ==> track_times_valid(t))
}

/// A parsed time is valid.
pub proof fn lemma_time_of_valid(s: Seq<char>)
    ensures
        time_of(s) matches Ok(t) ==> time_valid(t),
{
}

proof fn lemma_push_track(f: FileModel, t: TrackModel)
    requires
        file_times_valid(f),
        track_times_valid(t),
    ensures
        file_times_valid(FileModel { tracks: f.tracks.push(t), ..f }),
{
    let g = FileModel { tracks: f.tracks.push(t), ..f };
    assert forall|i: int| 0 <= i < g.tracks.len() implies track_times_valid(#[trigger] g.tracks[i]) by {
        if i < f.tracks.len() {
            assert(g.tracks[i] == f.tracks[i]);
        }
    }
}

proof fn lemma_push_file(c: CueSheetModel, f: FileModel)
    requires
        cue_times_valid(c),
        file_times_valid(f),
    ensures
        cue_times_valid(CueSheetModel { files: c.files.push(f), ..c }),
{
    let d = CueSheetModel { files: c.files.push(f), ..c };
    assert forall|i: int| 0 <= i < d.files.len() implies file_times_valid(#[trigger] d.files[i]) by {
        if i < c.files.len() {
            assert(d.files[i] == c.files[i]);
        }
    }
}

/// Reading a line keeps the invariant; a `REM` command is read only from a `REM` line.
pub proof fn lemma_step_keeps_inv(st: ParserModel, k: nat, line: Seq<char>, cmd: Command, rem: RemField)
    requires
        state_inv(st),
        cmd == Command::Rem ==> is_rem_line(line),
        step_spec(st, k, line, cmd, rem) is Next,
    ensures
        state_inv(step_spec(st, k, line, cmd, rem)->Next_0),
{
    let parts = words(line);
    let st2 = step_spec(st, k, line, cmd, rem)->Next_0;
    if parts.len() > 0 {
        let args = parts.drop_first();
        match cmd {
            Command::Rem => {
                let c = st2.cue;
                assert forall|i: int| 0 <= i < c.comments.len() implies is_rem_line(#[trigger] c.comments[i]) by {
                    if i < st.cue.comments.len() {
                        assert(c.comments[i] == st.cue.comments[i]);
                    }
                }
            },
            Command::File => {
                if let Some(f) = st.file {
                    match st.track {
                        Some(t) => lemma_push_track(f, t),
                        None => {},
                    }
                    lemma_push_file(st.cue, close_track(f, st.track));
                }
            },
            Command::Track => {
                if let Some(f) = st.file {
                    match st.track {
                        Some(t) => lemma_push_track(f, t),
                        None => {},
                    }
                }
            },
            Command::Index => {
                lemma_time_of_valid(args[1]);
                let t = st.track->0;
                let t2 = st2.track->0;
                assert forall|i: int| 0 <= i < t2.indexes.len() implies time_valid(#[trigger] t2.indexes[i].time) by {
                    if i < t.indexes.len() {
                        assert(t2.indexes[i] == t.indexes[i]);
                    }
                }
            },
            Command::Pregap => {
                lemma_time_of_valid(args[0]);
            },
            Command::Postgap => {
                lemma_time_of_valid(args[0]);
            },
            _ => {},
        }
    }
}

/// Every state reached by reading lines keeps the invariant.
pub proof fn lemma_run_lines_inv(lines: Seq<Seq<char>>, n: nat)
    ensures
        run_lines(lines, n) matches StepOutcome::Next(st) ==> state_inv(st),
    decreases n,
{
    if n == 0 {
        let st = initial_model();
        assert(st.cue.comments =~= Seq::<Seq<char>>::empty());
    } else {
        lemma_run_lines_inv(lines, (n - 1) as nat);
        if let StepOutcome::Next(st) = run_lines(lines, (n - 1) as nat) {
            let raw = lines[n - 1];
            let line = trim(TrimKind::Whitespace, raw);
            let parts = words(line);
            if !(line.len() == 0 || parts.len() == 0) {
                if line_outcome(st, (n - 1) as nat, raw) is Next {
                    lemma_step_keeps_inv(st, (n - 1) as nat, line, line_command(parts), line_rem_field(parts));
                }
            }
        }
    }
}

/// A parsed sheet has valid times everywhere, holds only `REM` lines as comments,
/// and its last track has a performer, a songwriter and a title.
pub proof fn lemma_parsed_sheet(input: Seq<char>)
    ensures
        cue_outcome(input) matches CueOutcome::Parsed(c) ==> {
            &&& cue_times_valid(c)
            &&& comments_are_rem(c)
            &&& last_track_complete(c)
        },
{
    let lines = split_on(input, '\n');
    lemma_run_lines_inv(lines, lines.len());
    if let StepOutcome::Next(st) = run_lines(lines, lines.len()) {
        if let Some(f) = st.file {
            match st.track {
                Some(t) => {
                    lemma_push_track(f, with_defaults(t));
                    lemma_push_file(st.cue, close_track(f, Some(with_defaults(t))));
                },
                None => {
                    lemma_push_file(st.cue, f);
                },
            }
        }
    }
}


// ---------------------------------------------------------------------------
// The sheet follows the lines in order
// ---------------------------------------------------------------------------

/// The command of a raw input line, if it is not blank.
pub open spec fn raw_command(raw: Seq<char>) -> Option<Command> {
    let line = trim(TrimKind::Whitespace, raw);
    let parts = words(line);
    if line.len() == 0 || parts.len() == 0 {
        None
    } else {
        Some(line_command(parts))
    }
}

/// The arguments of a raw input line: its words after the first.
pub open spec fn raw_args(raw: Seq<char>) -> Seq<Seq<char>> {
    words(trim(TrimKind::Whitespace, raw)).drop_first()
}

/// The trimmed `REM` lines among the first `n`, in order.
pub open spec fn rem_lines(lines: Seq<Seq<char>>, n: nat) -> Seq<Seq<char>>
    decreases n,
{
    if n == 0 {
        Seq::empty()
    } else if raw_command(lines[n - 1]) == Some(Command::Rem) {
        rem_lines(lines, (n - 1) as nat).push(trim(TrimKind::Whitespace, lines[n - 1]))
    } else {
        rem_lines(lines, (n - 1) as nat)
    }
}

/// The file names of the `FILE` lines among the first `n`, in order.
pub open spec fn file_line_names(lines: Seq<Seq<char>>, n: nat) -> Seq<Seq<char>>
    decreases n,
{
    if n == 0 {
        Seq::empty()
    } else if raw_command(lines[n - 1]) == Some(Command::File) {
        file_line_names(lines, (n - 1) as nat).push(file_line(raw_args(lines[n - 1]))->Ok_0.0)
    } else {
        file_line_names(lines, (n - 1) as nat)
    }
}

/// The track numbers of the `TRACK` lines among the first `n`, in order.
pub open spec fn track_line_numbers(lines: Seq<Seq<char>>, n: nat) -> Seq<u8>
    decreases n,
{
    if n == 0 {
        Seq::empty()
    } else if raw_command(lines[n - 1]) == Some(Command::Track) {
        track_line_numbers(lines, (n - 1) as nat).push(u8_of(raw_args(lines[n - 1])[0])->Ok_0)
    } else {
        track_line_numbers(lines, (n - 1) as nat)
    }
}

/// The numbers of the tracks, in order.
pub open spec fn track_numbers(ts: Seq<TrackModel>) -> Seq<u8> {
    ts.map_values(|t: TrackModel| t.number)
}

/// The numbers of the tracks of all the files, file after file.
pub open spec fn file_track_numbers(fs: Seq<FileModel>) -> Seq<u8>
    decreases fs.len(),
{
    if fs.len() == 0 {
        Seq::empty()
    } else {
        file_track_numbers(fs.drop_last()) + track_numbers(fs.last().tracks)
    }
}

/// The names of the files, in order.
pub open spec fn file_names(fs: Seq<FileModel>) -> Seq<Seq<char>> {
    fs.map_values(|f: FileModel| f.filename)
}

/// The track numbers of the state: closed files, then the open file, then the open track.
pub open spec fn state_numbers(st: ParserModel) -> Seq<u8> {
    file_track_numbers(st.cue.files) + (match st.file {
        Some(f) => track_numbers(f.tracks),
        None => Seq::empty(),
    }) + (match st.track {
        Some(t) => seq![t.number],
        None => Seq::empty(),
    })
}

/// The file names of the state: closed files, then the open file.
pub open spec fn state_names(st: ParserModel) -> Seq<Seq<char>> {
    file_names(st.cue.files) + (match st.file {
        Some(f) => seq![f.filename],
        None => Seq::empty(),
    })
}

proof fn lemma_numbers_push_track(ts: Seq<TrackModel>, t: TrackModel)
    ensures
        track_numbers(ts.push(t)) == track_numbers(ts).push(t.number),
{
    assert(track_numbers(ts.push(t)) =~= track_numbers(ts).push(t.number));
}

proof fn lemma_numbers_push_file(fs: Seq<FileModel>, f: FileModel)
    ensures
        file_track_numbers(fs.push(f)) == file_track_numbers(fs) + track_numbers(f.tracks),
        file_names(fs.push(f)) == file_names(fs).push(f.filename),
{
    assert(fs.push(f).drop_last() =~= fs);
    assert(file_names(fs.push(f)) =~= file_names(fs).push(f.filename));
}

/// What a read line adds to the comments, the file names and the track numbers.
proof fn lemma_step_follows_line(st: ParserModel, k: nat, line: Seq<char>, cmd: Command, rem: RemField)
    requires
        words(line).len() > 0,
        step_spec(st, k, line, cmd, rem) is Next,
    ensures
        ({
            let st2 = step_spec(st, k, line, cmd, rem)->Next_0;
            let args = words(line).drop_first();
            &&& st2.cue.comments == if cmd == Command::Rem {
                st.cue.comments.push(line)
            } else {
                st.cue.comments
            }
            &&& state_names(st2) == if cmd == Command::File {
                state_names(st).push(file_line(args)->Ok_0.0)
            } else {
                state_names(st)
            }
            &&& state_numbers(st2) == if cmd == Command::Track {
                state_numbers(st).push(u8_of(args[0])->Ok_0)
            } else {
                state_numbers(st)
            }
        }),
{
    let st2 = step_spec(st, k, line, cmd, rem)->Next_0;
    match cmd {
        Command::File => {
            if let Some(f) = st.file {
                let f1 = close_track(f, st.track);
                lemma_numbers_push_file(st.cue.files, f1);
                if let Some(t) = st.track {
                    lemma_numbers_push_track(f.tracks, t);
                }
                assert(state_names(st2) =~= state_names(st).push(file_line(words(line).drop_first())->Ok_0.0));
                assert(state_numbers(st2) =~= state_numbers(st));
            } else {
                assert(state_names(st2) =~= state_names(st).push(file_line(words(line).drop_first())->Ok_0.0));
                assert(track_numbers(Seq::<TrackModel>::empty()) =~= Seq::<u8>::empty());
                assert(state_numbers(st2) =~= state_numbers(st));
            }
        },
        Command::Track => {
            let f = st.file->0;
            if let Some(t) = st.track {
                lemma_numbers_push_track(f.tracks, t);
            }
            assert(state_numbers(st2) =~= state_numbers(st).push(u8_of(words(line).drop_first()[0])->Ok_0));
        },
        _ => {},
    }
}

/// Reading lines keeps the comments, file names and track numbers in line order.
proof fn lemma_run_lines_follow(lines: Seq<Seq<char>>, n: nat)
    ensures
        run_lines(lines, n) matches StepOutcome::Next(st) ==> {
            &&& st.cue.comments == rem_lines(lines, n)
            &&& state_names(st) == file_line_names(lines, n)
            &&& state_numbers(st) == track_line_numbers(lines, n)
        },
    decreases n,
{
    if n == 0 {
        let st = initial_model();
        assert(state_names(st) =~= Seq::<Seq<char>>::empty());
        assert(state_numbers(st) =~= Seq::<u8>::empty());
    } else {
        lemma_run_lines_follow(lines, (n - 1) as nat);
        if let StepOutcome::Next(st) = run_lines(lines, (n - 1) as nat) {
            let raw = lines[n - 1];
            let line = trim(TrimKind::Whitespace, raw);
            let parts = words(line);
            if !(line.len() == 0 || parts.len() == 0) {
                if line_outcome(st, (n - 1) as nat, raw) is Next {
                    lemma_step_follows_line(st, (n - 1) as nat, line, line_command(parts), line_rem_field(parts));
                }
            }
        }
    }
}

/// A parsed sheet follows its lines: its comments are exactly the trimmed `REM` lines,
/// its files are named by the `FILE` lines, and the numbers of its tracks, file after
/// file, are those of the `TRACK` lines, all in input order. So it has one file per
/// `FILE` line and one track per `TRACK` line.
pub proof fn lemma_parsed_sheet_follows_lines(input: Seq<char>)
    ensures
        cue_outcome(input) matches CueOutcome::Parsed(c) ==> {
            let lines = split_on(input, '\n');
            &&& c.comments == rem_lines(lines, lines.len())
            &&& file_names(c.files) == file_line_names(lines, lines.len())
            &&& file_track_numbers(c.files) == track_line_numbers(lines, lines.len())
        },
{
    let lines = split_on(input, '\n');
    lemma_run_lines_follow(lines, lines.len());
    if let StepOutcome::Next(st) = run_lines(lines, lines.len()) {
        if let Some(f) = st.file {
            let t = match st.track {
                Some(t) => Some(with_defaults(t)),
                None => None,
            };
            let f1 = close_track(f, t);
            lemma_numbers_push_file(st.cue.files, f1);
            if let Some(tt) = t {
                lemma_numbers_push_track(f.tracks, tt);
            }
            assert(file_track_numbers(st.cue.files.push(f1)) =~= state_numbers(st));
        } else {
            assert(state_names(st) =~= file_names(st.cue.files));
        }
    }
}


// ---------------------------------------------------------------------------
// Lines that change nothing
// ---------------------------------------------------------------------------

/// Reading the first `n` lines does not look at the lines after them.
proof fn lemma_run_lines_prefix(lines: Seq<Seq<char>>, extra: Seq<char>, n: nat)
    requires
        n <= lines.len(),
    ensures
        run_lines(lines.push(extra), n) == run_lines(lines, n),
    decreases n,
{
    if n > 0 {
        lemma_run_lines_prefix(lines, extra, (n - 1) as nat);
        assert(lines.push(extra)[n - 1] == lines[n - 1]);
    }
}

/// A blank line, or a line whose command word names no command, added at the end of
/// a CUE text leaves what parsing gives unchanged: the same sheet, the same error, or
/// again no return.
pub proof fn lemma_unknown_line_changes_nothing(input: Seq<char>, line: Seq<char>)
    requires
        forall|i: int| 0 <= i < line.len() ==> line[i] != '\n',
        raw_command(line) is None || raw_command(line) == Some(Command::Unknown),
    ensures
        cue_outcome(input + seq!['\n'] + line) == cue_outcome(input),
{
    let lines = split_on(input, '\n');
    lemma_split_on_concat(input, line, '\n');
    lemma_split_on_single(line, '\n');
    assert(split_on(input + seq!['\n'] + line, '\n') =~= lines.push(line));
    lemma_run_lines_prefix(lines, line, lines.len());
    let longer = lines.push(line);
    assert(longer[lines.len() as int] == line);
    assert(run_lines(longer, longer.len()) == run_lines(lines, lines.len()));
}


// ---------------------------------------------------------------------------
// Songwriters
// ---------------------------------------------------------------------------

/// The value of a line: its words after the first, joined with spaces, without
/// surrounding quotes.
pub open spec fn line_value(line: Seq<char>) -> Seq<char> {
    trim(TrimKind::Quote, join(words(line).drop_first(), ' '))
}

/// A `SONGWRITER` line with a value sets the songwriter of the open track to that
/// value and changes nothing else; with no track open, it sets the album songwriter
/// if none was seen yet, else nothing.
pub proof fn lemma_songwriter_line(st: ParserModel, k: nat, line: Seq<char>, rem: RemField)
    requires
        words(line).len() >= 2,
    ensures
        st.track matches Some(t) ==> step_spec(st, k, line, Command::Songwriter, rem) == StepOutcome::Next(
            ParserModel { track: Some(TrackModel { songwriter: Some(line_value(line)), ..t }), ..st },
        ),
        st.track is None ==> step_spec(st, k, line, Command::Songwriter, rem) == StepOutcome::Next(
            if st.buf_songwriter is None {
                ParserModel { buf_songwriter: Some(line_value(line)), ..st }
            } else {
                st
            },
        ),
{
}

/// Any other line that reads, but `TRACK`, `FILE` and `REM SONGWRITER`, leaves the
/// open track open with its songwriter.
pub proof fn lemma_open_track_keeps_songwriter(st: ParserModel, k: nat, line: Seq<char>, cmd: Command, rem: RemField)
    requires
        st.track is Some,
        cmd != Command::Songwriter,
        cmd != Command::Track,
        cmd != Command::File,
        !(cmd == Command::Rem && rem == RemField::Songwriter),
    ensures
        step_spec(st, k, line, cmd, rem) matches StepOutcome::Next(st2) ==> st2.track is Some
            && st2.track->0.songwriter == st.track->0.songwriter,
{
}

/// A `TRACK` or `FILE` line that reads puts the open track, as it is, last among the
/// tracks of its file.
pub proof fn lemma_track_closed_as_is(st: ParserModel, k: nat, line: Seq<char>, cmd: Command, rem: RemField)
    requires
        st.track is Some,
        st.file is Some,
        words(line).len() > 0,
        cmd == Command::Track || cmd == Command::File,
    ensures
        step_spec(st, k, line, cmd, rem) matches StepOutcome::Next(st2) ==> {
            if cmd == Command::Track {
                st2.file is Some && st2.file->0.tracks == st.file->0.tracks.push(st.track->0)
            } else {
                st2.cue.files.len() == st.cue.files.len() + 1 && st2.cue.files.last().tracks
                    == st.file->0.tracks.push(st.track->0)
            }
        },
{
}

/// At the end of the input, the open track is the last track of the sheet and keeps
/// a songwriter it has.
pub proof fn lemma_finish_keeps_songwriter(st: ParserModel)
    requires
        st.track matches Some(t) && t.songwriter is Some,
    ensures
        finish_spec(st) matches Ok(c) ==> c.files.len() > 0 && c.files.last().tracks.len() > 0
            && c.files.last().tracks.last().songwriter == st.track->0.songwriter,
{
}

/// Reading the input: where a track is open before a `SONGWRITER` line with a value,
/// the track stays open after it with that value as its songwriter.
pub proof fn lemma_songwriter_line_in_input(lines: Seq<Seq<char>>, n: nat)
    requires
        n < lines.len(),
        run_lines(lines, n) matches StepOutcome::Next(st) && st.track is Some,
        raw_command(lines[n as int]) == Some(Command::Songwriter),
        raw_args(lines[n as int]).len() >= 1,
    ensures
        run_lines(lines, n + 1) matches StepOutcome::Next(st2) && st2.track is Some
            && st2.track->0.songwriter == Some(line_value(trim(TrimKind::Whitespace, lines[n as int]))),
{
    let line = trim(TrimKind::Whitespace, lines[n as int]);
    if let StepOutcome::Next(st) = run_lines(lines, n) {
        lemma_songwriter_line(st, n, line, line_rem_field(words(line)));
    }
}

/// A `PERFORMER` line with a value sets the performer of the open track, else of the
/// open file, else the album performer if none was seen yet; nothing else changes.
pub proof fn lemma_performer_line(st: ParserModel, k: nat, line: Seq<char>, rem: RemField)
    requires
        words(line).len() >= 2,
    ensures
        step_spec(st, k, line, Command::Performer, rem) == StepOutcome::Next(
            if st.track is Some {
                ParserModel { track: Some(TrackModel { performer: Some(line_value(line)), ..st.track->0 }), ..st }
            } else if st.file is Some {
                ParserModel { file: Some(FileModel { performer: Some(line_value(line)), ..st.file->0 }), ..st }
            } else if st.buf_performer is None {
                ParserModel { buf_performer: Some(line_value(line)), ..st }
            } else {
                st
            },
        ),
{
}

/// A `TITLE` line with a value sets the title of the open track, else of the open
/// file, else the album title if none was seen yet; nothing else changes.
pub proof fn lemma_title_line(st: ParserModel, k: nat, line: Seq<char>, rem: RemField)
    requires
        words(line).len() >= 2,
    ensures
        step_spec(st, k, line, Command::Title, rem) == StepOutcome::Next(
            if st.track is Some {
                ParserModel { track: Some(TrackModel { title: Some(line_value(line)), ..st.track->0 }), ..st }
            } else if st.file is Some {
                ParserModel { file: Some(FileModel { title: Some(line_value(line)), ..st.file->0 }), ..st }
            } else if st.buf_title is None {
                ParserModel { buf_title: Some(line_value(line)), ..st }
            } else {
                st
            },
        ),
{
}

/// A `REM` line is kept as a comment; with a track open, `REM PERFORMER`,
/// `REM SONGWRITER` and `REM TITLE` followed by a value also set that field of the
/// track to the value (the words after the field, joined, without quotes).
pub proof fn lemma_rem_line(st: ParserModel, k: nat, line: Seq<char>, rem: RemField)
    requires
        words(line).len() >= 1,
    ensures
        step_spec(st, k, line, Command::Rem, rem) matches StepOutcome::Next(st2) && st2.cue.comments
            == st.cue.comments.push(line) && ({
            let v = trim(TrimKind::Quote, join(words(line).drop_first().drop_first(), ' '));
            (st.track is Some && words(line).len() >= 3) ==> st2.track == Some(match rem {
                RemField::Performer => TrackModel { performer: Some(v), ..st.track->0 },
                RemField::Songwriter => TrackModel { songwriter: Some(v), ..st.track->0 },
                RemField::Title => TrackModel { title: Some(v), ..st.track->0 },
                RemField::Other => st.track->0,
            })
        }),
{
}
} // verus!
