use cuetter::builder::{command_from_upper, rem_field_from_upper, Command, CueParser, RemField};
use cuetter::cue::{CueSheet, Index, Time};
use cuetter::errors::ParseError;
use cuetter::parser::{parse_cue, try_parse_cue};

const SAMPLE: &str = "REM GENRE \"Rock\"\r
REM DATE 1999
PERFORMER \"The Band\"
title \"Greatest Hits\"
CATALOG 1234567890123

file \"album one.flac\" WAVE
  track 01 AUDIO
    TITLE \"First Song\"
    ISRC USABC0000001
    FLAGS DCP PRE
    INDEX 01 00:00:00
  TRACK 02 AUDIO
    TITLE \"Second\"
    PERFORMER \"Guest\"
    PREGAP 00:02:00
    INDEX 00 03:10:00
    INDEX 01 03:12:00
";

fn parsed() -> CueSheet {
    parse_cue(SAMPLE).unwrap()
}

fn error_of(input: &str) -> ParseError {
    match parse_cue(input) {
        Ok(_) => panic!("expected an error"),
        Err(e) => e,
    }
}

#[test]
fn sample_sheet_structure() {
    let cue = parsed();
    assert_eq!(cue.files.len(), 1);
    assert_eq!(cue.comments, vec!["REM GENRE \"Rock\"".to_string(), "REM DATE 1999".to_string()]);
    assert_eq!(cue.catalog, Some("1234567890123".to_string()));
    assert_eq!(cue.cd_text_file, None);
    let f = &cue.files[0];
    assert_eq!(f.filename, "album one.flac");
    assert_eq!(f.file_type, "WAVE");
    assert_eq!(f.performer, Some("The Band".to_string()));
    assert_eq!(f.title, Some("Greatest Hits".to_string()));
    assert_eq!(f.tracks.len(), 2);
}

#[test]
fn sample_sheet_tracks() {
    let cue = parsed();
    let t1 = &cue.files[0].tracks[0];
    assert_eq!(t1.number, 1);
    assert_eq!(t1.track_type, "AUDIO");
    assert_eq!(t1.title, Some("First Song".to_string()));
    assert_eq!(t1.performer, Some("The Band".to_string()));
    assert_eq!(t1.songwriter, None);
    assert_eq!(t1.isrc, Some("USABC0000001".to_string()));
    assert_eq!(t1.flags, vec!["DCP".to_string(), "PRE".to_string()]);
    assert_eq!(t1.indexes, vec![Index { number: 1, time: Time { minutes: 0, seconds: 0, frames: 0 } }]);
    let t2 = &cue.files[0].tracks[1];
    assert_eq!(t2.number, 2);
    assert_eq!(t2.title, Some("Second".to_string()));
    assert_eq!(t2.performer, Some("Guest".to_string()));
    assert_eq!(t2.songwriter, Some("Unknown".to_string()));
    assert_eq!(t2.pregap, Some(Time { minutes: 0, seconds: 2, frames: 0 }));
    assert_eq!(t2.postgap, None);
    assert_eq!(t2.indexes.len(), 2);
    assert_eq!(t2.indexes[0], Index { number: 0, time: Time { minutes: 3, seconds: 10, frames: 0 } });
}

#[test]
fn last_track_gets_unknown_texts() {
    let cue = parse_cue("FILE a.wav WAVE\nTRACK 01 AUDIO\nINDEX 01 00:00:00\n").unwrap();
    let t = &cue.files[0].tracks[0];
    assert_eq!(t.performer, Some("Unknown".to_string()));
    assert_eq!(t.songwriter, Some("Unknown".to_string()));
    assert_eq!(t.title, Some("Unknown".to_string()));
}

#[test]
fn rem_fields_set_the_current_track() {
    let cue = parse_cue("FILE a.wav WAVE\nTRACK 01 AUDIO\nrem songwriter \"Jane Doe\"\nREM PERFORMER x\nREM TITLE y\nREM COMMENT z w\n").unwrap();
    let t = &cue.files[0].tracks[0];
    assert_eq!(t.songwriter, Some("Jane Doe".to_string()));
    assert_eq!(t.performer, Some("x".to_string()));
    assert_eq!(t.title, Some("y".to_string()));
    assert_eq!(cue.comments.len(), 4);
    assert_eq!(cue.comments[0], "rem songwriter \"Jane Doe\"");
}

#[test]
fn files_collect_their_tracks() {
    let cue = parse_cue("FILE a.wav WAVE\nTRACK 1 AUDIO\nFILE b.wav WAVE\nTRACK 2 AUDIO\nTRACK 3 MODE1/2048\n").unwrap();
    assert_eq!(cue.files.len(), 2);
    assert_eq!(cue.files[0].tracks.len(), 1);
    assert_eq!(cue.files[0].tracks[0].performer, None);
    assert_eq!(cue.files[1].tracks.len(), 2);
    assert_eq!(cue.files[1].tracks[1].track_type, "MODE1/2048");
}

#[test]
fn empty_input_gives_empty_sheet() {
    let cue = parse_cue("").unwrap();
    assert!(cue.files.is_empty());
    assert!(cue.comments.is_empty());
    let cue = parse_cue("\n   \n\t\n").unwrap();
    assert!(cue.files.is_empty());
}

#[test]
fn unknown_commands_are_ignored() {
    let cue = parse_cue("SOMETHING else\nFILE a.wav WAVE\n").unwrap();
    assert_eq!(cue.files.len(), 1);
}

#[test]
fn cd_text_file_is_read_quoted() {
    let cue = parse_cue("CDTEXTFILE \"text.cdt\"\n").unwrap();
    assert_eq!(cue.cd_text_file, Some("text.cdt".to_string()));
    assert!(matches!(error_of("CDTEXTFILE \"x\n"), ParseError::InvalidString(m) if m == "Unterminated quoted string"));
}

#[test]
fn argument_errors_name_the_line() {
    assert!(matches!(error_of("\n\nPERFORMER"), ParseError::InvalidArguments(m) if m == "PERFORMER needs at least one argument at line 3"));
    assert!(matches!(error_of("SONGWRITER"), ParseError::InvalidArguments(m) if m == "SONGWRITER needs at least one argument at line 1"));
    assert!(matches!(error_of("TITLE"), ParseError::InvalidArguments(m) if m == "TITLE needs at least one argument at line 1"));
    assert!(matches!(error_of("FILE a b\nTRACK 01"), ParseError::InvalidArguments(m) if m == "TRACK needs at least 2 arguments at line 2"));
    assert!(matches!(error_of("INDEX 01"), ParseError::InvalidArguments(m) if m == "INDEX needs exactly 2 arguments at line 1"));
    assert!(matches!(error_of("CATALOG a b"), ParseError::InvalidArguments(m) if m == "CATALOG needs exactly 1 argument at line 1"));
    assert!(matches!(error_of("CDTEXTFILE a b"), ParseError::InvalidArguments(m) if m == "CDTEXTFILE needs exactly 1 argument at line 1"));
    assert!(matches!(error_of("ISRC"), ParseError::InvalidArguments(m) if m == "ISRC needs exactly 1 argument at line 1"));
    assert!(matches!(error_of("FLAGS"), ParseError::InvalidArguments(m) if m == "FLAGS needs at least one flag at line 1"));
    assert!(matches!(error_of("PREGAP"), ParseError::InvalidArguments(m) if m == "PREGAP needs exactly 1 argument at line 1"));
    assert!(matches!(error_of("POSTGAP 1 2"), ParseError::InvalidArguments(m) if m == "POSTGAP needs exactly 1 argument at line 1"));
}

#[test]
fn structure_errors_name_the_line() {
    assert!(matches!(error_of("TRACK 01 AUDIO"), ParseError::InvalidStructure(m) if m == "TRACK outside FILE at line 1"));
    assert!(matches!(error_of("FILE a b\nINDEX 01 00:00:00"), ParseError::InvalidStructure(m) if m == "INDEX outside TRACK at line 2"));
    assert!(matches!(error_of("ISRC X"), ParseError::InvalidStructure(m) if m == "ISRC outside TRACK at line 1"));
    assert!(matches!(error_of("FLAGS DCP"), ParseError::InvalidStructure(m) if m == "FLAGS outside TRACK at line 1"));
}

#[test]
fn number_and_time_errors() {
    assert!(matches!(error_of("FILE a b\nTRACK x AUDIO"), ParseError::InvalidNumber(m) if m == "invalid digit found in string"));
    assert!(matches!(error_of("FILE a b\nTRACK 300 AUDIO"), ParseError::InvalidNumber(m) if m == "number too large to fit in target type"));
    assert!(matches!(error_of("FILE a b\nTRACK 1 AUDIO\nINDEX 01 00:61:00"), ParseError::InvalidTime(m) if m == "seconds must be <60, frames <75: 00:61:00"));
    assert!(matches!(error_of("FILE a b\nTRACK 1 AUDIO\nINDEX 01 0000"), ParseError::InvalidTime(m) if m == "0000"));
    assert!(matches!(error_of("FILE \"a b"), ParseError::InvalidString(m) if m == "Unterminated quoted filename"));
}

#[test]
fn gaps_outside_a_track_are_ignored() {
    let cue = parse_cue("PREGAP 00:01:00\nPOSTGAP 00:01:00\n").unwrap();
    assert!(cue.files.is_empty());
}

#[test]
fn file_line_without_arguments_does_not_parse() {
    assert!(try_parse_cue("FILE").is_none());
    assert!(try_parse_cue("TITLE x\n  file  \nTRACK 1 A").is_none());
    assert!(matches!(try_parse_cue("TRACK 1 A\nFILE"), Some(Err(ParseError::InvalidStructure(_)))));
    assert!(matches!(try_parse_cue("FILE a b"), Some(Ok(_))));
}

#[test]
fn album_texts_seen_first_are_kept_first() {
    let cue = parse_cue("PERFORMER A\nPERFORMER B\nTITLE T1\nTITLE T2\nSONGWRITER S1\nSONGWRITER S2\nFILE f w\nTRACK 1 AUDIO\n").unwrap();
    let f = &cue.files[0];
    assert_eq!(f.performer, Some("A".to_string()));
    assert_eq!(f.title, Some("T1".to_string()));
    assert_eq!(f.tracks[0].songwriter, Some("S1".to_string()));
}

#[test]
fn file_level_texts_go_to_the_file() {
    let cue = parse_cue("FILE f w\nPERFORMER P\nTITLE T\nSONGWRITER S\nTRACK 1 AUDIO\n").unwrap();
    let f = &cue.files[0];
    assert_eq!(f.performer, Some("P".to_string()));
    assert_eq!(f.title, Some("T".to_string()));
    assert_eq!(f.tracks[0].songwriter, Some("S".to_string()));
    assert_eq!(f.tracks[0].performer, Some("Unknown".to_string()));
}

#[test]
fn commands_are_named_by_upper_case_words() {
    assert_eq!(command_from_upper("REM"), Command::Rem);
    assert_eq!(command_from_upper("CDTEXTFILE"), Command::CdTextFile);
    assert_eq!(command_from_upper("POSTGAP"), Command::Postgap);
    assert_eq!(command_from_upper("rem"), Command::Unknown);
    assert_eq!(rem_field_from_upper("SONGWRITER"), RemField::Songwriter);
    assert_eq!(rem_field_from_upper("DATE"), RemField::Other);
}

#[test]
fn parser_steps_one_line_at_a_time() {
    let mut p = CueParser::new();
    p.step(0, "FILE a.wav WAVE", Command::File, RemField::Other).unwrap();
    p.step(1, "TRACK 01 AUDIO", Command::Track, RemField::Other).unwrap();
    let err = p.step(2, "INDEX 01", Command::Index, RemField::Other);
    assert!(matches!(err, Err(ParseError::InvalidArguments(m)) if m == "INDEX needs exactly 2 arguments at line 3"));
    p.step(3, "INDEX 01 00:00:10", Command::Index, RemField::Other).unwrap();
    let cue = p.finish().unwrap();
    assert_eq!(cue.files[0].tracks[0].indexes, vec![Index { number: 1, time: Time { minutes: 0, seconds: 0, frames: 10 } }]);
}

#[test]
fn parser_track_without_file_fails_at_the_end() {
    let mut p = CueParser::new();
    p.step(0, "TITLE x", Command::Title, RemField::Other).unwrap();
    assert!(p.finish().is_ok());
}

#[test]
fn summary_lists_files_tracks_and_indexes() {
    let lines = parsed().summary();
    let expected = vec![
        "CUE file parsed successfully:",
        "  Files: 1",
        "  FILE: album one.flac (WAVE)",
        "  Tracks: 2",
        "  Album: Greatest Hits",
        "    Track 01: AUDIO",
        "      Title: First Song",
        "      Performer: The Band",
        "      INDEX 01: 00:00:00",
        "    Track 02: AUDIO",
        "      Title: Second",
        "      Performer: Guest",
        "      INDEX 00: 03:10:00",
        "      INDEX 01: 03:12:00",
    ];
    assert_eq!(lines, expected.iter().map(|s| s.to_string()).collect::<Vec<_>>());
}

#[test]
fn parsed_sheets_keep_their_promises() {
    let cue = parse_cue("REM A b\nfile a.wav WAVE\nTRACK 1 AUDIO\nINDEX 01 00:59:74\nPOSTGAP 01:00:00\nRem x\n").unwrap();
    for c in &cue.comments {
        let first = c.split_whitespace().next().unwrap();
        assert_eq!(first.to_uppercase(), "REM");
    }
    for f in &cue.files {
        for t in &f.tracks {
            for i in &t.indexes {
                assert!(i.time.seconds < 60 && i.time.frames < 75);
            }
            if let Some(p) = &t.postgap {
                assert!(p.seconds < 60 && p.frames < 75);
            }
        }
    }
    let last = cue.files.last().unwrap().tracks.last().unwrap();
    assert!(last.performer.is_some() && last.songwriter.is_some() && last.title.is_some());
}

#[test]
fn unknown_commands_are_listed_with_their_lines() {
    let notes = cuetter::parser::unknown_commands("FILE a b\n  bogus x\n\nTRACK 1 AUDIO\nrem x\nwhat\n");
    assert_eq!(notes, vec![(1, "BOGUS".to_string()), (5, "WHAT".to_string())]);
}

#[test]
fn unknown_command_notices_stop_where_parsing_stops() {
    let failing = "foo 1\nTITLE\nbar 2\n";
    assert!(parse_cue(failing).is_err());
    assert_eq!(cuetter::parser::unknown_commands(failing), vec![(0, "FOO".to_string())]);
    let stuck = "foo\nFILE\nbar\n";
    assert!(try_parse_cue(stuck).is_none());
    assert_eq!(cuetter::parser::unknown_commands(stuck), vec![(0, "FOO".to_string())]);
}

fn sheet_text(c: &CueSheet) -> String {
    let mut out = format!("{:?} {:?} {:?}", c.comments, c.catalog, c.cd_text_file);
    for f in &c.files {
        out += &format!(" [{} {} {:?} {:?}", f.filename, f.file_type, f.performer, f.title);
        for t in &f.tracks {
            out += &format!(
                " ({} {} {:?} {:?} {:?} {:?} {:?} {:?} {:?} {:?})",
                t.number, t.track_type, t.isrc, t.flags, t.indexes, t.performer, t.songwriter, t.title,
                t.pregap, t.postgap
            );
        }
        out += "]";
    }
    out
}

#[test]
fn an_unknown_line_at_the_end_changes_nothing() {
    let base = "PERFORMER \"A\"\nFILE \"x.flac\" WAVE\n  TRACK 01 AUDIO\n    INDEX 01 00:00:00";
    let longer = format!("{}\n  GARBAGE with words", base);
    let blank = format!("{}\n   ", base);
    let a = sheet_text(&parse_cue(base).unwrap());
    assert_eq!(sheet_text(&parse_cue(&longer).unwrap()), a);
    assert_eq!(sheet_text(&parse_cue(&blank).unwrap()), a);
    let bad = "TITLE";
    let e = format!("{:?}", error_of(bad));
    assert_eq!(format!("{:?}", error_of(&format!("{}\nnonsense", bad))), e);
}

#[test]
fn files_tracks_and_comments_follow_the_lines() {
    let input = "REM A 1\nFILE a.wav WAVE\n TRACK 03 AUDIO\nrem   B 2  \n TRACK 01 AUDIO\nFILE b.wav WAVE\n TRACK 07 AUDIO\nREM C";
    let cue = parse_cue(input).unwrap();
    assert_eq!(cue.comments, vec!["REM A 1".to_string(), "rem   B 2".to_string(), "REM C".to_string()]);
    let names: Vec<&str> = cue.files.iter().map(|f| f.filename.as_str()).collect();
    assert_eq!(names, vec!["a.wav", "b.wav"]);
    let numbers: Vec<u8> = cue.files.iter().flat_map(|f| f.tracks.iter().map(|t| t.number)).collect();
    assert_eq!(numbers, vec![3, 1, 7]);
}

#[test]
fn command_words_are_upper_cased_in_ascii() {
    let notes = cuetter::parser::unknown_commands("zebra-9 x\nMiXeD_w0rd");
    assert_eq!(notes, vec![(0, "ZEBRA-9".to_string()), (1, "MIXED_W0RD".to_string())]);
}

#[test]
fn default_sheet_is_empty() {
    let c = CueSheet::default();
    assert!(c.files.is_empty() && c.comments.is_empty());
    assert_eq!(c.catalog, None);
    assert_eq!(c.cd_text_file, None);
}
