use cuetter::config::Config;
use cuetter::cue::{CueSheet, Time};
use cuetter::errors::FFmpregError;
use cuetter::parser::parse_cue;
use cuetter::splitter::{ffmpeg_args, plan_split, sanitize_filename, PlanItem, TrackPlan};

const SAMPLE: &str = "REM GENRE \"Rock\"
REM DATE 1999
PERFORMER \"The Band\"
TITLE \"Greatest Hits\"
FILE \"album.flac\" WAVE
  TRACK 01 AUDIO
    TITLE \"First/Song?\"
    INDEX 01 00:00:00
  TRACK 02 AUDIO
    TITLE \"Second\"
    PERFORMER \"Guest\"
    INDEX 00 03:10:00
    INDEX 01 03:12:00
  TRACK 03 AUDIO
    INDEX 00 05:00:00
";

fn split_items(c: &Config) -> Vec<PlanItem> {
    let cue = parse_cue(SAMPLE).unwrap();
    plan_split(&cue, c).unwrap()
}

fn job(item: &PlanItem) -> &TrackPlan {
    match item {
        PlanItem::Split(p) => p,
        PlanItem::Skipped(n) => panic!("track {} skipped", n),
    }
}

fn strings(v: &[&str]) -> Vec<String> {
    v.iter().map(|s| s.to_string()).collect()
}

#[test]
fn sanitize_replaces_forbidden_characters() {
    assert_eq!(sanitize_filename("a/b\\c:d*e?f\"g<h>i|j"), "a_b_c_d_e_f_g_h_i_j");
    assert_eq!(sanitize_filename("plain name"), "plain name");
    let once = sanitize_filename("x?y");
    assert_eq!(sanitize_filename(&once), once);
}

#[test]
fn a_sheet_without_files_cannot_be_split() {
    let cue = parse_cue("TITLE x").unwrap();
    assert!(matches!(plan_split(&cue, &Config::default()), Err(FFmpregError::EmptyCue(m)) if m == "No FILE entries found in CUE sheet"));
}

#[test]
fn tracks_start_and_end_at_their_indexes() {
    let items = split_items(&Config::default());
    assert_eq!(items.len(), 3);
    let t1 = job(&items[0]);
    assert_eq!(t1.number, 1);
    assert_eq!(t1.start, Time { minutes: 0, seconds: 0, frames: 0 });
    assert_eq!(t1.end, Some(Time { minutes: 3, seconds: 12, frames: 0 }));
    assert!(t1.has_duration);
    let t2 = job(&items[1]);
    assert_eq!(t2.start, Time { minutes: 3, seconds: 12, frames: 0 });
    assert_eq!(t2.end, None);
    assert!(!t2.has_duration);
    assert!(matches!(items[2], PlanItem::Skipped(3)));
}

#[test]
fn pregaps_move_the_start() {
    let mut c = Config::default();
    c.include_pregap = true;
    let items = split_items(&c);
    assert_eq!(job(&items[1]).start, Time { minutes: 3, seconds: 10, frames: 0 });
    assert_eq!(job(&items[0]).start, Time { minutes: 0, seconds: 0, frames: 0 });
}

#[test]
fn output_names_follow_the_known_texts() {
    let items = split_items(&Config::default());
    assert_eq!(job(&items[0]).output_name, "01 - The Band - First_Song_.flac");
    assert_eq!(job(&items[1]).output_name, "02 - Guest - Second.flac");
    let mut c = Config::default();
    c.format = "mp3".to_string();
    let cue = parse_cue("FILE a.wav WAVE\nTRACK 7 AUDIO\nINDEX 01 00:00:00\nTRACK 8 AUDIO\n").unwrap();
    let mut cue = cue;
    cue.files[0].tracks[1].performer = None;
    let items = plan_split(&cue, &c).unwrap();
    assert!(matches!(&items[1], PlanItem::Skipped(8)));
    let cue2 = plan_track_without_texts();
    let items = plan_split(&cue2, &c).unwrap();
    assert_eq!(job(&items[0]).output_name, "track07.mp3");
}

fn plan_track_without_texts() -> CueSheet {
    let mut cue = parse_cue("FILE a.wav WAVE\nTRACK 7 AUDIO\nINDEX 01 00:00:00\n").unwrap();
    cue.files[0].tracks[0].performer = None;
    cue.files[0].tracks[0].title = None;
    cue
}

#[test]
fn title_only_names() {
    let mut cue = parse_cue("FILE a.wav WAVE\nTRACK 12 AUDIO\nTITLE Song\nINDEX 01 00:00:00\n").unwrap();
    cue.files[0].tracks[0].performer = None;
    let items = plan_split(&cue, &Config::default()).unwrap();
    assert_eq!(job(&items[0]).output_name, "12 - Song.flac");
}

#[test]
fn tags_describe_the_track() {
    let items = split_items(&Config::default());
    assert_eq!(
        job(&items[0]).tags,
        strings(&[
            "ALBUM=Greatest Hits",
            "ARTIST=The Band",
            "PERFORMER=The Band",
            "TITLE=First/Song?",
            "TRACK=1",
            "TRACKNUMBER=1",
            "TOTALTRACKS=3",
            "GENRE=Rock",
            "DATE=1999",
        ])
    );
    let mut c = Config::default();
    c.skip_metadata = true;
    let items = split_items(&c);
    assert!(job(&items[0]).tags.is_empty());
}

#[test]
fn equal_start_and_end_have_no_duration() {
    let cue = parse_cue("FILE a.wav WAVE\nTRACK 1 AUDIO\nINDEX 01 01:00:00\nTRACK 2 AUDIO\nINDEX 01 01:00:00\n").unwrap();
    let items = plan_split(&cue, &Config::default()).unwrap();
    assert_eq!(job(&items[0]).end, Some(Time { minutes: 1, seconds: 0, frames: 0 }));
    assert!(!job(&items[0]).has_duration);
}

#[test]
fn splitter_error_texts() {
    assert_eq!(FFmpregError::CommandFailed("x".to_string()).to_string(), "FFmpeg command failed: x");
    assert_eq!(FFmpregError::OutputFileError("y".to_string()).to_string(), "Output file error: y");
    assert!(FFmpregError::NotFound.to_string().starts_with("FFmpeg not found in PATH."));
}

fn sample_plan(end: Option<Time>, has_duration: bool) -> TrackPlan {
    TrackPlan {
        number: 2,
        start: Time { minutes: 1, seconds: 0, frames: 0 },
        end,
        has_duration,
        output_name: "02 - B.flac".to_string(),
        tags: strings(&["TITLE=B", "TRACK=2"]),
    }
}

#[test]
fn ffmpeg_arguments_in_full() {
    let mut c = Config::default();
    c.bitrate = Some(320);
    c.overwrite = true;
    c.extra_args = strings(&["-vn"]);
    let plan = sample_plan(Some(Time { minutes: 2, seconds: 0, frames: 0 }), true);
    let args = ffmpeg_args(
        &plan,
        &c,
        &"album.flac".to_string(),
        &Some("cover.jpg".to_string()),
        &"60".to_string(),
        &Some("60".to_string()),
        &"out/02 - B.flac".to_string(),
    );
    assert_eq!(
        args,
        strings(&[
            "-ss", "60", "-i", "album.flac", "-i", "cover.jpg", "-t", "60", "-map", "0:a", "-map", "1:v",
            "-c:v", "png", "-disposition:v", "attached_pic", "-metadata:s:v", "title=\"Album cover\"",
            "-b:a", "320", "-metadata", "TITLE=B", "-metadata", "TRACK=2", "-vn", "-y",
            "out/02 - B.flac",
        ])
    );
}

#[test]
fn ffmpeg_arguments_without_cover_or_duration() {
    let c = Config::default();
    let plan = sample_plan(None, false);
    let args = ffmpeg_args(
        &plan,
        &c,
        &"a.wav".to_string(),
        &None,
        &"60".to_string(),
        &None,
        &"x.flac".to_string(),
    );
    assert_eq!(
        args,
        strings(&["-ss", "60", "-i", "a.wav", "-metadata", "TITLE=B", "-metadata", "TRACK=2", "x.flac"])
    );
    let ended = sample_plan(Some(Time { minutes: 1, seconds: 0, frames: 0 }), false);
    let args2 = ffmpeg_args(&ended, &c, &"a.wav".to_string(), &None, &"60".to_string(), &Some("0".to_string()), &"x.flac".to_string());
    assert_eq!(args2, args);
}
