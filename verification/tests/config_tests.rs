use cuetter::config::{parse_config, validate_input_path, validate_output_path, Args, Config, ConfigWarning};
use cuetter::errors::ConfigError;

fn strings(v: &[&str]) -> Vec<String> {
    v.iter().map(|s| s.to_string()).collect()
}

fn pairs(v: &[(&str, &str)]) -> Vec<(String, String)> {
    v.iter().map(|(a, b)| (a.to_string(), b.to_string())).collect()
}

#[test]
fn default_configuration() {
    let c = Config::default();
    assert_eq!(c.ffmpreg_path, "ffmpeg");
    assert_eq!(c.format, "flac");
    assert_eq!(c.output_dir, Some(".".to_string()));
    assert_eq!(c.input_cue, None);
    assert_eq!(c.bitrate, None);
    assert!(!c.dry_run && !c.verbose && !c.overwrite && !c.skip_metadata);
    assert!(c.extra_args.is_empty());
    assert!(c.validate().is_ok());
    assert!(c.warnings().is_empty());
}

#[test]
fn zero_bitrate_is_refused() {
    let mut c = Config::default();
    c.bitrate = Some(0);
    assert!(matches!(c.validate(), Err(ConfigError::InvalidNumber(m)) if m == "Bitrate must be positive"));
    c.bitrate = Some(320);
    assert!(c.validate().is_ok());
}

#[test]
fn unusual_rates_and_channels_are_warned_about() {
    let mut c = Config::default();
    c.sample_rate = Some(22050);
    c.channels = Some(6);
    let w = c.warnings();
    assert_eq!(w, vec![ConfigWarning::UnusualSampleRate(22050), ConfigWarning::UnusualChannels(6)]);
    assert_eq!(w[0].to_string(), "Warning: Unusual sample rate: 22050");
    assert_eq!(w[1].to_string(), "Warning: Unusual channel count: 6");
    c.sample_rate = Some(48000);
    c.channels = Some(2);
    assert!(c.warnings().is_empty());
}

#[test]
fn arguments_are_sorted_by_kind() {
    let a = Args::parse(&strings(&["album.cue", "-v", "-f", "mp3", "--dry-run", "--", "-y", "--", "z", "-"]));
    assert_eq!(a.positionals, strings(&["album.cue"]));
    assert_eq!(a.flags, strings(&["-v", "--dry-run"]));
    assert_eq!(a.options, pairs(&[("-f", "mp3")]));
    assert_eq!(a.extra_args, strings(&["-y", "z", "-"]));
}

#[test]
fn a_dash_alone_is_positional() {
    let a = Args::parse(&strings(&["-", "x"]));
    assert_eq!(a.positionals, strings(&["-", "x"]));
    assert!(a.flags.is_empty());
}

#[test]
fn repeated_options_keep_the_last_value() {
    let a = Args::parse(&strings(&["-f", "a", "-b", "1", "-f", "b"]));
    assert_eq!(a.options, pairs(&[("-f", "b"), ("-b", "1")]));
}

#[test]
fn a_dashed_value_makes_a_flag() {
    let a = Args::parse(&strings(&["-o", "-v"]));
    assert_eq!(a.flags, strings(&["-o", "-v"]));
    assert!(a.options.is_empty());
}

#[test]
fn configuration_from_arguments() {
    let a = Args::parse(&strings(&["x.cue", "-w", "--pregap", "-o", "out", "-b", "320", "-r", "48000", "-c", "2", "-i", "audio.flac", "--", "-af", "volume=2"]));
    let c = parse_config(&a, &Some("/usr/bin/ffmpeg".to_string()), &strings(&["x.cue", "audio.flac"])).unwrap();
    assert_eq!(c.ffmpreg_path, "/usr/bin/ffmpeg");
    assert_eq!(c.input_cue, Some("x.cue".to_string()));
    assert_eq!(c.input_file, Some("audio.flac".to_string()));
    assert_eq!(c.output_dir, Some("out".to_string()));
    assert_eq!(c.bitrate, Some(320));
    assert_eq!(c.sample_rate, Some(48000));
    assert_eq!(c.channels, Some(2));
    assert!(c.overwrite && c.include_pregap && !c.include_postgap);
    assert_eq!(c.extra_args, strings(&["-af", "volume=2"]));
}

#[test]
fn help_and_about_flags_stop_parsing() {
    let a = Args::parse(&strings(&["-h"]));
    assert!(matches!(parse_config(&a, &None, &Vec::new()), Err(ConfigError::GetHelp)));
    let a = Args::parse(&strings(&["--version"]));
    assert!(matches!(parse_config(&a, &None, &Vec::new()), Err(ConfigError::GetAbout)));
}

#[test]
fn bad_numbers_are_refused() {
    let a = Args::parse(&strings(&["-b", "fast"]));
    assert!(matches!(parse_config(&a, &None, &Vec::new()), Err(ConfigError::InvalidNumber(m)) if m == "invalid digit found in string"));
    let a = Args::parse(&strings(&["-c", "300"]));
    assert!(matches!(parse_config(&a, &None, &Vec::new()), Err(ConfigError::InvalidNumber(m)) if m == "number too large to fit in target type"));
    let a = Args::parse(&strings(&["-b", "0"]));
    assert!(matches!(parse_config(&a, &None, &Vec::new()), Err(ConfigError::InvalidNumber(m)) if m == "Bitrate must be positive"));
}

#[test]
fn missing_inputs_are_refused() {
    let a = Args::parse(&strings(&["missing.cue"]));
    assert!(matches!(parse_config(&a, &None, &Vec::new()), Err(ConfigError::FileNotFound(m)) if m == "missing.cue"));
    let a = Args::parse(&strings(&["--input", "gone.wav"]));
    assert!(matches!(parse_config(&a, &None, &Vec::new()), Err(ConfigError::FileNotFound(m)) if m == "gone.wav"));
}

#[test]
fn input_and_output_paths() {
    assert_eq!(validate_input_path("a.cue", true).unwrap(), "a.cue");
    assert!(matches!(validate_input_path("b.cue", false), Err(ConfigError::FileNotFound(m)) if m == "b.cue"));
    assert_eq!(validate_output_path("out/dir"), "out/dir");
}

#[test]
fn config_error_texts() {
    assert_eq!(ConfigError::FileNotFound("x".to_string()).to_string(), "File not found: x");
    assert_eq!(ConfigError::InvalidNumber("y".to_string()).to_string(), "Invalid number: y");
    assert_eq!(ConfigError::UnspecifiedCue.to_string(), "Cue file not specified. Use -h (--help) to read more");
}

#[test]
fn unknown_flags_and_options_are_listed() {
    let a = Args::parse(&strings(&["-v", "--shout", "-q", "-x", "1", "-f", "mp3", "--bogus", "2"]));
    assert_eq!(a.unknown_flags(), strings(&["--shout", "-q"]));
    assert_eq!(a.unknown_options(&Vec::new()), strings(&["-x", "--bogus"]));
}

#[test]
fn flag_notices_stop_at_a_request_for_help() {
    let a = Args::parse(&strings(&["--shout", "-h", "-q", "-x", "1"]));
    assert_eq!(a.unknown_flags(), strings(&["--shout"]));
    assert_eq!(a.unknown_options(&Vec::new()), Vec::<String>::new());
    let b = Args::parse(&strings(&["--about", "--shout"]));
    assert!(b.unknown_flags().is_empty());
}

#[test]
fn option_notices_stop_at_a_failing_option() {
    let a = Args::parse(&strings(&["-x", "1", "-b", "fast", "--bogus", "2"]));
    assert_eq!(a.unknown_options(&Vec::new()), strings(&["-x"]));
    let b = Args::parse(&strings(&["-x", "1", "-i", "missing.flac", "--bogus", "2"]));
    assert_eq!(b.unknown_options(&Vec::new()), strings(&["-x"]));
    assert_eq!(b.unknown_options(&strings(&["missing.flac"])), strings(&["-x", "--bogus"]));
}

#[test]
fn everything_after_the_first_double_dash_is_extra() {
    let a = Args::parse(&strings(&["song.cue", "-v", "--", "-x", "--", "y", "-q", "z"]));
    assert_eq!(a.flags, strings(&["-v"]));
    assert_eq!(a.positionals, strings(&["song.cue"]));
    assert!(a.options.is_empty());
    assert_eq!(a.extra_args, strings(&["-x", "y", "-q", "z"]));
}

#[test]
fn a_double_dash_is_never_an_option_value() {
    let a = Args::parse(&strings(&["-o", "--", "out"]));
    assert_eq!(a.flags, strings(&["-o"]));
    assert!(a.options.is_empty());
    assert!(a.positionals.is_empty());
    assert_eq!(a.extra_args, strings(&["out"]));
}

#[test]
fn flags_and_positionals_keep_their_order() {
    let a = Args::parse(&strings(&["b.cue", "-w", "-f", "mp3", "a.cue", "c.cue", "-v"]));
    assert_eq!(a.flags, strings(&["-w", "-v"]));
    assert_eq!(a.positionals, strings(&["b.cue", "a.cue", "c.cue"]));
    assert_eq!(a.options, pairs(&[("-f", "mp3")]));
}
