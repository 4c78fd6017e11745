use cuetter::cue::Time;
use cuetter::errors::ParseError;
use cuetter::parser::parse_time;

fn message(e: ParseError) -> (String, String) {
    match e {
        ParseError::InvalidArguments(s) => ("arguments".to_string(), s),
        ParseError::InvalidTime(s) => ("time".to_string(), s),
        ParseError::InvalidNumber(s) => ("number".to_string(), s),
        ParseError::InvalidString(s) => ("string".to_string(), s),
        ParseError::InvalidStructure(s) => ("structure".to_string(), s),
    }
}

#[test]
fn total_frames_follows_its_formula() {
    let t = Time { minutes: 1, seconds: 2, frames: 3 };
    assert_eq!(t.total_frames(), 60 + 150 + 3);
    let max = Time { minutes: 255, seconds: 255, frames: 255 };
    assert_eq!(max.total_frames(), 255 * 60 + 255 * 75 + 255);
}

#[test]
fn parse_time_reads_three_fields() {
    let t = parse_time("01:02:03").unwrap();
    assert_eq!(t, Time { minutes: 1, seconds: 2, frames: 3 });
    let t = parse_time("120:59:74").unwrap();
    assert_eq!(t, Time { minutes: 120, seconds: 59, frames: 74 });
    let t = parse_time("+5:0:0").unwrap();
    assert_eq!(t, Time { minutes: 5, seconds: 0, frames: 0 });
}

#[test]
fn parse_time_refuses_wrong_field_count() {
    let (k, m) = message(parse_time("01:02").unwrap_err());
    assert_eq!(k, "time");
    assert_eq!(m, "01:02");
    let (k, m) = message(parse_time("01:02:03:04").unwrap_err());
    assert_eq!(k, "time");
    assert_eq!(m, "01:02:03:04");
}

#[test]
fn parse_time_refuses_out_of_range_seconds_and_frames() {
    let (k, m) = message(parse_time("00:60:00").unwrap_err());
    assert_eq!(k, "time");
    assert_eq!(m, "seconds must be <60, frames <75: 00:60:00");
    let (k, m) = message(parse_time("00:00:75").unwrap_err());
    assert_eq!(k, "time");
    assert_eq!(m, "seconds must be <60, frames <75: 00:00:75");
}

#[test]
fn parse_time_reports_number_errors() {
    let (k, m) = message(parse_time("aa:00:00").unwrap_err());
    assert_eq!(k, "number");
    assert_eq!(m, "invalid digit found in string");
    let (k, m) = message(parse_time("256:00:00").unwrap_err());
    assert_eq!(k, "number");
    assert_eq!(m, "number too large to fit in target type");
    let (k, m) = message(parse_time(":00:00").unwrap_err());
    assert_eq!(k, "number");
    assert_eq!(m, "cannot parse integer from empty string");
    let (k, m) = message(parse_time("-1:00:00").unwrap_err());
    assert_eq!(k, "number");
    assert_eq!(m, "invalid digit found in string");
    let (k, m) = message(parse_time("+:00:00").unwrap_err());
    assert_eq!(k, "number");
    assert_eq!(m, "invalid digit found in string");
}

#[test]
fn parse_time_checks_numbers_before_ranges() {
    let (k, _) = message(parse_time("00:99:x").unwrap_err());
    assert_eq!(k, "number");
}

#[test]
fn time_text_is_zero_padded() {
    assert_eq!(Time { minutes: 5, seconds: 7, frames: 9 }.to_string(), "05:07:09");
    assert_eq!(Time { minutes: 100, seconds: 59, frames: 74 }.to_string(), "100:59:74");
}

#[test]
fn time_text_parses_back() {
    for t in [
        Time { minutes: 0, seconds: 0, frames: 0 },
        Time { minutes: 9, seconds: 10, frames: 11 },
        Time { minutes: 255, seconds: 59, frames: 74 },
    ] {
        assert_eq!(parse_time(&t.to_string()).unwrap(), t);
    }
}
