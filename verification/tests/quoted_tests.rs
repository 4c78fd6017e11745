use cuetter::errors::ParseError;
use cuetter::parser::{parse_file_line, parse_quoted_string};

fn strings(v: &[&str]) -> Vec<String> {
    v.iter().map(|s| s.to_string()).collect()
}

#[test]
fn quoted_words_are_joined_without_quotes() {
    let r = parse_quoted_string(&strings(&["\"Hello", "World\""])).unwrap();
    assert_eq!(r, "Hello World");
}

#[test]
fn unquoted_words_are_joined_with_spaces() {
    let r = parse_quoted_string(&strings(&["plain", "text"])).unwrap();
    assert_eq!(r, "plain text");
}

#[test]
fn words_after_the_closing_quote_are_dropped() {
    let r = parse_quoted_string(&strings(&["\"a\"", "extra"])).unwrap();
    assert_eq!(r, "a");
}

#[test]
fn a_lone_quote_starts_a_quoted_text() {
    let r = parse_quoted_string(&strings(&["\"", "x\""])).unwrap();
    assert_eq!(r, " x");
}

#[test]
fn empty_and_unterminated_quoted_strings_are_refused() {
    assert!(matches!(parse_quoted_string(&Vec::new()), Err(ParseError::InvalidString(m)) if m == "Empty string"));
    assert!(matches!(parse_quoted_string(&strings(&["\"open", "end"])),
        Err(ParseError::InvalidString(m)) if m == "Unterminated quoted string"));
}

#[test]
fn file_line_with_quoted_name() {
    let (name, ty) = parse_file_line(&strings(&["\"My", "Album.wav\"", "WAVE"])).unwrap();
    assert_eq!(name, "My Album.wav");
    assert_eq!(ty, "WAVE");
}

#[test]
fn file_line_with_plain_name() {
    let (name, ty) = parse_file_line(&strings(&["a.wav", "BINARY", "X"])).unwrap();
    assert_eq!(name, "a.wav");
    assert_eq!(ty, "BINARY X");
    let (name, ty) = parse_file_line(&strings(&["a.wav"])).unwrap();
    assert_eq!(name, "a.wav");
    assert_eq!(ty, "");
}

#[test]
fn file_line_with_unterminated_name() {
    assert!(matches!(parse_file_line(&strings(&["\"x", "y"])),
        Err(ParseError::InvalidString(m)) if m == "Unterminated quoted filename"));
}

#[test]
fn quoted_word_reads_back() {
    let r = parse_quoted_string(&strings(&["\"word\""])).unwrap();
    assert_eq!(r, "word");
    let (name, ty) = parse_file_line(&strings(&["\"word\"", "MP3"])).unwrap();
    assert_eq!(name, "word");
    assert_eq!(ty, "MP3");
}
