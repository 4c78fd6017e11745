use cuetter::text::{
    chars_of, is_whitespace, join_from, parse_unsigned_chars, split_chars, split_words, string_of,
    trim_chars, IntError, TrimKind,
};

const SAMPLES: &[&str] = &[
    "",
    " ",
    "abc",
    "  REM  DATE   1999 \t",
    "\u{3000}x\u{2028}y\u{85}",
    "\"\"quoted\"\"",
    "a:b::c:",
    ":",
    "\r\n line \r",
    "\u{a0}\u{1680}\u{200a}z\u{202f}\u{205f}",
];

fn chars(s: &str) -> Vec<char> {
    s.chars().collect()
}

fn words_of(v: &[Vec<char>]) -> Vec<String> {
    v.iter().map(|w| w.iter().collect()).collect()
}

#[test]
fn whitespace_is_the_unicode_property() {
    for code in 0u32..=0x10FFFF {
        if let Some(c) = char::from_u32(code) {
            assert_eq!(is_whitespace(c), c.is_whitespace(), "{:?}", c);
        }
    }
}

#[test]
fn trimming_matches_std() {
    for s in SAMPLES {
        let t: String = trim_chars(TrimKind::Whitespace, &chars(s)).iter().collect();
        assert_eq!(t, s.trim());
        let q: String = trim_chars(TrimKind::Quote, &chars(s)).iter().collect();
        assert_eq!(q, s.trim_matches('"'));
    }
}

#[test]
fn words_match_split_whitespace() {
    for s in SAMPLES {
        let w = words_of(&split_words(&chars(s)));
        let expected: Vec<String> = s.split_whitespace().map(|x| x.to_string()).collect();
        assert_eq!(w, expected);
    }
}

#[test]
fn splitting_matches_std() {
    for s in SAMPLES {
        let w = words_of(&split_chars(&chars(s), ':'));
        let expected: Vec<String> = s.split(':').map(|x| x.to_string()).collect();
        assert_eq!(w, expected);
    }
}

#[test]
fn joining_matches_std() {
    let parts = vec![chars("a"), chars("b c"), chars(""), chars("d")];
    let j: String = join_from(&parts, 0, ' ').iter().collect();
    assert_eq!(j, ["a", "b c", "", "d"].join(" "));
    let j: String = join_from(&parts, 1, ' ').iter().collect();
    assert_eq!(j, ["b c", "", "d"].join(" "));
    let j: String = join_from(&parts, 4, ' ').iter().collect();
    assert_eq!(j, "");
}

#[test]
fn numbers_match_std() {
    let cases = ["0", "255", "256", "+7", "-7", "+", "-", "", "12a", "007", "99999999999999999999", "18446744073709551615", "18446744073709551616", "1 2"];
    for s in cases {
        let mine = parse_unsigned_chars(&chars(s), 255);
        match s.parse::<u8>() {
            Ok(v) => assert_eq!(mine, Ok(v as u64), "{}", s),
            Err(e) => assert_eq!(mine.unwrap_err().message(), e.to_string(), "{}", s),
        }
        let mine = parse_unsigned_chars(&chars(s), u64::MAX);
        match s.parse::<u64>() {
            Ok(v) => assert_eq!(mine, Ok(v), "{}", s),
            Err(e) => assert_eq!(mine.unwrap_err().message(), e.to_string(), "{}", s),
        }
    }
    assert_eq!(parse_unsigned_chars(&chars(""), 9), Err(IntError::Empty));
}

#[test]
fn characters_round_trip_through_strings() {
    for s in SAMPLES {
        assert_eq!(chars_of(s), chars(s));
        assert_eq!(string_of(&chars(s)), s.to_string());
    }
}
