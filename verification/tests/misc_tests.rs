use cuetter::errors::{ParseError, PipeError};
use cuetter::pipe::pipe_text;
use cuetter::text::{decimal_string, IntError};

#[test]
fn pipe_bytes_become_text() {
    assert!(matches!(pipe_text(Vec::new()), Err(PipeError::EmptyPipe)));
    assert!(matches!(pipe_text(vec![0xff, 0xfe]), Err(PipeError::BinaryPipe)));
    assert_eq!(pipe_text("FILE a b\né".as_bytes().to_vec()).unwrap(), "FILE a b\né");
}

#[test]
fn parse_error_texts() {
    assert_eq!(ParseError::InvalidArguments("a".to_string()).to_string(), "Invalid arguments: a");
    assert_eq!(ParseError::InvalidTime("b".to_string()).to_string(), "Invalid time format: b");
    assert_eq!(ParseError::InvalidNumber("c".to_string()).to_string(), "Invalid number: c");
    assert_eq!(ParseError::InvalidString("d".to_string()).to_string(), "Invalid string: d");
    assert_eq!(ParseError::InvalidStructure("e".to_string()).to_string(), "Invalid structure: e");
}

#[test]
fn pipe_error_texts() {
    assert_eq!(PipeError::OtherErr("x".to_string()).to_string(), "Pipe error: x");
}

#[test]
fn decimal_numbers() {
    assert_eq!(decimal_string(0), "0");
    assert_eq!(decimal_string(1999), "1999");
    assert_eq!(decimal_string(u64::MAX), u64::MAX.to_string());
}

#[test]
fn int_error_texts_match_std() {
    assert_eq!(IntError::Empty.message(), "".parse::<u8>().unwrap_err().to_string());
    assert_eq!(IntError::InvalidDigit.message(), "x".parse::<u8>().unwrap_err().to_string());
    assert_eq!(IntError::PosOverflow.message(), "300".parse::<u8>().unwrap_err().to_string());
}
