//! The errors of parsing, configuration, reading input and running the splitter.
use vstd::prelude::*;

verus! {

/// Why a CUE sheet could not be parsed.
#[derive(Debug)]
pub enum ParseError {
    InvalidArguments(String),
    InvalidTime(String),
    InvalidNumber(String),
    InvalidString(String),
    InvalidStructure(String),
}

/// A parse error with its message as a character sequence.
pub enum ParseErrorModel {
    InvalidArguments(Seq<char>),
    InvalidTime(Seq<char>),
    InvalidNumber(Seq<char>),
    InvalidString(Seq<char>),
    InvalidStructure(Seq<char>),
}

impl View for ParseError {
    type V = ParseErrorModel;

    open spec fn view(&self) -> ParseErrorModel {
        match self {
            ParseError::InvalidArguments(s) => ParseErrorModel::InvalidArguments(s@),
            ParseError::InvalidTime(s) => ParseErrorModel::InvalidTime(s@),
            ParseError::InvalidNumber(s) => ParseErrorModel::InvalidNumber(s@),
            ParseError::InvalidString(s) => ParseErrorModel::InvalidString(s@),
            ParseError::InvalidStructure(s) => ParseErrorModel::InvalidStructure(s@),
        }
    }
}

/// The text shown for a parse error.
pub open spec fn parse_error_text(e: ParseErrorModel) -> Seq<char> {
    match e {
        ParseErrorModel::InvalidArguments(s) => "Invalid arguments: "@ + s,
        ParseErrorModel::InvalidTime(s) => "Invalid time format: "@ + s,
        ParseErrorModel::InvalidNumber(s) => "Invalid number: "@ + s,
        ParseErrorModel::InvalidString(s) => "Invalid string: "@ + s,
        ParseErrorModel::InvalidStructure(s) => "Invalid structure: "@ + s,
    }
}

/// `prefix` followed by `s`.
fn prefixed(prefix: &str, s: &String) -> (r: String)
    ensures
        r@ == prefix@ + s@,
{
    let mut r = String::from_str(prefix);
    r.append(s.as_str());
    r
}

impl ParseError {
    /// The text shown for this error.
    pub fn to_string(&self) -> (s: String)
        ensures
            s@ == parse_error_text(self@),
    {
        match self {
            ParseError::InvalidArguments(s) => prefixed("Invalid arguments: ", s),
            ParseError::InvalidTime(s) => prefixed("Invalid time format: ", s),
            ParseError::InvalidNumber(s) => prefixed("Invalid number: ", s),
            ParseError::InvalidString(s) => prefixed("Invalid string: ", s),
            ParseError::InvalidStructure(s) => prefixed("Invalid structure: ", s),
        }
    }
}

/// Why splitting the audio failed.
#[derive(Debug)]
pub enum FFmpregError {
    NotFound,
    CommandFailed(String),
    OutputFileError(String),
    InvalidTime(String),
    EmptyCue(String),
    InputFileError(String),
}

/// The text shown for an `FFmpregError`.
pub open spec fn ffmpreg_error_text(e: &FFmpregError) -> Seq<char> {
    match e {
        FFmpregError::NotFound =>
            "FFmpeg not found in PATH. Please install FFmpeg or provide custom path via 'ffmpeg' enviroment variable."@,
        FFmpregError::CommandFailed(s) => "FFmpeg command failed: "@ + s@,
        FFmpregError::OutputFileError(s) => "Output file error: "@ + s@,
        FFmpregError::InvalidTime(s) => "Invalid time format: "@ + s@,
        FFmpregError::EmptyCue(s) => "Empty CUE sheet: "@ + s@,
        FFmpregError::InputFileError(s) => "Input file not found: "@ + s@,
    }
}

impl FFmpregError {
    /// The text shown for this error.
    pub fn to_string(&self) -> (s: String)
        ensures
            s@ == ffmpreg_error_text(self),
    {
        match self {
            FFmpregError::NotFound => String::from_str(
                "FFmpeg not found in PATH. Please install FFmpeg or provide custom path via 'ffmpeg' enviroment variable.",
            ),
            FFmpregError::CommandFailed(s) => prefixed("FFmpeg command failed: ", s),
            FFmpregError::OutputFileError(s) => prefixed("Output file error: ", s),
            FFmpregError::InvalidTime(s) => prefixed("Invalid time format: ", s),
            FFmpregError::EmptyCue(s) => prefixed("Empty CUE sheet: ", s),
            FFmpregError::InputFileError(s) => prefixed("Input file not found: ", s),
        }
    }
}

/// Why the command line could not be turned into a configuration.
#[derive(Debug)]
pub enum ConfigError {
    FileNotFound(String),
    InvalidNumber(String),
    UnspecifiedCue,
    /// `-h` / `--help` was given: show the usage text.
    GetHelp,
    /// `--about` / `--version` was given: show the version text.
    GetAbout,
}

/// A configuration error with its message as a character sequence.
pub enum ConfigErrorModel {
    FileNotFound(Seq<char>),
    InvalidNumber(Seq<char>),
    UnspecifiedCue,
    GetHelp,
    GetAbout,
}

impl View for ConfigError {
    type V = ConfigErrorModel;

    open spec fn view(&self) -> ConfigErrorModel {
        match self {
            ConfigError::FileNotFound(s) => ConfigErrorModel::FileNotFound(s@),
            ConfigError::InvalidNumber(s) => ConfigErrorModel::InvalidNumber(s@),
            ConfigError::UnspecifiedCue => ConfigErrorModel::UnspecifiedCue,
            ConfigError::GetHelp => ConfigErrorModel::GetHelp,
            ConfigError::GetAbout => ConfigErrorModel::GetAbout,
        }
    }
}

/// The text shown for a configuration error.
pub open spec fn config_error_text(e: ConfigErrorModel) -> Seq<char> {
    match e {
        ConfigErrorModel::FileNotFound(s) => "File not found: "@ + s,
        ConfigErrorModel::InvalidNumber(s) => "Invalid number: "@ + s,
        ConfigErrorModel::UnspecifiedCue => "Cue file not specified. Use -h (--help) to read more"@,
        ConfigErrorModel::GetHelp => "Help requested"@,
        ConfigErrorModel::GetAbout => "About requested"@,
    }
}

impl ConfigError {
    /// The text shown for this error.
    pub fn to_string(&self) -> (s: String)
        ensures
            s@ == config_error_text(self@),
    {
        match self {
            ConfigError::FileNotFound(s) => prefixed("File not found: ", s),
            ConfigError::InvalidNumber(s) => prefixed("Invalid number: ", s),
            ConfigError::UnspecifiedCue => String::from_str(
                "Cue file not specified. Use -h (--help) to read more",
            ),
            ConfigError::GetHelp => String::from_str("Help requested"),
            ConfigError::GetAbout => String::from_str("About requested"),
        }
    }
}

/// Why text could not be read from a pipe.
#[derive(Debug)]
pub enum PipeError {
    EmptyPipe,
    BinaryPipe,
    OtherErr(String),
}

/// The text shown for a pipe error.
pub open spec fn pipe_error_text(e: &PipeError) -> Seq<char> {
    match e {
        PipeError::EmptyPipe => "Nothing was piped to standard input"@,
        PipeError::BinaryPipe => "Piped input is not valid UTF-8 text"@,
        PipeError::OtherErr(s) => "Pipe error: "@ + s@,
    }
}

impl PipeError {
    /// The text shown for this error.
    pub fn to_string(&self) -> (s: String)
        ensures
            s@ == pipe_error_text(self),
    {
        match self {
            PipeError::EmptyPipe => String::from_str("Nothing was piped to standard input"),
            PipeError::BinaryPipe => String::from_str("Piped input is not valid UTF-8 text"),
            PipeError::OtherErr(s) => prefixed("Pipe error: ", s),
        }
    }
}

} // verus!
