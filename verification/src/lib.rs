//! Parsing and planning logic for splitting a CUE-sheet album into tracks.
pub mod text;
pub mod cue;
pub mod errors;
pub mod parser;
pub mod builder;
pub mod config;
pub mod splitter;
pub mod pipe;
pub mod invariants;
