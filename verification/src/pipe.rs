//! Turning what was piped to standard input into text.
use vstd::prelude::*;
use vstd::utf8::{decode_utf8, valid_utf8};

use crate::errors::PipeError;

verus! {

/// Calls `String::from_utf8`, which accepts a byte vector exactly when it is valid
/// UTF-8 and then holds the characters it encodes.
#[verifier::external_body]
fn string_from_utf8(bytes: Vec<u8>) -> (r: Option<String>)
    ensures
        r is Some <==> valid_utf8(bytes@),
        r matches Some(s) ==> s@ == decode_utf8(bytes@),
{
    String::from_utf8(bytes).ok()
}

/// The text of the bytes read from a pipe: nothing read is an empty pipe, bytes that
/// are not UTF-8 are binary data.
pub fn pipe_text(buffer: Vec<u8>) -> (r: Result<String, PipeError>)
    ensures
        buffer@.len() == 0 ==> r matches Err(PipeError::EmptyPipe),
        buffer@.len() > 0 && !valid_utf8(buffer@) ==> r matches Err(PipeError::BinaryPipe),
        buffer@.len() > 0 && valid_utf8(buffer@) ==> r is Ok && r->Ok_0@ == decode_utf8(buffer@),
{
    if buffer.len() == 0 {
        return Err(PipeError::EmptyPipe);
    }
    match string_from_utf8(buffer) {
        Some(text) => Ok(text),
        None => Err(PipeError::BinaryPipe),
    }
}

} // verus!
