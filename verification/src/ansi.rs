//! Removal of ANSI terminal escape sequences from attribute values.

use vstd::prelude::*;
use vstd::utf8::{decode_utf8, encode_utf8, valid_utf8};

verus! {

/// The bytes that `strip_ansi_escapes::strip` returns for `data`, or `None`
/// where it reports an error.
pub uninterp spec fn ansi_stripped(data: Seq<u8>) -> Option<Seq<u8>>;

/// The contents of an optional byte buffer.
pub open spec fn buffer_view(buffer: Option<Vec<u8>>) -> Option<Seq<u8>> {
    match buffer {
        Some(bytes) => Some(bytes@),
        None => None,
    }
}

/// The text to store for `text` once the stripper has answered with
/// `stripped`: the stripped bytes where they are valid UTF-8, the text as
/// it was where stripping failed or left something that is no text.
pub open spec fn fallback_text(text: Seq<char>, stripped: Option<Seq<u8>>) -> Seq<char> {
    match stripped {
        Some(bytes) => if valid_utf8(bytes) {
            decode_utf8(bytes)
        } else {
            text
        },
        None => text,
    }
}

/// A text without its ANSI escape sequences.
pub open spec fn strip_ansi(text: Seq<char>) -> Seq<char> {
    fallback_text(text, ansi_stripped(encode_utf8(text)))
}

/// Calls `strip_ansi_escapes::strip`. Trusted: the result is whatever that
/// function computes from the bytes, named [`ansi_stripped`]; an error it
/// reports becomes `None`.
#[verifier::external_body]
fn strip_bytes(data: &[u8]) -> (out: Option<Vec<u8>>)
    ensures
        buffer_view(out) == ansi_stripped(data@),
{
    strip_ansi_escapes::strip(data).ok()
}

/// Calls `String::from_utf8`. Trusted: the conversion succeeds exactly on
/// valid UTF-8, and the string then holds the decoded bytes.
#[verifier::external_body]
fn string_from_utf8(bytes: Vec<u8>) -> (out: Option<String>)
    ensures
        out is Some <==> valid_utf8(bytes@),
        out matches Some(text) ==> text@ == decode_utf8(bytes@),
{
    String::from_utf8(bytes).ok()
}

/// Chooses between the stripper's answer and the text as it was.
pub fn text_with_fallback(text: &str, stripped: Option<Vec<u8>>) -> (out: String)
    ensures
        out@ == fallback_text(text@, buffer_view(stripped)),
{
    match stripped {
        Some(bytes) => {
            match string_from_utf8(bytes) {
                Some(clean) => clean,
                None => text.to_owned(),
            }
        },
        None => text.to_owned(),
    }
}

/// Strips ANSI color escape codes from a string, or returns the string
/// unchanged if there was a problem performing the strip.
pub fn strip_ansi_codes_from_string(string: &str) -> (out: String)
    ensures
        out@ == strip_ansi(string@),
{
    let stripped = strip_bytes(string.as_bytes());
    text_with_fallback(string, stripped)
}

} // verus!
