//! Telling what is JSON from what is not.

use vstd::prelude::*;

verus! {

/// What `serde_json::from_str` says of a text that it does not read as a JSON value;
/// nothing where it reads it as one.
pub uninterp spec fn json_text_error(text: Seq<char>) -> Option<Seq<char>>;

/// `serde_json::from_str` reads a text as one JSON value, with nothing but whitespace
/// round it, or says why it does not. Which texts it reads, and its words for the others,
/// are left to the name; the value it reads is not kept.
#[verifier::external_body]
pub(crate) fn read_json_text(text: &str) -> (outcome: Result<(), String>)
    ensures
        match outcome {
            Ok(_) => json_text_error(text@) is None,
            Err(words) => json_text_error(text@) == Some(words@),
        },
{
    match serde_json::from_str::<serde_json::Value>(text) {
        Ok(_) => Ok(()),
        Err(error) => Err(error.to_string()),
    }
}

/// What `serde_json::from_slice` says of bytes that it does not read as a JSON value;
/// nothing where it reads them as one.
pub uninterp spec fn json_bytes_error(bytes: Seq<u8>) -> Option<Seq<char>>;

/// `serde_json::from_slice` reads bytes as one JSON value, with nothing but whitespace
/// round it, or says why it does not. Which bytes it reads, and its words for the others,
/// are left to the name; the value it reads is not kept.
#[verifier::external_body]
pub(crate) fn read_json_bytes(bytes: &[u8]) -> (outcome: Result<(), String>)
    ensures
        match outcome {
            Ok(_) => json_bytes_error(bytes@) is None,
            Err(words) => json_bytes_error(bytes@) == Some(words@),
        },
{
    match serde_json::from_slice::<serde_json::Value>(bytes) {
        Ok(_) => Ok(()),
        Err(error) => Err(error.to_string()),
    }
}

/// Why something is not JSON, by what reading it gave.
pub open spec fn json_failure(outcome: Result<(), String>) -> Option<Seq<char>> {
    match outcome {
        Ok(_) => None,
        Err(words) => Some(words@),
    }
}

/// A text by what putting a value into canonical form gave, or why it has none.
pub open spec fn canonical_view(canonical: Result<String, String>) -> Result<Seq<char>, Seq<char>> {
    match canonical {
        Ok(text) => Ok(text@),
        Err(words) => Err(words@),
    }
}

} // verus!
