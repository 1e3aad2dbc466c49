//! Appending to a stream.

use crate::contract::MAX_CONVERSATION_RECORD_BYTES;
use crate::error::{protocol, ErrorModel, RuntimeError};
use crate::error;
use crate::json::read_json_text;
use crate::json;
use crate::stream::framing::CARRIAGE_RETURN;
use crate::stream::layout::{conversation_segment_path, StreamBase};
use crate::text::{chars_of, join2, same_text, string_of, strip_suffix};
use crate::text;
use vstd::prelude::*;
use vstd::utf8::*;

verus! {

/// What putting the record on a line into canonical form gave.
pub enum CanonicalForm {
    /// The line is not JSON.
    NotJson,
    /// The value has no canonical form.
    Invalid(String),
    /// The canonical form.
    Text(String),
}

/// The line of a record in canonical form.
pub fn jsonl_line(canonical: &str) -> (result: Result<String, RuntimeError>)
    ensures
        error::failure(result) == (if encode_utf8(canonical@).len() > MAX_CONVERSATION_RECORD_BYTES {
            error::protocol_failure("conversation record exceeds its byte limit"@)
        } else {
            None
        }),
        result matches Ok(line) ==> line@ == canonical@ + "\n"@,
{
    if canonical.as_bytes().len() > MAX_CONVERSATION_RECORD_BYTES {
        return Err(protocol("conversation record exceeds its byte limit"));
    }
    Ok(join2(canonical, "\n"))
}

/// Whether bytes hold a byte.
pub open spec fn holds(bytes: Seq<u8>, byte: u8) -> bool {
    exists|i: int| 0 <= i < bytes.len() && #[trigger] bytes[i] == byte
}

/// Looks for a byte.
pub fn contains_byte(bytes: &[u8], byte: u8) -> (found: bool)
    ensures
        found == holds(bytes@, byte),
{
    let mut i: usize = 0;
    while i < bytes.len()
        invariant
            i <= bytes.len(),
            forall|k: int| 0 <= k < i ==> #[trigger] bytes@[k] != byte,
        decreases bytes.len() - i,
    {
        if bytes[i] == byte {
            assert(bytes@[i as int] == byte);
            return true;
        }
        i = i + 1;
    }
    false
}

/// The record on a line that is framed as a record is: one line end, at the end, and no
/// carriage return.
pub open spec fn framed_record(line: Seq<char>) -> Option<Seq<char>> {
    match text::without_suffix(line, "\n"@) {
        None => None,
        Some(record) => if encode_utf8(record).len() > MAX_CONVERSATION_RECORD_BYTES || holds(
            encode_utf8(line),
            CARRIAGE_RETURN,
        ) {
            None
        } else {
            Some(record)
        },
    }
}

/// What is wrong with a line that is to be appended, given why the record on it is not
/// JSON, where it is not, and the canonical form of the record.
pub open spec fn canonical_line_failure(
    line: Seq<char>,
    json: Option<Seq<char>>,
    canonical: Result<Seq<char>, Seq<char>>,
) -> Option<ErrorModel> {
    match framed_record(line) {
        None => error::protocol_failure("conversation record framing is invalid"@),
        Some(record) => if json is Some {
            error::protocol_failure("conversation record is not JSON"@)
        } else {
            match canonical {
                Err(words) => error::protocol_failure("conversation record is invalid: "@ + words),
                Ok(text) => if text != record {
                    error::protocol_failure("conversation record is not canonical JSON"@)
                } else {
                    None
                },
            }
        },
    }
}

fn record_on_line(line: &str) -> (record: Option<String>)
    ensures
        match record {
            Some(record) => framed_record(line@) == Some(record@),
            None => framed_record(line@) is None,
        },
{
    let chars = chars_of(line);
    match strip_suffix(&chars, "\n") {
        None => None,
        Some(rest) => {
            let record = string_of(&rest);
            if record.as_str().as_bytes().len() > MAX_CONVERSATION_RECORD_BYTES || contains_byte(
                line.as_bytes(),
                CARRIAGE_RETURN,
            ) {
                return None;
            }
            Some(record)
        },
    }
}

/// Accepts a line that holds one record in canonical form, by what reading the record as
/// JSON gave and by its canonical form.
pub fn judge_canonical_jsonl_line(
    line: &str,
    parsed: &Result<(), String>,
    canonical: &Result<String, String>,
) -> (result: Result<(), RuntimeError>)
    ensures
        error::failure(result) == canonical_line_failure(
            line@,
            json::json_failure(*parsed),
            json::canonical_view(*canonical),
        ),
{
    let record = match record_on_line(line) {
        Some(record) => record,
        None => {
            return Err(protocol("conversation record framing is invalid"));
        },
    };
    if parsed.is_err() {
        return Err(protocol("conversation record is not JSON"));
    }
    match canonical {
        Err(words) => {
            let message = join2("conversation record is invalid: ", words.as_str());
            Err(protocol(message.as_str()))
        },
        Ok(text) => {
            if !same_text(text.as_str(), record.as_str()) {
                return Err(protocol("conversation record is not canonical JSON"));
            }
            Ok(())
        },
    }
}

/// Accepts a line that holds one record in canonical form; `canonical` is the form of the
/// record, which has one where it is JSON.
pub fn validate_canonical_jsonl_line(line: &str, canonical: &Result<String, String>) -> (result: Result<
    (),
    RuntimeError,
>)
    ensures
        error::failure(result) == canonical_line_failure(
            line@,
            json::json_text_error(framed_record(line@)->0),
            json::canonical_view(*canonical),
        ),
{
    match record_on_line(line) {
        Some(record) => {
            let parsed = read_json_text(record.as_str());
            judge_canonical_jsonl_line(line, &parsed, canonical)
        },
        None => Err(protocol("conversation record framing is invalid")),
    }
}

/// Where a line is appended: the segment and how many bytes it holds before.
#[derive(Clone, Copy, Debug, PartialEq, Eq, Structural)]
pub struct AppendTarget {
    pub ordinal: u64,
    pub prior_bytes: u64,
}

/// The segment that a line goes to: the present one while it has room, and then a
/// new one.
pub open spec fn append_target(
    current_ordinal: u64,
    current_bytes: u64,
    line_bytes: nat,
    segment_limit: u64,
) -> AppendTarget {
    if current_bytes + line_bytes > segment_limit {
        AppendTarget {
            ordinal: if current_ordinal == u64::MAX {
                u64::MAX
            } else {
                (current_ordinal + 1) as u64
            },
            prior_bytes: 0,
        }
    } else {
        AppendTarget { ordinal: current_ordinal, prior_bytes: current_bytes }
    }
}

/// Chooses the segment that a line goes to.
pub fn plan_append(
    current_ordinal: u64,
    current_bytes: u64,
    line_bytes: usize,
    segment_limit: u64,
) -> (target: AppendTarget)
    requires
        segment_limit < u64::MAX,
    ensures
        target == append_target(current_ordinal, current_bytes, line_bytes as nat, segment_limit),
{
    if current_bytes.saturating_add(line_bytes as u64) > segment_limit {
        AppendTarget { ordinal: current_ordinal.saturating_add(1), prior_bytes: 0 }
    } else {
        AppendTarget { ordinal: current_ordinal, prior_bytes: current_bytes }
    }
}

/// The segment that a line of a stream goes to, by the inventory of the stream and the
/// length of its last segment; a new segment needs a name, which `named` says there is,
/// and is made durable together with its directory before the line is written.
pub fn append_validated_jsonl_line(
    last_ordinal: Result<u64, RuntimeError>,
    current_bytes: Result<u64, RuntimeError>,
    line_bytes: usize,
    segment_limit: u64,
    base: StreamBase,
    named: bool,
) -> (result: Result<AppendTarget, RuntimeError>)
    requires
        segment_limit < u64::MAX,
        last_ordinal matches Ok(last) ==> last >= 1,
    ensures
        error::failure(result) == error::first_failure(
            error::failure(last_ordinal),
            error::first_failure(
                error::failure(current_bytes),
                if line_bytes > segment_limit {
                    error::protocol_failure("conversation record exceeds its segment byte limit"@)
                } else if current_bytes->Ok_0 + line_bytes > segment_limit {
                    if !base.is_text || !base.is_jsonl {
                        error::protocol_failure("conversation stream name must end in .jsonl"@)
                    } else if !named {
                        error::protocol_failure("conversation stream segment ordinal is exhausted"@)
                    } else {
                        None
                    }
                } else {
                    None
                },
            ),
        ),
        result matches Ok(target) ==> target == append_target(
            last_ordinal->Ok_0,
            current_bytes->Ok_0,
            line_bytes as nat,
            segment_limit,
        ),
{
    let last = last_ordinal?;
    let current = current_bytes?;
    if line_bytes as u64 > segment_limit {
        return Err(protocol("conversation record exceeds its segment byte limit"));
    }
    let target = plan_append(last, current, line_bytes, segment_limit);
    if current.saturating_add(line_bytes as u64) > segment_limit {
        conversation_segment_path(base, target.ordinal, named)?;
    }
    Ok(target)
}

/// A line that fits into a segment at all leaves the segment it goes to within its
/// limit.
pub proof fn law_appends_keep_segments_bounded(
    current_ordinal: u64,
    current_bytes: u64,
    line_bytes: nat,
    segment_limit: u64,
)
    requires
        line_bytes <= segment_limit,
    ensures
        append_target(current_ordinal, current_bytes, line_bytes, segment_limit).prior_bytes
            + line_bytes <= segment_limit,
{
}

} // verus!
