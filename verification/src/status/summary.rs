//! The summary of a conversation's status, and small documents in general: one line
//! of canonical JSON.

use crate::contract::{validate_id, Checked};
use crate::contract;
use crate::error::{protocol, ErrorModel, RuntimeError};
use crate::error;
use crate::runs::selection::same_optional_text;
use crate::runs::selection;
use crate::stream::framing::{CARRIAGE_RETURN, LINE_FEED};
use crate::stream::writer::contains_byte;
use crate::stream::writer;
use crate::text::{join2, join3, same_text, text_from_utf8};
use vstd::prelude::*;
use vstd::utf8::*;

verus! {

pub const MAX_CONVERSATION_STATUS_SUMMARY_BYTES: usize = 4 * 1024;
pub const STATUS_SUMMARY_SCHEMA: &'static str = "flow-conversation-status-summary-v0";

/// What a conversation has come to.
pub struct ConversationStatusSummary {
    pub schema: String,
    pub conversation_id: Checked,
    pub latest_entry_id: Option<Checked>,
    pub run_count: u64,
    pub uncertain_attempts: u64,
}

/// What a conversation has come to, by its contents.
pub struct SummaryModel {
    pub schema: Seq<char>,
    pub conversation_id: Seq<char>,
    pub latest_entry_id: Option<Seq<char>>,
    pub run_count: u64,
    pub uncertain_attempts: u64,
}

impl View for ConversationStatusSummary {
    type V = SummaryModel;

    open spec fn view(&self) -> SummaryModel {
        SummaryModel {
            schema: self.schema@,
            conversation_id: self.conversation_id.text@,
            latest_entry_id: selection::optional_text(self.latest_entry_id),
            run_count: self.run_count,
            uncertain_attempts: self.uncertain_attempts,
        }
    }
}

/// Whether the identifiers of a summary are what their grammar accepts.
pub open spec fn valid_ids(summary: ConversationStatusSummary) -> bool {
    summary.conversation_id.valid && (summary.latest_entry_id matches Some(id) ==> id.valid)
}

impl Clone for ConversationStatusSummary {
    fn clone(&self) -> (copy: Self)
        ensures
            copy@ == self@,
            valid_ids(copy) == valid_ids(*self),
            copy.conversation_id == self.conversation_id,
            copy.latest_entry_id is Some == self.latest_entry_id is Some,
    {
        let latest_entry_id = match &self.latest_entry_id {
            Some(id) => Some(id.clone()),
            None => None,
        };
        ConversationStatusSummary {
            schema: self.schema.clone(),
            conversation_id: self.conversation_id.clone(),
            latest_entry_id,
            run_count: self.run_count,
            uncertain_attempts: self.uncertain_attempts,
        }
    }
}

/// Whether two summaries say the same.
pub fn same_summary(left: &ConversationStatusSummary, right: &ConversationStatusSummary) -> (same: bool)
    ensures
        same == (left@ == right@),
{
    same_text(left.schema.as_str(), right.schema.as_str()) && same_text(
        left.conversation_id.text.as_str(),
        right.conversation_id.text.as_str(),
    ) && same_optional_text(&left.latest_entry_id, &right.latest_entry_id) && left.run_count
        == right.run_count && left.uncertain_attempts == right.uncertain_attempts
}

/// The summary of a conversation in which nothing has happened.
pub fn empty_status_summary(conversation_id: &Checked) -> (summary: ConversationStatusSummary)
    ensures
        summary@ == (SummaryModel {
            schema: STATUS_SUMMARY_SCHEMA@,
            conversation_id: conversation_id.text@,
            latest_entry_id: None,
            run_count: 0,
            uncertain_attempts: 0,
        }),
        summary.conversation_id == *conversation_id,
        valid_ids(summary) == conversation_id.valid,
{
    ConversationStatusSummary {
        schema: STATUS_SUMMARY_SCHEMA.to_owned(),
        conversation_id: conversation_id.clone(),
        latest_entry_id: None,
        run_count: 0,
        uncertain_attempts: 0,
    }
}

/// What is wrong with the summary of a conversation.
pub open spec fn summary_failure(
    summary: ConversationStatusSummary,
    conversation_id: Seq<char>,
) -> Option<ErrorModel> {
    if summary.schema@ != STATUS_SUMMARY_SCHEMA@ {
        error::protocol_failure("conversation status summary has an unsupported schema"@)
    } else if summary.conversation_id.text@ != conversation_id {
        error::protocol_failure("conversation status summary has the wrong conversation id"@)
    } else {
        error::first_failure(
            contract::id_failure(summary.conversation_id@, "conversation status summary"@),
            match summary.latest_entry_id {
                Some(id) if !id.valid => error::protocol_failure(
                    "conversation status summary has an invalid latest entry id"@,
                ),
                _ => None,
            },
        )
    }
}

/// Accepts the summary of a conversation.
pub fn validate_status_summary(summary: &ConversationStatusSummary, conversation_id: &str) -> (result:
    Result<(), RuntimeError>)
    ensures
        error::failure(result) == summary_failure(*summary, conversation_id@),
{
    if !same_text(summary.schema.as_str(), STATUS_SUMMARY_SCHEMA) {
        return Err(protocol("conversation status summary has an unsupported schema"));
    }
    if !same_text(summary.conversation_id.text.as_str(), conversation_id) {
        return Err(protocol("conversation status summary has the wrong conversation id"));
    }
    validate_id(&summary.conversation_id, "conversation status summary")?;
    if let Some(id) = &summary.latest_entry_id {
        if !id.valid {
            return Err(protocol("conversation status summary has an invalid latest entry id"));
        }
    }
    Ok(())
}

/// The summary of a conversation in which nothing has happened is accepted for it.
pub proof fn law_empty_summary_is_accepted(summary: ConversationStatusSummary)
    requires
        summary.schema@ == STATUS_SUMMARY_SCHEMA@,
        summary.conversation_id.valid,
        summary.latest_entry_id is None,
    ensures
        summary_failure(summary, summary.conversation_id.text@) is None,
{
}

/// The bytes of a small document: its canonical form and a line end.
pub fn bounded_canonical_json_bytes(canonical: &str, label: &str) -> (result: Result<
    Vec<u8>,
    RuntimeError,
>)
    ensures
        error::failure(result) == (if encode_utf8(canonical@).len() + 1
            > MAX_CONVERSATION_STATUS_SUMMARY_BYTES {
            error::protocol_failure(label@ + " exceeds its byte limit"@)
        } else {
            None
        }),
        result matches Ok(bytes) ==> bytes@ == encode_utf8(canonical@).push(LINE_FEED),
{
    let content = canonical.as_bytes();
    if content.len() >= MAX_CONVERSATION_STATUS_SUMMARY_BYTES {
        let message = join2(label, " exceeds its byte limit");
        return Err(protocol(message.as_str()));
    }
    let mut bytes = vstd::slice::slice_to_vec(content);
    bytes.push(LINE_FEED);
    Ok(bytes)
}

/// What reading a document gave: why it is no document of its kind, or its canonical
/// form.
pub enum DocumentForm {
    Invalid(String),
    Canonical(String),
}

/// Whether bytes are one line.
pub open spec fn one_line(bytes: Seq<u8>) -> bool {
    &&& bytes.len() > 0
    &&& bytes.last() == LINE_FEED
    &&& !writer::holds(bytes.drop_last(), LINE_FEED)
    &&& !writer::holds(bytes, CARRIAGE_RETURN)
}

/// What is wrong with the bytes of a small document.
pub open spec fn document_failure(
    stored_bytes: u64,
    bytes: Seq<u8>,
    form: DocumentForm,
    label: Seq<char>,
) -> Option<ErrorModel> {
    if stored_bytes > MAX_CONVERSATION_STATUS_SUMMARY_BYTES || bytes.len()
        > MAX_CONVERSATION_STATUS_SUMMARY_BYTES {
        error::protocol_failure(label + " exceeds its byte limit"@)
    } else if !one_line(bytes) {
        error::protocol_failure(label + " framing is invalid"@)
    } else if !valid_utf8(bytes.drop_last()) {
        error::protocol_failure(label + " is not UTF-8"@)
    } else {
        match form {
            DocumentForm::Invalid(words) => error::protocol_failure(
                label + " is not valid JSON: "@ + words@,
            ),
            DocumentForm::Canonical(canonical) => if canonical@ != decode_utf8(bytes.drop_last()) {
                error::protocol_failure(label + " is not canonical JSON"@)
            } else {
                None
            },
        }
    }
}

/// Accepts the bytes of a small document.
pub fn read_bounded_canonical_json_file(
    stored_bytes: u64,
    bytes: &[u8],
    form: &DocumentForm,
    label: &str,
) -> (result: Result<(), RuntimeError>)
    ensures
        error::failure(result) == document_failure(stored_bytes, bytes@, *form, label@),
{
    if stored_bytes > MAX_CONVERSATION_STATUS_SUMMARY_BYTES as u64 || bytes.len()
        > MAX_CONVERSATION_STATUS_SUMMARY_BYTES {
        let message = join2(label, " exceeds its byte limit");
        return Err(protocol(message.as_str()));
    }
    if bytes.len() == 0 || bytes[bytes.len() - 1] != LINE_FEED {
        let message = join2(label, " framing is invalid");
        return Err(protocol(message.as_str()));
    }
    let body = vstd::slice::slice_subrange(bytes, 0, bytes.len() - 1);
    assert(body@ =~= bytes@.drop_last());
    if contains_byte(body, LINE_FEED) || contains_byte(bytes, CARRIAGE_RETURN) {
        let message = join2(label, " framing is invalid");
        return Err(protocol(message.as_str()));
    }
    match text_from_utf8(body) {
        Err(_) => {
            let message = join2(label, " is not UTF-8");
            Err(protocol(message.as_str()))
        },
        Ok(content) => match form {
            DocumentForm::Invalid(words) => {
                let message = join3(label, " is not valid JSON: ", words.as_str());
                Err(protocol(message.as_str()))
            },
            DocumentForm::Canonical(canonical) => {
                if !same_text(canonical.as_str(), content.as_str()) {
                    let message = join2(label, " is not canonical JSON");
                    return Err(protocol(message.as_str()));
                }
                Ok(())
            },
        },
    }
}

/// What is written of a document is accepted when it is read: its bytes fit, are one
/// line, and hold its canonical form.
pub proof fn law_document_round_trip(canonical: String, label: Seq<char>, bytes: Seq<u8>)
    requires
        bytes == encode_utf8(canonical@).push(LINE_FEED),
        bytes.len() <= MAX_CONVERSATION_STATUS_SUMMARY_BYTES,
        !writer::holds(encode_utf8(canonical@), LINE_FEED),
        !writer::holds(encode_utf8(canonical@), CARRIAGE_RETURN),
    ensures
        document_failure(
            bytes.len() as u64,
            bytes,
            DocumentForm::Canonical(canonical),
            label,
        ) is None,
{
    let body = encode_utf8(canonical@);
    assert(bytes.drop_last() =~= body);
    encode_utf8_valid_utf8(canonical@);
    encode_utf8_decode_utf8(canonical@);
    assert(!writer::holds(bytes, CARRIAGE_RETURN)) by {
        if writer::holds(bytes, CARRIAGE_RETURN) {
            let k = choose|k: int| 0 <= k < bytes.len() && #[trigger] bytes[k] == CARRIAGE_RETURN;
            assert(k < body.len());
            assert(body[k] == CARRIAGE_RETURN);
        }
    }
}

/// Accepts the summary of a conversation that was read, where there is one.
pub fn read_status_summary(found: Option<ConversationStatusSummary>, conversation_id: &str) -> (result:
    Result<ConversationStatusSummary, RuntimeError>)
    ensures
        error::failure(result) == (match found {
            None => error::protocol_failure("conversation status summary is missing"@),
            Some(summary) => summary_failure(summary, conversation_id@),
        }),
        result matches Ok(summary) ==> found == Some(summary),
{
    match found {
        None => Err(protocol("conversation status summary is missing")),
        Some(summary) => {
            validate_status_summary(&summary, conversation_id)?;
            Ok(summary)
        },
    }
}

} // verus!
