//! Changing a conversation and its summary together. The change is first written
//! down with the summary before and after it; whatever happens then, it can be told
//! later whether the change was made, and the summary is set to match.

use crate::contract::{validate_digest, validate_id, validate_run_creation_identity_marker_name, Checked, MAX_CONVERSATION_RECORD_BYTES};
use crate::contract;
use crate::digest::{is_lowercase_sha256_hex, sha256_hex};
use crate::digest;
use crate::error::{protocol, ErrorModel, RuntimeError};
use crate::error;
use crate::history::model::{validate_conversation_entry, ConversationEntry};
use crate::history::model;
use crate::runs::selection::same_optional_text;
use crate::runs::selection;
use crate::runs::storage::StreamInventory;
use crate::status::summary::{same_summary, validate_status_summary, ConversationStatusSummary, SummaryModel, MAX_CONVERSATION_STATUS_SUMMARY_BYTES, STATUS_SUMMARY_SCHEMA};
use crate::status::summary;
use crate::stream::framing::LINE_FEED;
use crate::text::{append_text, join2, join3, same_bytes, same_text};
use vstd::prelude::*;
use vstd::utf8::*;

verus! {

pub const STATUS_TRANSACTION_SCHEMA: &'static str = "flow-conversation-status-transaction-v1";
pub const STATUS_SUMMARY_STAGE_LEAF: &'static str = ".status-summary.staged";
pub const STATUS_TRANSACTION_LEAF: &'static str = ".status-transaction.json";
pub const STATUS_TRANSACTION_STAGE_LEAF: &'static str = ".status-transaction.staged";

/// What is appended.
#[derive(Clone, Copy, Debug, PartialEq, Eq, Structural)]
pub enum StatusAppendKind {
    History,
    AttemptIntent,
    AttemptResult,
}

/// A line that is appended to a segment.
pub struct StatusAppend {
    pub kind: StatusAppendKind,
    pub run_session_id: Option<Checked>,
    pub segment_ordinal: u32,
    /// Whether segments are numbered so.
    pub ordinal_valid: bool,
    pub prior_bytes: u64,
    pub appended_bytes: u64,
    pub appended_sha256: String,
}

/// A run that is created.
pub struct RunCreated {
    pub run_session_id: Checked,
    pub staging_name: String,
    pub staging_identity: String,
    pub run_identity_marker: String,
    pub run_log_sha256: String,
    pub unpublished_productive_run: bool,
}

/// A run that is reclaimed.
pub struct RunReclaimed {
    pub run_session_id: Checked,
    pub run_identity_marker: String,
}

/// A change to a conversation.
pub enum ConversationStatusMutation {
    Append(StatusAppend),
    RunCreated(RunCreated),
    RunReclaimed(RunReclaimed),
}

/// A change to a conversation, with its summary before and after.
pub struct ConversationStatusTransaction {
    pub schema: String,
    pub conversation_id: Checked,
    pub before: ConversationStatusSummary,
    pub after: ConversationStatusSummary,
    pub mutation: ConversationStatusMutation,
}

/// The name under which a run is put together.
pub open spec fn staging_name(run_session_id: Seq<char>, identity: Seq<char>) -> Seq<char> {
    ".run-"@ + run_session_id + "-"@ + identity + ".staged"@
}

/// What is wrong with what a staging name is made of.
pub open spec fn staging_failure(run_session_id: Checked, identity: Seq<char>) -> Option<ErrorModel> {
    if !run_session_id.valid || !digest::is_digest_text(identity) {
        error::protocol_failure("conversation status run-creation staging identity is invalid"@)
    } else {
        None
    }
}

/// The name under which a run is put together.
pub fn run_creation_staging_name(run_session_id: &Checked, staging_identity: &str) -> (result: Result<
    String,
    RuntimeError,
>)
    ensures
        error::failure(result) == staging_failure(*run_session_id, staging_identity@),
        result matches Ok(name) ==> name@ == staging_name(run_session_id.text@, staging_identity@),
{
    if !run_session_id.valid || !is_lowercase_sha256_hex(staging_identity) {
        return Err(protocol("conversation status run-creation staging identity is invalid"));
    }
    let mut name = join3(".run-", run_session_id.text.as_str(), "-");
    append_text(&mut name, staging_identity);
    append_text(&mut name, ".staged");
    Ok(name)
}

/// What is wrong with where a line is appended.
pub open spec fn append_boundary_failure(append: StatusAppend, max_segment_bytes: u64) -> Option<
    ErrorModel,
> {
    if !append.ordinal_valid || append.appended_bytes == 0 || append.appended_bytes
        > MAX_CONVERSATION_RECORD_BYTES + 1 || append.prior_bytes + append.appended_bytes
        > max_segment_bytes {
        error::protocol_failure("conversation status transaction append boundary is invalid"@)
    } else {
        None
    }
}

/// What is wrong with how a line that is appended changes the summary.
pub open spec fn append_change_failure(
    append: StatusAppend,
    before: SummaryModel,
    after: SummaryModel,
) -> Option<ErrorModel> {
    match append.kind {
        StatusAppendKind::History => if append.run_session_id is Some || after.latest_entry_id
            is None || before.run_count != after.run_count || before.uncertain_attempts
            != after.uncertain_attempts {
            error::protocol_failure("conversation status history transaction is inconsistent"@)
        } else {
            None
        },
        StatusAppendKind::AttemptIntent => match append.run_session_id {
            None => error::protocol_failure("conversation status intent transaction lacks a Run id"@),
            Some(id) => error::first_failure(
                contract::id_failure(id@, "run session"@),
                if before.latest_entry_id != after.latest_entry_id || before.run_count
                    != after.run_count || before.uncertain_attempts + 1
                    != after.uncertain_attempts {
                    error::protocol_failure("conversation status intent transaction is inconsistent"@)
                } else {
                    None
                },
            ),
        },
        StatusAppendKind::AttemptResult => match append.run_session_id {
            None => error::protocol_failure("conversation status result transaction lacks a Run id"@),
            Some(id) => error::first_failure(
                contract::id_failure(id@, "run session"@),
                if before.latest_entry_id != after.latest_entry_id || before.run_count
                    != after.run_count || after.uncertain_attempts + 1
                    != before.uncertain_attempts {
                    error::protocol_failure("conversation status result transaction is inconsistent"@)
                } else {
                    None
                },
            ),
        },
    }
}

/// What is wrong with a change and how it changes the summary.
pub open spec fn mutation_failure(
    mutation: ConversationStatusMutation,
    before: SummaryModel,
    after: SummaryModel,
    max_segment_bytes: u64,
) -> Option<ErrorModel> {
    match mutation {
        ConversationStatusMutation::Append(append) => error::first_failure(
            append_boundary_failure(append, max_segment_bytes),
            error::first_failure(
                contract::digest_failure(
                    append.appended_sha256@,
                    "conversation status transaction append hash"@,
                ),
                append_change_failure(append, before, after),
            ),
        ),
        ConversationStatusMutation::RunCreated(created) => error::first_failure(
            contract::id_failure(created.run_session_id@, "run session"@),
            error::first_failure(
                staging_failure(created.run_session_id, created.staging_identity@),
                if created.staging_name@ != staging_name(
                    created.run_session_id.text@,
                    created.staging_identity@,
                ) {
                    error::protocol_failure(
                        "conversation status run-creation staging identity is invalid"@,
                    )
                } else {
                    error::first_failure(
                        contract::digest_failure(
                            created.run_log_sha256@,
                            "conversation status run-creation definition hash"@,
                        ),
                        error::first_failure(
                            contract::run_marker_failure(created.run_identity_marker@),
                            if before.latest_entry_id != after.latest_entry_id
                                || before.uncertain_attempts != after.uncertain_attempts
                                || before.run_count + 1 != after.run_count {
                                error::protocol_failure(
                                    "conversation status run-creation transaction is inconsistent"@,
                                )
                            } else {
                                None
                            },
                        ),
                    )
                },
            ),
        ),
        ConversationStatusMutation::RunReclaimed(reclaimed) => error::first_failure(
            contract::id_failure(reclaimed.run_session_id@, "run session"@),
            error::first_failure(
                contract::run_marker_failure(reclaimed.run_identity_marker@),
                if before.latest_entry_id != after.latest_entry_id || before.uncertain_attempts
                    != after.uncertain_attempts || after.run_count + 1 != before.run_count {
                    error::protocol_failure(
                        "conversation status run-reclamation transaction is inconsistent"@,
                    )
                } else {
                    None
                },
            ),
        ),
    }
}

/// What is wrong with a transaction.
pub open spec fn transaction_failure(
    transaction: ConversationStatusTransaction,
    conversation_id: Seq<char>,
    max_segment_bytes: u64,
) -> Option<ErrorModel> {
    if transaction.schema@ != STATUS_TRANSACTION_SCHEMA@ {
        error::protocol_failure("conversation status transaction has an unsupported schema"@)
    } else if transaction.conversation_id.text@ != conversation_id {
        error::protocol_failure("conversation status transaction has the wrong conversation id"@)
    } else {
        error::first_failure(
            summary::summary_failure(transaction.before, conversation_id),
            error::first_failure(
                summary::summary_failure(transaction.after, conversation_id),
                mutation_failure(
                    transaction.mutation,
                    transaction.before@,
                    transaction.after@,
                    max_segment_bytes,
                ),
            ),
        )
    }
}

fn check_append_change(
    append: &StatusAppend,
    before: &ConversationStatusSummary,
    after: &ConversationStatusSummary,
) -> (result: Result<(), RuntimeError>)
    ensures
        error::failure(result) == append_change_failure(*append, before@, after@),
{
    match append.kind {
        StatusAppendKind::History => {
            if append.run_session_id.is_some() || after.latest_entry_id.is_none() || before.run_count
                != after.run_count || before.uncertain_attempts != after.uncertain_attempts {
                return Err(protocol("conversation status history transaction is inconsistent"));
            }
            Ok(())
        },
        StatusAppendKind::AttemptIntent => match &append.run_session_id {
            None => Err(protocol("conversation status intent transaction lacks a Run id")),
            Some(id) => {
                validate_id(id, "run session")?;
                let counted = match before.uncertain_attempts.checked_add(1) {
                    Some(count) => count == after.uncertain_attempts,
                    None => false,
                };
                if !same_optional_text(&before.latest_entry_id, &after.latest_entry_id)
                    || before.run_count != after.run_count || !counted {
                    return Err(
                        protocol("conversation status intent transaction is inconsistent"),
                    );
                }
                Ok(())
            },
        },
        StatusAppendKind::AttemptResult => match &append.run_session_id {
            None => Err(protocol("conversation status result transaction lacks a Run id")),
            Some(id) => {
                validate_id(id, "run session")?;
                let counted = match after.uncertain_attempts.checked_add(1) {
                    Some(count) => count == before.uncertain_attempts,
                    None => false,
                };
                if !same_optional_text(&before.latest_entry_id, &after.latest_entry_id)
                    || before.run_count != after.run_count || !counted {
                    return Err(
                        protocol("conversation status result transaction is inconsistent"),
                    );
                }
                Ok(())
            },
        },
    }
}

fn check_mutation(
    mutation: &ConversationStatusMutation,
    before: &ConversationStatusSummary,
    after: &ConversationStatusSummary,
    max_segment_bytes: u64,
) -> (result: Result<(), RuntimeError>)
    ensures
        error::failure(result) == mutation_failure(*mutation, before@, after@, max_segment_bytes),
{
    match mutation {
        ConversationStatusMutation::Append(append) => {
            let fits = match append.prior_bytes.checked_add(append.appended_bytes) {
                Some(bytes) => bytes <= max_segment_bytes,
                None => false,
            };
            if !append.ordinal_valid || append.appended_bytes == 0 || append.appended_bytes
                > MAX_CONVERSATION_RECORD_BYTES as u64 + 1 || !fits {
                return Err(
                    protocol("conversation status transaction append boundary is invalid"),
                );
            }
            validate_digest(
                append.appended_sha256.as_str(),
                "conversation status transaction append hash",
            )?;
            check_append_change(append, before, after)
        },
        ConversationStatusMutation::RunCreated(created) => {
            validate_id(&created.run_session_id, "run session")?;
            let expected = run_creation_staging_name(
                &created.run_session_id,
                created.staging_identity.as_str(),
            )?;
            if !same_text(created.staging_name.as_str(), expected.as_str()) {
                return Err(
                    protocol("conversation status run-creation staging identity is invalid"),
                );
            }
            validate_digest(
                created.run_log_sha256.as_str(),
                "conversation status run-creation definition hash",
            )?;
            validate_run_creation_identity_marker_name(created.run_identity_marker.as_str())?;
            let counted = match before.run_count.checked_add(1) {
                Some(count) => count == after.run_count,
                None => false,
            };
            if !same_optional_text(&before.latest_entry_id, &after.latest_entry_id)
                || before.uncertain_attempts != after.uncertain_attempts || !counted {
                return Err(
                    protocol("conversation status run-creation transaction is inconsistent"),
                );
            }
            Ok(())
        },
        ConversationStatusMutation::RunReclaimed(reclaimed) => {
            validate_id(&reclaimed.run_session_id, "run session")?;
            validate_run_creation_identity_marker_name(reclaimed.run_identity_marker.as_str())?;
            let counted = match after.run_count.checked_add(1) {
                Some(count) => count == before.run_count,
                None => false,
            };
            if !same_optional_text(&before.latest_entry_id, &after.latest_entry_id)
                || before.uncertain_attempts != after.uncertain_attempts || !counted {
                return Err(
                    protocol("conversation status run-reclamation transaction is inconsistent"),
                );
            }
            Ok(())
        },
    }
}

/// Accepts a transaction.
pub fn validate_status_transaction(
    transaction: &ConversationStatusTransaction,
    conversation_id: &str,
    max_segment_bytes: u64,
) -> (result: Result<(), RuntimeError>)
    ensures
        error::failure(result) == transaction_failure(*transaction, conversation_id@, max_segment_bytes),
{
    if !same_text(transaction.schema.as_str(), STATUS_TRANSACTION_SCHEMA) {
        return Err(protocol("conversation status transaction has an unsupported schema"));
    }
    if !same_text(transaction.conversation_id.text.as_str(), conversation_id) {
        return Err(protocol("conversation status transaction has the wrong conversation id"));
    }
    validate_status_summary(&transaction.before, conversation_id)?;
    validate_status_summary(&transaction.after, conversation_id)?;
    check_mutation(
        &transaction.mutation,
        &transaction.before,
        &transaction.after,
        max_segment_bytes,
    )
}

/// What is found under the name of a small file.
pub enum Artifact {
    Missing,
    /// It is a link, or no file.
    NotAFile,
    File { length: u64 },
    Failed(RuntimeError),
}

/// What is wrong with what is found under the name of a small file.
pub open spec fn artifact_failure(found: Artifact, label: Seq<char>) -> Option<ErrorModel> {
    match found {
        Artifact::Missing => None,
        Artifact::NotAFile => error::protocol_failure(label + " must be a real file"@),
        Artifact::File { length } => if length > MAX_CONVERSATION_STATUS_SUMMARY_BYTES {
            error::protocol_failure(label + " exceeds its byte limit"@)
        } else {
            None
        },
        Artifact::Failed(error) => Some(error@),
    }
}

/// Whether a small file is there.
pub fn real_file_artifact_present(found: Artifact, label: &str) -> (result: Result<bool, RuntimeError>)
    ensures
        error::failure(result) == artifact_failure(found, label@),
        result matches Ok(present) ==> present == (found is File),
{
    match found {
        Artifact::Missing => Ok(false),
        Artifact::NotAFile => {
            let message = join2(label, " must be a real file");
            Err(protocol(message.as_str()))
        },
        Artifact::File { length } => {
            if length > MAX_CONVERSATION_STATUS_SUMMARY_BYTES as u64 {
                let message = join2(label, " exceeds its byte limit");
                return Err(protocol(message.as_str()));
            }
            Ok(true)
        },
        Artifact::Failed(error) => Err(error),
    }
}

/// What is wrong with writing a transaction down.
pub open spec fn record_failure(
    transaction: ConversationStatusTransaction,
    current: SummaryModel,
    target: Artifact,
    staged: Artifact,
    max_segment_bytes: u64,
) -> Option<ErrorModel> {
    error::first_failure(
        transaction_failure(transaction, transaction.conversation_id.text@, max_segment_bytes),
        if current != transaction.before@ {
            error::protocol_failure("conversation status changed before its transaction was recorded"@)
        } else {
            error::first_failure(
                artifact_failure(target, "conversation status transaction"@),
                if target is File {
                    error::protocol_failure("conversation status transaction already exists"@)
                } else {
                    error::first_failure(
                        artifact_failure(staged, "staged conversation status transaction"@),
                        if staged is File {
                            error::protocol_failure("conversation status transaction already exists"@)
                        } else {
                            None
                        },
                    )
                },
            )
        },
    )
}

/// Accepts a transaction that may be written down: it starts from the summary that
/// there is, and no other is under way.
pub fn record_status_transaction(
    transaction: &ConversationStatusTransaction,
    current: &ConversationStatusSummary,
    target: Artifact,
    staged: Artifact,
    max_segment_bytes: u64,
) -> (result: Result<(), RuntimeError>)
    ensures
        error::failure(result) == record_failure(
            *transaction,
            current@,
            target,
            staged,
            max_segment_bytes,
        ),
{
    validate_status_transaction(
        transaction,
        transaction.conversation_id.text.as_str(),
        max_segment_bytes,
    )?;
    if !same_summary(current, &transaction.before) {
        return Err(protocol("conversation status changed before its transaction was recorded"));
    }
    if real_file_artifact_present(target, "conversation status transaction")? {
        return Err(protocol("conversation status transaction already exists"));
    }
    if real_file_artifact_present(staged, "staged conversation status transaction")? {
        return Err(protocol("conversation status transaction already exists"));
    }
    Ok(())
}

/// What is wrong with setting the summary.
pub open spec fn replace_failure(
    summary: ConversationStatusSummary,
    target: Result<(), RuntimeError>,
    staged: Artifact,
) -> Option<ErrorModel> {
    error::first_failure(
        summary::summary_failure(summary, summary.conversation_id.text@),
        error::first_failure(
            error::failure(target),
            error::first_failure(
                artifact_failure(staged, "staged conversation status summary"@),
                if staged is File {
                    error::protocol_failure("staged conversation status summary already exists"@)
                } else {
                    None
                },
            ),
        ),
    )
}

/// Accepts a summary that may be put in place of the one there is: it can be opened,
/// and no other is about to take its place.
pub fn replace_status_summary(
    summary: &ConversationStatusSummary,
    target: Result<(), RuntimeError>,
    staged: Artifact,
) -> (result: Result<(), RuntimeError>)
    ensures
        error::failure(result) == replace_failure(*summary, target, staged),
{
    validate_status_summary(summary, summary.conversation_id.text.as_str())?;
    target?;
    if real_file_artifact_present(staged, "staged conversation status summary")? {
        return Err(protocol("staged conversation status summary already exists"));
    }
    Ok(())
}

/// Where a line belongs.
pub enum AppendBase<'a> {
    History,
    /// The log of a run.
    RunLog(&'a Checked),
}

/// What is wrong with where a line is to go.
pub open spec fn append_base_failure(kind: StatusAppendKind, run_session_id: Option<Checked>) -> Option<
    ErrorModel,
> {
    match (kind, run_session_id) {
        (StatusAppendKind::History, Some(_)) => error::protocol_failure(
            "conversation status history transaction addresses a Run"@,
        ),
        (StatusAppendKind::History, None) => None,
        (_, None) => error::protocol_failure(
            "conversation status Run Log transaction lacks a Run id"@,
        ),
        (_, Some(id)) => contract::id_failure(id@, "run session"@),
    }
}

/// Where a line belongs: the history, or the log of a run.
pub fn status_append_base<'a>(kind: StatusAppendKind, run_session_id: &'a Option<Checked>) -> (result:
    Result<AppendBase<'a>, RuntimeError>)
    ensures
        error::failure(result) == append_base_failure(kind, *run_session_id),
        result matches Ok(base) ==> base == (match *run_session_id {
            Some(id) => AppendBase::RunLog(&id),
            None => AppendBase::History,
        }),
{
    match kind {
        StatusAppendKind::History => {
            if run_session_id.is_some() {
                return Err(protocol("conversation status history transaction addresses a Run"));
            }
            Ok(AppendBase::History)
        },
        _ => match run_session_id {
            None => Err(protocol("conversation status Run Log transaction lacks a Run id")),
            Some(id) => {
                validate_id(id, "run session")?;
                Ok(AppendBase::RunLog(id))
            },
        },
    }
}

/// The line of a record: its canonical form and a line end.
pub fn status_line(canonical: &str) -> (result: Result<Vec<u8>, RuntimeError>)
    ensures
        error::failure(result) == (if encode_utf8(canonical@).len() > MAX_CONVERSATION_RECORD_BYTES {
            error::protocol_failure("conversation record exceeds its byte limit"@)
        } else {
            None
        }),
        result matches Ok(line) ==> line@ == encode_utf8(canonical@).push(LINE_FEED),
{
    let content = canonical.as_bytes();
    if content.len() > MAX_CONVERSATION_RECORD_BYTES {
        return Err(protocol("conversation record exceeds its byte limit"));
    }
    let mut line = vstd::slice::slice_to_vec(content);
    line.push(LINE_FEED);
    Ok(line)
}

/// What is wrong with a change to the summary that a line makes.
pub open spec fn after_append_failure(
    before: SummaryModel,
    kind: StatusAppendKind,
    entry: bool,
) -> Option<ErrorModel> {
    match kind {
        StatusAppendKind::History => if entry {
            None
        } else {
            error::protocol_failure("history status update lacks an entry id"@)
        },
        StatusAppendKind::AttemptIntent => if before.uncertain_attempts == u64::MAX {
            error::protocol_failure("uncertain attempt count is exhausted"@)
        } else {
            None
        },
        StatusAppendKind::AttemptResult => if before.uncertain_attempts == 0 {
            error::protocol_failure("uncertain attempt count is inconsistent"@)
        } else {
            None
        },
    }
}

/// The summary after a line was appended.
pub open spec fn after_append(
    before: SummaryModel,
    kind: StatusAppendKind,
    entry: Option<Seq<char>>,
) -> SummaryModel {
    match kind {
        StatusAppendKind::History => SummaryModel { latest_entry_id: entry, ..before },
        StatusAppendKind::AttemptIntent => SummaryModel {
            uncertain_attempts: (before.uncertain_attempts + 1) as u64,
            ..before
        },
        StatusAppendKind::AttemptResult => SummaryModel {
            uncertain_attempts: (before.uncertain_attempts - 1) as u64,
            ..before
        },
    }
}

/// The summary after a line is appended.
pub fn status_after_append(
    before: &ConversationStatusSummary,
    kind: StatusAppendKind,
    latest_entry_id: &Option<Checked>,
) -> (result: Result<ConversationStatusSummary, RuntimeError>)
    ensures
        error::failure(result) == after_append_failure(before@, kind, latest_entry_id is Some),
        result matches Ok(after) ==> {
            &&& after@ == after_append(before@, kind, selection::optional_text(*latest_entry_id))
            &&& after.conversation_id == before.conversation_id
            &&& summary::valid_ids(*before) && (latest_entry_id matches Some(id) ==> id.valid) ==> summary::valid_ids(
                after,
            )
        },
{
    let mut after = before.clone();
    match kind {
        StatusAppendKind::History => match latest_entry_id {
            Some(id) => {
                after.latest_entry_id = Some(id.clone());
            },
            None => {
                return Err(protocol("history status update lacks an entry id"));
            },
        },
        StatusAppendKind::AttemptIntent => {
            if after.uncertain_attempts == u64::MAX {
                return Err(protocol("uncertain attempt count is exhausted"));
            }
            after.uncertain_attempts = after.uncertain_attempts + 1;
        },
        StatusAppendKind::AttemptResult => {
            if after.uncertain_attempts == 0 {
                return Err(protocol("uncertain attempt count is inconsistent"));
            }
            after.uncertain_attempts = after.uncertain_attempts - 1;
        },
    }
    Ok(after)
}

/// Where a line is appended: to the last segment where it fits, and else to a new
/// one.
pub open spec fn planned_append(
    inventory: StreamInventory,
    line_bytes: nat,
    max_segment_bytes: u64,
) -> (nat, u64) {
    let total = inventory.current_bytes + line_bytes;
    let held = if total > u64::MAX {
        u64::MAX as nat
    } else {
        total as nat
    };
    if held > max_segment_bytes {
        (
            if inventory.current_ordinal == u64::MAX {
                u64::MAX as nat
            } else {
                (inventory.current_ordinal + 1) as nat
            },
            0,
        )
    } else {
        (inventory.current_ordinal as nat, inventory.current_bytes)
    }
}

/// Where a line is appended.
pub fn planned_anchored_status_append(
    inventory: StreamInventory,
    line: &[u8],
    max_segment_bytes: u64,
) -> (result: Result<(u32, u64), RuntimeError>)
    ensures
        ({
            let planned = planned_append(inventory, line@.len(), max_segment_bytes);
            &&& error::failure(result) == (if planned.0 > u32::MAX {
                error::protocol_failure("conversation stream segment ordinal is exhausted"@)
            } else {
                None
            })
            &&& result matches Ok((ordinal, prior)) ==> ordinal == planned.0 && prior == planned.1
        }),
{
    let line_bytes: u64 = line.len() as u64;
    let (ordinal, prior_bytes): (u64, u64) = if inventory.current_bytes.saturating_add(line_bytes)
        > max_segment_bytes {
        (inventory.current_ordinal.saturating_add(1), 0)
    } else {
        (inventory.current_ordinal, inventory.current_bytes)
    };
    if ordinal > 4_294_967_295 {
        return Err(protocol("conversation stream segment ordinal is exhausted"));
    }
    Ok((ordinal as u32, prior_bytes))
}

/// The transaction of a line that is appended.
pub fn append_transaction(
    before: ConversationStatusSummary,
    kind: StatusAppendKind,
    run_session_id: Option<Checked>,
    latest_entry_id: &Option<Checked>,
    line: &[u8],
    planned: Result<(u32, u64), RuntimeError>,
    ordinal_valid: bool,
) -> (result: Result<ConversationStatusTransaction, RuntimeError>)
    ensures
        error::failure(result) == error::first_failure(
            after_append_failure(before@, kind, latest_entry_id is Some),
            error::failure(planned),
        ),
        result matches Ok(transaction) ==> {
            &&& transaction.schema@ == STATUS_TRANSACTION_SCHEMA@
            &&& transaction.conversation_id == before.conversation_id
            &&& transaction.before == before
            &&& transaction.after@ == after_append(before@, kind, selection::optional_text(*latest_entry_id))
            &&& transaction.after.conversation_id == before.conversation_id
            &&& summary::valid_ids(before) && (latest_entry_id matches Some(id) ==> id.valid) ==> summary::valid_ids(
                transaction.after,
            )
            &&& transaction.mutation matches ConversationStatusMutation::Append(append)
            &&& append.kind == kind
            &&& append.run_session_id == run_session_id
            &&& append.segment_ordinal == planned->Ok_0.0
            &&& append.ordinal_valid == ordinal_valid
            &&& append.prior_bytes == planned->Ok_0.1
            &&& append.appended_bytes == line@.len()
            &&& append.appended_sha256@ == digest::digest_text(line@)
        },
{
    let after = status_after_append(&before, kind, latest_entry_id)?;
    let planned = planned?;
    let conversation_id = before.conversation_id.clone();
    Ok(
        ConversationStatusTransaction {
            schema: STATUS_TRANSACTION_SCHEMA.to_owned(),
            conversation_id,
            before,
            after,
            mutation: ConversationStatusMutation::Append(
                StatusAppend {
                    kind,
                    run_session_id,
                    segment_ordinal: planned.0,
                    ordinal_valid,
                    prior_bytes: planned.1,
                    appended_bytes: line.len() as u64,
                    appended_sha256: sha256_hex(line),
                },
            ),
        },
    )
}

/// The transaction of a run that is created.
pub fn run_creation_status_transaction(
    before: ConversationStatusSummary,
    created: RunCreated,
) -> (result: Result<ConversationStatusTransaction, RuntimeError>)
    ensures
        error::failure(result) == (if before.run_count == u64::MAX {
            error::protocol_failure("conversation Run count is exhausted"@)
        } else {
            None
        }),
        result matches Ok(transaction) ==> {
            &&& transaction.schema@ == STATUS_TRANSACTION_SCHEMA@
            &&& transaction.conversation_id == before.conversation_id
            &&& transaction.before == before
            &&& transaction.after@ == (SummaryModel {
                run_count: (before.run_count + 1) as u64,
                ..before@
            })
            &&& transaction.after.conversation_id == before.conversation_id
            &&& summary::valid_ids(transaction.after) == summary::valid_ids(before)
            &&& transaction.mutation == ConversationStatusMutation::RunCreated(created)
        },
{
    if before.run_count == u64::MAX {
        return Err(protocol("conversation Run count is exhausted"));
    }
    let mut after = before.clone();
    after.run_count = after.run_count + 1;
    let conversation_id = before.conversation_id.clone();
    Ok(
        ConversationStatusTransaction {
            schema: STATUS_TRANSACTION_SCHEMA.to_owned(),
            conversation_id,
            before,
            after,
            mutation: ConversationStatusMutation::RunCreated(created),
        },
    )
}

/// The transaction of a run that is reclaimed.
pub fn run_reclamation_status_transaction(
    before: ConversationStatusSummary,
    reclaimed: RunReclaimed,
) -> (result: Result<ConversationStatusTransaction, RuntimeError>)
    ensures
        error::failure(result) == (if before.run_count == 0 {
            error::protocol_failure("conversation Run count is inconsistent"@)
        } else {
            None
        }),
        result matches Ok(transaction) ==> {
            &&& transaction.schema@ == STATUS_TRANSACTION_SCHEMA@
            &&& transaction.conversation_id == before.conversation_id
            &&& transaction.before == before
            &&& transaction.after@ == (SummaryModel {
                run_count: (before.run_count - 1) as u64,
                ..before@
            })
            &&& transaction.after.conversation_id == before.conversation_id
            &&& summary::valid_ids(transaction.after) == summary::valid_ids(before)
            &&& transaction.mutation == ConversationStatusMutation::RunReclaimed(reclaimed)
        },
{
    if before.run_count == 0 {
        return Err(protocol("conversation Run count is inconsistent"));
    }
    let mut after = before.clone();
    after.run_count = after.run_count - 1;
    let conversation_id = before.conversation_id.clone();
    Ok(
        ConversationStatusTransaction {
            schema: STATUS_TRANSACTION_SCHEMA.to_owned(),
            conversation_id,
            before,
            after,
            mutation: ConversationStatusMutation::RunReclaimed(reclaimed),
        },
    )
}

/// A transaction that is made is accepted, where it was made of what is accepted: a
/// valid summary, a valid run, and a line that fits where it is appended.
pub proof fn law_made_transaction_is_accepted(
    transaction: ConversationStatusTransaction,
    entry: Option<Seq<char>>,
    max_segment_bytes: u64,
)
    requires
        transaction.schema@ == STATUS_TRANSACTION_SCHEMA@,
        transaction.before.schema@ == STATUS_SUMMARY_SCHEMA@,
        transaction.conversation_id == transaction.before.conversation_id,
        transaction.after.conversation_id == transaction.before.conversation_id,
        summary::valid_ids(transaction.before),
        summary::valid_ids(transaction.after),
        match transaction.mutation {
            ConversationStatusMutation::Append(append) => {
                &&& after_append_failure(transaction.before@, append.kind, entry is Some) is None
                &&& transaction.after@ == after_append(transaction.before@, append.kind, entry)
                &&& append_boundary_failure(append, max_segment_bytes) is None
                &&& digest::is_digest_text(append.appended_sha256@)
                &&& (append.run_session_id is None) == (append.kind == StatusAppendKind::History)
                &&& append.run_session_id matches Some(id) ==> id.valid
            },
            ConversationStatusMutation::RunCreated(created) => {
                &&& transaction.before.run_count < u64::MAX
                &&& transaction.after@ == (SummaryModel {
                    run_count: (transaction.before.run_count + 1) as u64,
                    ..transaction.before@
                })
                &&& created.run_session_id.valid
                &&& digest::is_digest_text(created.staging_identity@)
                &&& created.staging_name@ == staging_name(
                    created.run_session_id.text@,
                    created.staging_identity@,
                )
                &&& digest::is_digest_text(created.run_log_sha256@)
                &&& contract::run_marker_failure(created.run_identity_marker@) is None
            },
            ConversationStatusMutation::RunReclaimed(reclaimed) => {
                &&& transaction.before.run_count > 0
                &&& transaction.after@ == (SummaryModel {
                    run_count: (transaction.before.run_count - 1) as u64,
                    ..transaction.before@
                })
                &&& reclaimed.run_session_id.valid
                &&& contract::run_marker_failure(reclaimed.run_identity_marker@) is None
            },
        },
    ensures
        transaction_failure(
            transaction,
            transaction.conversation_id.text@,
            max_segment_bytes,
        ) is None,
{
    assert(transaction.after@.schema == transaction.before@.schema);
}

/// An attempt that is begun and ended leaves the summary as it was, and so does a run
/// that is created and reclaimed.
pub proof fn law_changes_cancel(before: SummaryModel)
    requires
        before.uncertain_attempts < u64::MAX,
        before.run_count < u64::MAX,
    ensures
        after_append(
            after_append(before, StatusAppendKind::AttemptIntent, None),
            StatusAppendKind::AttemptResult,
            None,
        ) == before,
        (SummaryModel {
            run_count: (((before.run_count + 1) as u64) - 1) as u64,
            ..before
        }) == before,
{
}

/// What is found of the segment that a line was to be appended to.
pub enum AppendTarget {
    Missing,
    /// It is a link, or no file.
    NotAFile,
    File { length: u64 },
    Failed(RuntimeError),
}

/// Whether a line may have been appended.
#[derive(Clone, Copy, Debug, PartialEq, Eq, Structural)]
pub enum AppendEvidence {
    /// It was not.
    NotApplied,
    /// Something was: it has to be read and compared.
    ReadBack,
}

/// What is wrong with the segment that a line was to be appended to.
pub open spec fn append_target_failure(append: StatusAppend, found: AppendTarget) -> Option<
    ErrorModel,
> {
    match found {
        AppendTarget::NotAFile => error::protocol_failure(
            "conversation status transaction target must be a real file"@,
        ),
        AppendTarget::Missing => if append.prior_bytes == 0 {
            None
        } else {
            error::protocol_failure("conversation status transaction target disappeared"@)
        },
        AppendTarget::Failed(error) => Some(error@),
        AppendTarget::File { length } => if append.prior_bytes + append.appended_bytes > u64::MAX {
            error::protocol_failure("conversation status transaction byte count overflow"@)
        } else if length != append.prior_bytes && length != append.prior_bytes
            + append.appended_bytes {
            error::protocol_failure(
                "conversation status transaction target has a torn or foreign append"@,
            )
        } else {
            None
        },
    }
}

/// Whether a line may have been appended, by the length of the segment.
pub fn judge_append_target(append: &StatusAppend, found: AppendTarget) -> (result: Result<
    AppendEvidence,
    RuntimeError,
>)
    ensures
        error::failure(result) == append_target_failure(*append, found),
        result matches Ok(evidence) ==> evidence == (match found {
            AppendTarget::File { length } if length != append.prior_bytes =>
                AppendEvidence::ReadBack,
            _ => AppendEvidence::NotApplied,
        }),
{
    match found {
        AppendTarget::NotAFile => Err(
            protocol("conversation status transaction target must be a real file"),
        ),
        AppendTarget::Missing => {
            if append.prior_bytes == 0 {
                Ok(AppendEvidence::NotApplied)
            } else {
                Err(protocol("conversation status transaction target disappeared"))
            }
        },
        AppendTarget::Failed(error) => Err(error),
        AppendTarget::File { length } => match append.prior_bytes.checked_add(
            append.appended_bytes,
        ) {
            None => Err(protocol("conversation status transaction byte count overflow")),
            Some(applied) => {
                if length == append.prior_bytes {
                    return Ok(AppendEvidence::NotApplied);
                }
                if length != applied {
                    return Err(
                        protocol(
                            "conversation status transaction target has a torn or foreign append",
                        ),
                    );
                }
                Ok(AppendEvidence::ReadBack)
            },
        },
    }
}

/// The entry that an appended line holds, and its canonical form; nothing where it
/// holds none.
pub struct AppendedEntry {
    pub entry: ConversationEntry,
    pub canonical: String,
}

/// What is wrong with an entry that was appended.
pub open spec fn appended_entry_failure(
    expected: Option<Seq<char>>,
    appended: Seq<u8>,
    found: Option<AppendedEntry>,
) -> Option<ErrorModel> {
    match expected {
        None => error::protocol_failure("conversation status history transaction lacks an entry id"@),
        Some(expected) => if appended.len() == 0 || appended.last() != LINE_FEED {
            error::protocol_failure("conversation status history append is not a complete JSONL record"@)
        } else {
            match found {
                None => error::protocol_failure("conversation status history append is malformed"@),
                Some(found) => if encode_utf8(found.canonical@) != appended.drop_last() {
                    error::protocol_failure("conversation status history append is not canonical"@)
                } else {
                    error::first_failure(
                        model::entry_failure(found.entry@),
                        if found.entry.entry_id.text@ != expected {
                            error::protocol_failure(
                                "conversation status history entry does not match its status summary"@,
                            )
                        } else {
                            None
                        },
                    )
                },
            }
        },
    }
}

/// What is wrong with a line that was appended.
pub open spec fn appended_failure(
    append: StatusAppend,
    after: ConversationStatusSummary,
    appended: Seq<u8>,
    found: Option<AppendedEntry>,
) -> Option<ErrorModel> {
    if append.appended_bytes > usize::MAX {
        error::protocol_failure("conversation status transaction append is too large"@)
    } else if appended.len() != append.appended_bytes || digest::digest_text(appended)
        != append.appended_sha256@ {
        error::protocol_failure("conversation status transaction target append does not match"@)
    } else if append.kind == StatusAppendKind::History {
        appended_entry_failure(selection::optional_text(after.latest_entry_id), appended, found)
    } else {
        None
    }
}

/// Accepts what was read behind the former end of a segment as the line that was to
/// be appended.
pub fn check_appended(
    append: &StatusAppend,
    after: &ConversationStatusSummary,
    appended: &[u8],
    found: &Option<AppendedEntry>,
) -> (result: Result<(), RuntimeError>)
    ensures
        error::failure(result) == appended_failure(*append, *after, appended@, *found),
{
    if append.appended_bytes > usize::MAX as u64 {
        return Err(protocol("conversation status transaction append is too large"));
    }
    let actual = sha256_hex(appended);
    if appended.len() as u64 != append.appended_bytes || !same_text(
        actual.as_str(),
        append.appended_sha256.as_str(),
    ) {
        return Err(protocol("conversation status transaction target append does not match"));
    }
    if append.kind != StatusAppendKind::History {
        return Ok(());
    }
    let expected = match &after.latest_entry_id {
        Some(id) => id,
        None => {
            return Err(protocol("conversation status history transaction lacks an entry id"));
        },
    };
    if appended.len() == 0 || appended[appended.len() - 1] != LINE_FEED {
        return Err(
            protocol("conversation status history append is not a complete JSONL record"),
        );
    }
    let record = vstd::slice::slice_subrange(appended, 0, appended.len() - 1);
    assert(record@ =~= appended@.drop_last());
    match found {
        None => Err(protocol("conversation status history append is malformed")),
        Some(found) => {
            if !same_bytes(found.canonical.as_str().as_bytes(), record) {
                return Err(protocol("conversation status history append is not canonical"));
            }
            validate_conversation_entry(&found.entry)?;
            if !same_text(found.entry.entry_id.text.as_str(), expected.text.as_str()) {
                return Err(
                    protocol(
                        "conversation status history entry does not match its status summary",
                    ),
                );
            }
            Ok(())
        },
    }
}

/// Whether the stream of a line has to be made durable before its transaction is
/// ended: where the line was appended, or a new segment may have been begun for it.
pub open spec fn must_sync(append: StatusAppend, applied: bool, target: AppendTarget) -> bool {
    applied || (append.segment_ordinal > 1 && append.prior_bytes == 0 && target is File)
}

/// Whether the stream of a line has to be made durable before its transaction is
/// ended.
pub fn finalize_status_append_recovery(append: &StatusAppend, applied: bool, target: AppendTarget) -> (result:
    Result<bool, RuntimeError>)
    ensures
        error::failure(result) == (if applied || append.segment_ordinal <= 1 || append.prior_bytes != 0 {
            None
        } else {
            match target {
                AppendTarget::NotAFile => error::protocol_failure(
                    "conversation status transaction target must be a real file"@,
                ),
                AppendTarget::Failed(error) => Some(error@),
                _ => None,
            }
        }),
        result matches Ok(sync) ==> sync == must_sync(*append, applied, target),
{
    if applied {
        return Ok(true);
    }
    if append.segment_ordinal <= 1 || append.prior_bytes != 0 {
        return Ok(false);
    }
    match target {
        AppendTarget::NotAFile => Err(
            protocol("conversation status transaction target must be a real file"),
        ),
        AppendTarget::Failed(error) => Err(error),
        AppendTarget::Missing => Ok(false),
        AppendTarget::File { .. } => Ok(true),
    }
}

/// The summary that matches whether a change was made.
pub open spec fn selected(transaction: ConversationStatusTransaction, applied: bool) -> SummaryModel {
    if applied {
        transaction.after@
    } else {
        transaction.before@
    }
}

/// What is wrong with the summary that there is against a transaction.
pub open spec fn current_failure(
    transaction: ConversationStatusTransaction,
    current: SummaryModel,
) -> Option<ErrorModel> {
    if current != transaction.before@ && current != transaction.after@ {
        error::protocol_failure("conversation status summary does not match its transaction"@)
    } else {
        None
    }
}

/// Accepts the summary that there is: the one before the transaction, or the one
/// after it.
pub fn check_current_summary(
    transaction: &ConversationStatusTransaction,
    current: &ConversationStatusSummary,
) -> (result: Result<(), RuntimeError>)
    ensures
        error::failure(result) == current_failure(*transaction, current@),
{
    if !same_summary(current, &transaction.before) && !same_summary(current, &transaction.after) {
        return Err(protocol("conversation status summary does not match its transaction"));
    }
    Ok(())
}

/// Where ending a transaction stands that was found written down.
#[derive(Clone, Copy, Debug, PartialEq, Eq, Structural)]
pub enum RecoverStage {
    /// Is a transaction written down?
    LookTransaction,
    /// None is: is one left half-written?
    LookStaleStage,
    RemoveStaleStage,
    /// Is a summary left half-written, without a transaction?
    LookStraySummary,
    /// One is: is another half-written?
    LookSecondStage,
    /// Is a summary left half-written?
    LookSummaryStage,
    RemoveSummaryStage,
    /// Read the transaction and the summary, and find whether the change was made.
    Judge,
    /// Make durable what the change concerns.
    Sync { applied: bool },
    /// Set the summary to match.
    Replace { applied: bool },
    /// Take the transaction away.
    Clear,
    Done,
}

/// The stage behind looking for a small file.
pub open spec fn stage_behind_look(stage: RecoverStage, present: bool) -> RecoverStage {
    match stage {
        RecoverStage::LookTransaction => if present {
            RecoverStage::LookSecondStage
        } else {
            RecoverStage::LookStaleStage
        },
        RecoverStage::LookStaleStage => if present {
            RecoverStage::RemoveStaleStage
        } else {
            RecoverStage::LookStraySummary
        },
        RecoverStage::LookStraySummary => RecoverStage::Done,
        RecoverStage::LookSecondStage => RecoverStage::LookSummaryStage,
        RecoverStage::LookSummaryStage => if present {
            RecoverStage::RemoveSummaryStage
        } else {
            RecoverStage::Judge
        },
        other => other,
    }
}

/// What is looked for at a stage.
pub open spec fn look_label(stage: RecoverStage) -> Seq<char> {
    match stage {
        RecoverStage::LookTransaction => "conversation status transaction"@,
        RecoverStage::LookStaleStage | RecoverStage::LookSecondStage =>
            "staged conversation status transaction"@,
        _ => "staged conversation status summary"@,
    }
}

/// Whether something is looked for at a stage.
pub open spec fn is_look(stage: RecoverStage) -> bool {
    stage is LookTransaction || stage is LookStaleStage || stage is LookStraySummary
        || stage is LookSecondStage || stage is LookSummaryStage
}

/// What is wrong with what is found at a stage.
pub open spec fn look_failure(stage: RecoverStage, found: Artifact) -> Option<ErrorModel> {
    error::first_failure(
        artifact_failure(found, look_label(stage)),
        if stage is LookStraySummary && found is File {
            error::protocol_failure("staged conversation status summary lacks its transaction"@)
        } else if stage is LookSecondStage && found is File {
            error::protocol_failure("conversation status transaction has a second staged record"@)
        } else {
            None
        },
    )
}

/// Goes on by what is found under the name that is looked for.
pub fn recover_looked(stage: RecoverStage, found: Artifact) -> (result: Result<
    RecoverStage,
    RuntimeError,
>)
    requires
        is_look(stage),
    ensures
        error::failure(result) == look_failure(stage, found),
        result matches Ok(next) ==> next == stage_behind_look(stage, found is File),
{
    let label = match stage {
        RecoverStage::LookTransaction => "conversation status transaction",
        RecoverStage::LookStaleStage => "staged conversation status transaction",
        RecoverStage::LookSecondStage => "staged conversation status transaction",
        _ => "staged conversation status summary",
    };
    let present = real_file_artifact_present(found, label)?;
    match stage {
        RecoverStage::LookTransaction => {
            if present {
                Ok(RecoverStage::LookSecondStage)
            } else {
                Ok(RecoverStage::LookStaleStage)
            }
        },
        RecoverStage::LookStaleStage => {
            if present {
                Ok(RecoverStage::RemoveStaleStage)
            } else {
                Ok(RecoverStage::LookStraySummary)
            }
        },
        RecoverStage::LookStraySummary => {
            if present {
                return Err(
                    protocol("staged conversation status summary lacks its transaction"),
                );
            }
            Ok(RecoverStage::Done)
        },
        RecoverStage::LookSecondStage => {
            if present {
                return Err(
                    protocol("conversation status transaction has a second staged record"),
                );
            }
            Ok(RecoverStage::LookSummaryStage)
        },
        RecoverStage::LookSummaryStage => {
            if present {
                Ok(RecoverStage::RemoveSummaryStage)
            } else {
                Ok(RecoverStage::Judge)
            }
        },
        other => Ok(other),
    }
}

/// The stage behind a removal or a write.
pub open spec fn stage_behind_work(
    stage: RecoverStage,
    transaction: ConversationStatusTransaction,
    current: SummaryModel,
) -> RecoverStage {
    match stage {
        RecoverStage::RemoveStaleStage => RecoverStage::LookStraySummary,
        RecoverStage::RemoveSummaryStage => RecoverStage::Judge,
        RecoverStage::Sync { applied } => if current != selected(transaction, applied) {
            RecoverStage::Replace { applied }
        } else {
            RecoverStage::Clear
        },
        RecoverStage::Replace { .. } => RecoverStage::Clear,
        RecoverStage::Clear => RecoverStage::Done,
        other => other,
    }
}

/// Goes on when what was left half-written was removed.
pub fn recover_removed(stage: RecoverStage) -> (next: RecoverStage)
    requires
        stage is RemoveStaleStage || stage is RemoveSummaryStage,
    ensures
        stage is RemoveStaleStage ==> next is LookStraySummary,
        stage is RemoveSummaryStage ==> next is Judge,
{
    match stage {
        RecoverStage::RemoveStaleStage => RecoverStage::LookStraySummary,
        _ => RecoverStage::Judge,
    }
}

/// Accepts a transaction that was found written down, against the summary that there
/// is.
pub fn recover_status_transaction(
    transaction: &ConversationStatusTransaction,
    current: &ConversationStatusSummary,
    conversation_id: &str,
    max_segment_bytes: u64,
) -> (result: Result<(), RuntimeError>)
    ensures
        error::failure(result) == error::first_failure(
            transaction_failure(*transaction, conversation_id@, max_segment_bytes),
            error::first_failure(
                summary::summary_failure(*current, conversation_id@),
                current_failure(*transaction, current@),
            ),
        ),
{
    validate_status_transaction(transaction, conversation_id, max_segment_bytes)?;
    validate_status_summary(current, conversation_id)?;
    check_current_summary(transaction, current)
}

/// Goes on when something was written or made durable.
pub fn recover_worked(
    stage: RecoverStage,
    transaction: &ConversationStatusTransaction,
    current: &ConversationStatusSummary,
) -> (next: RecoverStage)
    requires
        stage is Sync || stage is Replace || stage is Clear,
    ensures
        next == stage_behind_work(stage, *transaction, current@),
{
    match stage {
        RecoverStage::Sync { applied } => {
            let same = if applied {
                same_summary(current, &transaction.after)
            } else {
                same_summary(current, &transaction.before)
            };
            if same {
                RecoverStage::Clear
            } else {
                RecoverStage::Replace { applied }
            }
        },
        RecoverStage::Replace { .. } => RecoverStage::Clear,
        RecoverStage::Clear => RecoverStage::Done,
        other => other,
    }
}

/// The summary that a replacement puts in place.
pub fn selected_summary(transaction: &ConversationStatusTransaction, applied: bool) -> (summary:
    &ConversationStatusSummary)
    ensures
        summary@ == selected(*transaction, applied),
{
    if applied {
        &transaction.after
    } else {
        &transaction.before
    }
}

/// The summary once it has been set: the one there was where it matches already, and
/// else the one that matches.
pub open spec fn settled(
    transaction: ConversationStatusTransaction,
    current: SummaryModel,
    applied: bool,
) -> SummaryModel {
    if stage_behind_work(RecoverStage::Sync { applied }, transaction, current) is Replace {
        selected(transaction, applied)
    } else {
        current
    }
}

/// Whatever was interrupted, ending a transaction leaves the summary that matches what
/// was done: the one after it where the change was made, the one before it where it
/// was not. Ending it once more would change nothing.
pub proof fn law_recovery_settles(
    transaction: ConversationStatusTransaction,
    current: SummaryModel,
    applied: bool,
)
    requires
        current_failure(transaction, current) is None,
    ensures
        settled(transaction, current, applied) == selected(transaction, applied),
        settled(transaction, settled(transaction, current, applied), applied) == settled(
            transaction,
            current,
            applied,
        ),
        current_failure(transaction, settled(transaction, current, applied)) is None,
{
}

/// What is wrong with one of the files that tell whether a transaction has to be
/// ended.
pub open spec fn required_failure(
    transaction: Artifact,
    staged: Artifact,
    summary: Artifact,
) -> Option<ErrorModel> {
    let first = artifact_failure(transaction, "conversation status transaction"@);
    let second = artifact_failure(staged, "staged conversation status transaction"@);
    let third = artifact_failure(summary, "staged conversation status summary"@);
    if first is Some || transaction is File {
        first
    } else if second is Some || staged is File {
        second
    } else {
        third
    }
}

/// Whether a transaction has to be ended, or what is left of one removed.
pub fn status_recovery_is_required(transaction: Artifact, staged: Artifact, summary: Artifact) -> (result:
    Result<bool, RuntimeError>)
    ensures
        error::failure(result) == required_failure(transaction, staged, summary),
        result matches Ok(required) ==> required == (transaction is File || staged is File
            || summary is File),
{
    if real_file_artifact_present(transaction, "conversation status transaction")? {
        return Ok(true);
    }
    if real_file_artifact_present(staged, "staged conversation status transaction")? {
        return Ok(true);
    }
    real_file_artifact_present(summary, "staged conversation status summary")
}

/// An append changes of a summary what it appends and nothing else: an entry becomes the
/// latest one, an intent makes one attempt more uncertain, and a result one less.
pub proof fn law_append_changes_its_own_count(
    before: SummaryModel,
    kind: StatusAppendKind,
    entry: Option<Seq<char>>,
)
    requires
        after_append_failure(before, kind, entry is Some) is None,
    ensures
        ({
            let after = after_append(before, kind, entry);
            &&& after.schema == before.schema
            &&& after.conversation_id == before.conversation_id
            &&& after.run_count == before.run_count
            &&& kind == StatusAppendKind::History ==> entry is Some && after.latest_entry_id
                == entry && after.uncertain_attempts == before.uncertain_attempts
            &&& kind == StatusAppendKind::AttemptIntent ==> after.latest_entry_id
                == before.latest_entry_id && after.uncertain_attempts == before.uncertain_attempts
                + 1
            &&& kind == StatusAppendKind::AttemptResult ==> after.latest_entry_id
                == before.latest_entry_id && after.uncertain_attempts + 1
                == before.uncertain_attempts
        }),
{
}

/// A transaction that is accepted is of the conversation, changes the summary by what its
/// mutation does, and by nothing else: a history append leaves both counts, an intent adds an
/// uncertain attempt and a result takes one away, a created run is one run more and a
/// reclaimed one is one less.
pub proof fn law_accepted_transaction_keeps_the_account(
    transaction: ConversationStatusTransaction,
    conversation_id: Seq<char>,
    max_segment_bytes: u64,
)
    requires
        transaction_failure(transaction, conversation_id, max_segment_bytes) is None,
    ensures
        ({
            let (before, after) = (transaction.before@, transaction.after@);
            &&& transaction.conversation_id.text@ == conversation_id
            &&& before.conversation_id == conversation_id
            &&& after.conversation_id == conversation_id
            &&& match transaction.mutation {
                ConversationStatusMutation::Append(append) => {
                    &&& after.run_count == before.run_count
                    &&& append.appended_bytes > 0
                    &&& append.prior_bytes + append.appended_bytes <= max_segment_bytes
                    &&& append.kind == StatusAppendKind::History ==> append.run_session_id is None
                        && after.latest_entry_id is Some && after.uncertain_attempts
                        == before.uncertain_attempts
                    &&& append.kind == StatusAppendKind::AttemptIntent ==> append.run_session_id
                        is Some && after.latest_entry_id == before.latest_entry_id
                        && after.uncertain_attempts == before.uncertain_attempts + 1
                    &&& append.kind == StatusAppendKind::AttemptResult ==> append.run_session_id
                        is Some && after.latest_entry_id == before.latest_entry_id
                        && after.uncertain_attempts + 1 == before.uncertain_attempts
                },
                ConversationStatusMutation::RunCreated(created) => {
                    &&& created.run_session_id.valid
                    &&& after.run_count == before.run_count + 1
                    &&& after.latest_entry_id == before.latest_entry_id
                    &&& after.uncertain_attempts == before.uncertain_attempts
                    &&& created.staging_name@ == ".run-"@ + created.run_session_id.text@ + "-"@
                        + created.staging_identity@ + ".staged"@
                },
                ConversationStatusMutation::RunReclaimed(reclaimed) => {
                    &&& reclaimed.run_session_id.valid
                    &&& after.run_count + 1 == before.run_count
                    &&& after.latest_entry_id == before.latest_entry_id
                    &&& after.uncertain_attempts == before.uncertain_attempts
                },
            }
        }),
{
}

/// A line is appended to the current segment where it fits there, behind what the segment
/// holds, and otherwise to the next, which is empty.
pub proof fn law_append_is_planned_where_it_fits(
    inventory: StreamInventory,
    line_bytes: nat,
    max_segment_bytes: u64,
)
    requires
        max_segment_bytes < u64::MAX,
        inventory.current_ordinal < u64::MAX,
    ensures
        ({
            let (ordinal, prior) = planned_append(inventory, line_bytes, max_segment_bytes);
            &&& inventory.current_bytes + line_bytes <= max_segment_bytes ==> ordinal
                == inventory.current_ordinal && prior == inventory.current_bytes
            &&& inventory.current_bytes + line_bytes > max_segment_bytes ==> ordinal
                == inventory.current_ordinal + 1 && prior == 0
        }),
{
}

/// The target of an append is accepted exactly where it is as long as before the append or as
/// long as after it, or was to be created and is missing.
pub proof fn law_append_is_whole_or_absent(append: StatusAppend, found: AppendTarget)
    requires
        append.prior_bytes + append.appended_bytes <= u64::MAX,
    ensures
        append_target_failure(append, found) is None <==> {
            ||| found is Missing && append.prior_bytes == 0
            ||| found is File && found->length == append.prior_bytes
            ||| found is File && found->length == append.prior_bytes + append.appended_bytes
        },
{
}

/// What was appended is accepted only where it is exactly the bytes that were recorded; and
/// an entry only where it is the latest of the summary behind it.
pub proof fn law_appended_bytes_are_those_recorded(
    append: StatusAppend,
    after: ConversationStatusSummary,
    appended: Seq<u8>,
    found: Option<AppendedEntry>,
)
    requires
        appended_failure(append, after, appended, found) is None,
    ensures
        appended.len() == append.appended_bytes,
        digest::digest_text(appended) == append.appended_sha256@,
        append.kind == StatusAppendKind::History ==> {
            &&& after.latest_entry_id is Some
            &&& found is Some
            &&& found->0.entry.entry_id.text@ == after.latest_entry_id->0.text@
            &&& appended.len() > 0
            &&& appended.last() == LINE_FEED
            &&& appended.drop_last() == encode_utf8(found->0.canonical@)
        },
{
}

/// A recovery looks for the transaction. Where there is one, it looks for a second, removes a
/// staged summary, judges, makes durable, puts the summary right where it differs, and clears
/// the transaction. Where there is none, it removes a stale staged one and is done.
pub proof fn law_course_of_a_recovery(
    transaction: ConversationStatusTransaction,
    current: SummaryModel,
    applied: bool,
)
    ensures
        stage_behind_look(RecoverStage::LookTransaction, true) is LookSecondStage,
        stage_behind_look(RecoverStage::LookTransaction, false) is LookStaleStage,
        stage_behind_look(RecoverStage::LookStaleStage, true) is RemoveStaleStage,
        stage_behind_look(RecoverStage::LookStaleStage, false) is LookStraySummary,
        stage_behind_look(RecoverStage::LookStraySummary, false) is Done,
        stage_behind_look(RecoverStage::LookSecondStage, false) is LookSummaryStage,
        stage_behind_look(RecoverStage::LookSummaryStage, true) is RemoveSummaryStage,
        stage_behind_look(RecoverStage::LookSummaryStage, false) is Judge,
        stage_behind_work(RecoverStage::RemoveStaleStage, transaction, current) is LookStraySummary,
        stage_behind_work(RecoverStage::RemoveSummaryStage, transaction, current) is Judge,
        stage_behind_work(RecoverStage::Clear, transaction, current) is Done,
        stage_behind_work(RecoverStage::Replace { applied }, transaction, current) is Clear,
        ({
            let behind = stage_behind_work(RecoverStage::Sync { applied }, transaction, current);
            &&& applied && current == transaction.after@ ==> behind is Clear
            &&& applied && current != transaction.after@ ==> behind == RecoverStage::Replace {
                applied,
            }
            &&& !applied && current == transaction.before@ ==> behind is Clear
            &&& !applied && current != transaction.before@ ==> behind == RecoverStage::Replace {
                applied,
            }
        }),
{
}

} // verus!
