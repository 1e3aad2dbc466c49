//! Appending a line to a conversation together with the summary that follows from it.

use crate::contract::{Checked, MAX_CONVERSATION_RECORD_BYTES};
use crate::error::{protocol, push_failure, ErrorModel, RuntimeError};
use crate::error;
use crate::status::summary::{read_status_summary, ConversationStatusSummary};
use crate::status::summary;
use crate::status::transaction::{append_transaction, check_appended, judge_append_target, status_after_append, status_line, AppendEvidence, AppendTarget, AppendedEntry, ConversationStatusMutation, ConversationStatusTransaction, StatusAppendKind};
use crate::status::transaction;
use crate::stream::framing::LINE_FEED;
use vstd::prelude::*;
use vstd::utf8::*;

verus! {

/// Whether something was found behind the former end of a segment.
pub open spec fn grew(prior_bytes: u64, found: AppendTarget) -> bool {
    found matches AppendTarget::File { length } && length != prior_bytes
}

/// What is wrong with telling whether the line of a transaction was appended.
pub open spec fn applied_failure(
    transaction: ConversationStatusTransaction,
    found: AppendTarget,
    appended: Result<Vec<u8>, RuntimeError>,
    entry: Option<AppendedEntry>,
) -> Option<ErrorModel> {
    match transaction.mutation {
        ConversationStatusMutation::Append(append) => error::first_failure(
            transaction::append_target_failure(append, found),
            if grew(append.prior_bytes, found) {
                match appended {
                    Err(failure) => Some(failure@),
                    Ok(appended) => transaction::appended_failure(
                        append,
                        transaction.after,
                        appended@,
                        entry,
                    ),
                }
            } else {
                None
            },
        ),
        _ => error::protocol_failure("conversation status mutation is not an append"@),
    }
}

/// Tells whether the line of a transaction was appended, by the segment it was to be
/// appended to and by what stands behind the former end of it.
pub fn status_append_was_applied(
    transaction: &ConversationStatusTransaction,
    found: AppendTarget,
    appended: Result<Vec<u8>, RuntimeError>,
    entry: &Option<AppendedEntry>,
) -> (result: Result<bool, RuntimeError>)
    ensures
        error::failure(result) == applied_failure(*transaction, found, appended, *entry),
        result matches Ok(applied) ==> transaction.mutation matches ConversationStatusMutation::Append(
            append,
        ) && applied == grew(append.prior_bytes, found),
{
    match &transaction.mutation {
        ConversationStatusMutation::Append(append) => match judge_append_target(append, found)? {
            AppendEvidence::NotApplied => Ok(false),
            AppendEvidence::ReadBack => {
                let appended = appended?;
                check_appended(append, &transaction.after, appended.as_slice(), entry)?;
                Ok(true)
            },
        },
        _ => Err(protocol("conversation status mutation is not an append")),
    }
}

/// Where appending a line stands.
#[derive(Clone, Copy, Debug, PartialEq, Eq, Structural)]
pub enum AppendingStage {
    /// What an earlier transaction left is settled.
    Recover,
    /// The summary is read.
    ReadSummary,
    /// It is found out where the line is appended.
    Plan,
    /// The transaction is written down.
    Record,
    /// The line is appended.
    Append,
    /// The summary is replaced.
    Replace,
    /// The transaction is taken away.
    Clear,
    /// What the failed append left is settled.
    RecoverAfterFailure,
    Done,
}

/// Appending a line.
pub struct StatusAppending {
    pub conversation_id: String,
    pub kind: StatusAppendKind,
    pub run_session_id: Option<Checked>,
    pub latest_entry_id: Option<Checked>,
    pub line: Vec<u8>,
    pub stage: AppendingStage,
    pub before: Option<ConversationStatusSummary>,
    pub transaction: Option<ConversationStatusTransaction>,
    /// What went wrong, in the order in which it did.
    pub failures: Vec<RuntimeError>,
}

/// The stage after one that reads nothing.
pub open spec fn stage_behind(stage: AppendingStage, succeeded: bool) -> AppendingStage {
    match stage {
        AppendingStage::Append => if succeeded {
            AppendingStage::Replace
        } else {
            AppendingStage::RecoverAfterFailure
        },
        AppendingStage::Recover => if succeeded {
            AppendingStage::ReadSummary
        } else {
            AppendingStage::Done
        },
        AppendingStage::Record => if succeeded {
            AppendingStage::Append
        } else {
            AppendingStage::Done
        },
        AppendingStage::Replace => if succeeded {
            AppendingStage::Clear
        } else {
            AppendingStage::Done
        },
        _ => AppendingStage::Done,
    }
}

impl StatusAppending {
    /// Whether what is known fits the stage.
    pub open spec fn wf(self) -> bool {
        match self.stage {
            AppendingStage::Recover => self.failures@.len() == 0,
            AppendingStage::ReadSummary => self.failures@.len() == 0,
            AppendingStage::Plan => self.failures@.len() == 0 && self.before is Some
                && transaction::after_append_failure(
                self.before->0@,
                self.kind,
                self.latest_entry_id is Some,
            ) is None,
            AppendingStage::Record => self.failures@.len() == 0 && self.transaction is Some,
            AppendingStage::Append => self.failures@.len() == 0 && self.transaction is Some,
            AppendingStage::Replace => self.failures@.len() == 0 && self.transaction is Some,
            AppendingStage::Clear => self.failures@.len() == 0 && self.transaction is Some,
            AppendingStage::RecoverAfterFailure => self.failures@.len() == 1,
            AppendingStage::Done => true,
        }
    }

    /// Whether the same is appended.
    pub open spec fn same_request(self, other: StatusAppending) -> bool {
        &&& self.conversation_id == other.conversation_id
        &&& self.kind == other.kind
        &&& self.latest_entry_id == other.latest_entry_id
        &&& self.line == other.line
    }

    /// Begins to append the line of a record.
    pub fn append_jsonl_with_status_inner(
        conversation_id: &str,
        canonical: &str,
        kind: StatusAppendKind,
        run_session_id: Option<Checked>,
        latest_entry_id: Option<Checked>,
    ) -> (result: Result<StatusAppending, RuntimeError>)
        ensures
            error::failure(result) == (if encode_utf8(canonical@).len()
                > MAX_CONVERSATION_RECORD_BYTES {
                error::protocol_failure("conversation record exceeds its byte limit"@)
            } else {
                None
            }),
            result matches Ok(appending) ==> {
                &&& appending.wf()
                &&& appending.conversation_id@ == conversation_id@
                &&& appending.kind == kind
                &&& appending.run_session_id == run_session_id
                &&& appending.latest_entry_id == latest_entry_id
                &&& appending.line@ == encode_utf8(canonical@).push(LINE_FEED)
                &&& appending.stage == AppendingStage::Recover
                &&& appending.before is None
                &&& appending.transaction is None
                &&& appending.failures@.len() == 0
            },
    {
        let line = status_line(canonical)?;
        Ok(
            StatusAppending {
                conversation_id: conversation_id.to_owned(),
                kind,
                run_session_id,
                latest_entry_id,
                line,
                stage: AppendingStage::Recover,
                before: None,
                transaction: None,
                failures: Vec::new(),
            },
        )
    }

    /// Goes on by what came of a stage that reads nothing.
    pub fn advance(&mut self, outcome: Result<(), RuntimeError>)
        requires
            old(self).wf(),
            old(self).stage != AppendingStage::ReadSummary,
            old(self).stage != AppendingStage::Plan,
        ensures
            final(self).wf(),
            final(self).same_request(*old(self)),
            final(self).run_session_id == old(self).run_session_id,
            final(self).before == old(self).before,
            final(self).transaction == old(self).transaction,
            final(self).stage == stage_behind(old(self).stage, outcome is Ok),
            error::failures_view(final(self).failures@) == error::failures_view(
                old(self).failures@,
            ) + error::optional_failure(error::failure(outcome)),
    {
        let succeeded = outcome.is_ok();
        push_failure(&mut self.failures, outcome);
        self.stage = match self.stage {
            AppendingStage::Append => if succeeded {
                AppendingStage::Replace
            } else {
                AppendingStage::RecoverAfterFailure
            },
            AppendingStage::Recover => if succeeded {
                AppendingStage::ReadSummary
            } else {
                AppendingStage::Done
            },
            AppendingStage::Record => if succeeded {
                AppendingStage::Append
            } else {
                AppendingStage::Done
            },
            AppendingStage::Replace => if succeeded {
                AppendingStage::Clear
            } else {
                AppendingStage::Done
            },
            _ => AppendingStage::Done,
        };
    }

    /// What is wrong with the summary that was read.
    pub open spec fn read_failure(
        self,
        found: Result<Option<ConversationStatusSummary>, RuntimeError>,
    ) -> Option<ErrorModel> {
        match found {
            Err(failure) => Some(failure@),
            Ok(None) => error::protocol_failure("conversation status summary is missing"@),
            Ok(Some(found)) => error::first_failure(
                summary::summary_failure(found, self.conversation_id@),
                transaction::after_append_failure(
                    found@,
                    self.kind,
                    self.latest_entry_id is Some,
                ),
            ),
        }
    }

    fn judge_summary(
        &self,
        found: Result<Option<ConversationStatusSummary>, RuntimeError>,
    ) -> (result: Result<ConversationStatusSummary, RuntimeError>)
        ensures
            error::failure(result) == self.read_failure(found),
            result matches Ok(summary) ==> found == Ok::<
                Option<ConversationStatusSummary>,
                RuntimeError,
            >(Some(summary)),
    {
        let found = found?;
        let before = read_status_summary(found, self.conversation_id.as_str())?;
        status_after_append(&before, self.kind, &self.latest_entry_id)?;
        Ok(before)
    }

    /// Goes on by the summary as it is before the append.
    pub fn summary_read(&mut self, found: Result<Option<ConversationStatusSummary>, RuntimeError>)
        requires
            old(self).wf(),
            old(self).stage == AppendingStage::ReadSummary,
        ensures
            final(self).wf(),
            final(self).same_request(*old(self)),
            final(self).run_session_id == old(self).run_session_id,
            final(self).transaction == old(self).transaction,
            error::failures_view(final(self).failures@) == error::optional_failure(
                old(self).read_failure(found),
            ),
            match old(self).read_failure(found) {
                Some(_) => {
                    &&& final(self).stage == AppendingStage::Done
                    &&& final(self).before == old(self).before
                },
                None => {
                    &&& final(self).stage == AppendingStage::Plan
                    &&& final(self).before == found->Ok_0
                },
            },
    {
        let outcome = self.judge_summary(found);
        match outcome {
            Ok(before) => {
                self.before = Some(before);
                self.stage = AppendingStage::Plan;
            },
            Err(error) => {
                self.failures.push(error);
                self.stage = AppendingStage::Done;
            },
        }
        assert(error::failures_view(self.failures@) =~= error::optional_failure(
            old(self).read_failure(found),
        ));
    }

    /// Goes on by where the line is appended: the transaction is what is to be written
    /// down.
    pub fn planned(&mut self, planned: Result<(u32, u64), RuntimeError>, ordinal_valid: bool)
        requires
            old(self).wf(),
            old(self).stage == AppendingStage::Plan,
        ensures
            final(self).wf(),
            final(self).same_request(*old(self)),
            error::failures_view(final(self).failures@) == error::optional_failure(
                error::failure(planned),
            ),
            final(self).run_session_id is None,
            final(self).before is None,
            planned is Err ==> {
                &&& final(self).stage == AppendingStage::Done
                &&& final(self).transaction == old(self).transaction
            },
            planned is Ok ==> {
                &&& final(self).stage == AppendingStage::Record
                &&& final(self).transaction matches Some(transaction)
                &&& transaction.schema@ == transaction::STATUS_TRANSACTION_SCHEMA@
                &&& transaction.conversation_id == old(self).before->0.conversation_id
                &&& transaction.before == old(self).before->0
                &&& transaction.after.conversation_id == old(self).before->0.conversation_id
                &&& summary::valid_ids(old(self).before->0) && (old(self).latest_entry_id matches Some(id)
                    ==> id.valid) ==> summary::valid_ids(transaction.after)
                &&& transaction.after@ == transaction::after_append(
                    old(self).before->0@,
                    old(self).kind,
                    crate::runs::selection::optional_text(old(self).latest_entry_id),
                )
                &&& transaction.mutation matches ConversationStatusMutation::Append(append)
                &&& append.kind == old(self).kind
                &&& append.run_session_id == old(self).run_session_id
                &&& append.segment_ordinal == planned->Ok_0.0
                &&& append.ordinal_valid == ordinal_valid
                &&& append.prior_bytes == planned->Ok_0.1
                &&& append.appended_bytes == old(self).line@.len()
                &&& append.appended_sha256@ == crate::digest::digest_text(old(self).line@)
            },
    {
        let run_session_id = self.run_session_id.take();
        let outcome = match self.before.take() {
            Some(before) => append_transaction(
                before,
                self.kind,
                run_session_id,
                &self.latest_entry_id,
                self.line.as_slice(),
                planned,
                ordinal_valid,
            ),
            None => {
                return ;
            },
        };
        match outcome {
            Ok(transaction) => {
                self.transaction = Some(transaction);
                self.stage = AppendingStage::Record;
            },
            Err(error) => {
                self.failures.push(error);
                self.stage = AppendingStage::Done;
            },
        }
        assert(error::failures_view(self.failures@) =~= error::optional_failure(
            error::failure(planned),
        ));
    }
}

/// A line is appended only where its transaction was written down, the summary is
/// replaced only where the line was appended, and the transaction is taken away only
/// where the summary was replaced; an append that fails is settled before it is reported.
pub proof fn law_append_is_written_down_first(stage: AppendingStage, succeeded: bool)
    requires
        stage != AppendingStage::ReadSummary,
        stage != AppendingStage::Plan,
    ensures
        stage_behind(stage, succeeded) == AppendingStage::Append ==> stage
            == AppendingStage::Record && succeeded,
        stage_behind(stage, succeeded) == AppendingStage::Replace ==> stage
            == AppendingStage::Append && succeeded,
        stage_behind(stage, succeeded) == AppendingStage::Clear ==> stage
            == AppendingStage::Replace && succeeded,
        stage == AppendingStage::Append && !succeeded ==> stage_behind(stage, succeeded)
            == AppendingStage::RecoverAfterFailure,
{
}

} // verus!
