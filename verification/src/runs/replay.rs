//! Recovering a run: what its snapshot records is gone through again, step by step,
//! and must come out the same; only behind the last record is anything new written.

use crate::contract::{Checked, MAX_CONVERSATION_RECORD_BYTES};
use crate::digest::sha256_hex;
use crate::digest;
use crate::error::{persisted_state, protocol, ErrorModel, RuntimeError};
use crate::error;
use crate::keyed::KeyedList;
use crate::keyed;
use crate::runs::attempts::{clone_checked, clone_optional, same_result, ResultModel, RunAttemptKind, RunAttemptLifecycle, RunAttemptResult, RunAttemptState, RunLogRecord};
use crate::runs::attempts;
use crate::runs::objects::{ContextObject, ObjectUri};
use crate::runs::recovery::{validate_productive_recovery_record, ProductiveRecoveryRecord, RecoveredAttempt, RecoveryHeader, PRODUCTIVE_RECOVERY_SCHEMA_V0};
use crate::runs::recovery;
use crate::runs::selection::{check_addressed, same_optional_text};
use crate::runs::selection;
use crate::runs::storage::{canonical_json, ensure_productive_metadata_growth, holds_text};
use crate::runs::storage;
use crate::stream::framing::{complete_jsonl_prefix_len, LINE_FEED};
use crate::stream::framing;
use crate::stream::writer::CanonicalForm;
use crate::text::{append_text, join2, join3, same_bytes, same_text};
use crate::text;
use vstd::prelude::*;
use vstd::utf8::*;

verus! {

/// An attempt that has ended, as the log of the run has it.
pub struct RecoveryAttempt {
    pub request_hash: String,
    pub result: RunAttemptResult,
    pub tool_id: Option<Checked>,
}

/// Recovering a run. The records are those of its snapshot behind the header.
pub struct ProductiveRecoveryWriter {
    pub completed_attempts: KeyedList<RecoveryAttempt>,
    pub consumed_attempts: Vec<String>,
    pub failed: bool,
    pub prior_event_count: u64,
    pub replay_cursor: usize,
    pub replay_records: Vec<ProductiveRecoveryRecord>,
    pub terminal_snapshot_hash: Option<String>,
}

/// A writer for a run that begins, with the header that its snapshot will have.
pub struct PreparedProductiveRecoveryWriter {
    pub header: ProductiveRecoveryRecord,
    pub writer: ProductiveRecoveryWriter,
}

/// Which attempt is asked for.
pub struct AttemptRequest {
    pub kind: RunAttemptKind,
    pub attempt_id: Checked,
    pub request_hash: String,
    pub tool_id: Option<Checked>,
}

/// What is to be done about an attempt that is asked for.
pub enum Recovery {
    /// It was made before, and this came of it.
    Replayed(RunAttemptResult),
    /// It was made before, but its record has to be written to the snapshot.
    Append { record: ProductiveRecoveryRecord, result: RunAttemptResult },
    /// It was not made before.
    Live,
}

/// What a record says came of an attempt.
pub open spec fn attempt_result(attempt: RecoveredAttempt, kind: RunAttemptKind) -> ResultModel {
    ResultModel {
        attempt_id: attempt.attempt_id.text@,
        attempt_kind: kind,
        outcome: attempt.outcome@,
        classification: text::optional_view(attempt.classification),
        exit_code: attempt.exit_code,
        timestamp: attempt.timestamp.text@,
        durable_output: Some(attempt.durable_output@),
    }
}

/// The attempt that a record is of: its kind, its request and its tool.
pub open spec fn recorded_attempt(record: ProductiveRecoveryRecord) -> Option<
    (RunAttemptKind, RecoveredAttempt, Option<Seq<char>>),
> {
    match record {
        ProductiveRecoveryRecord::Provider(attempt) => Some(
            (RunAttemptKind::Provider, attempt, None),
        ),
        ProductiveRecoveryRecord::Tool { attempt, tool_id } => Some(
            (RunAttemptKind::Tool, attempt, Some(tool_id.text@)),
        ),
        _ => None,
    }
}

/// What is wrong with a writer that has failed.
pub open spec fn usable_failure(writer: ProductiveRecoveryWriter) -> Option<ErrorModel> {
    if writer.failed {
        error::protocol_failure("productive recovery writer is closed after a prior failure"@)
    } else {
        None
    }
}

/// What is wrong with writing while records are still to be gone through.
pub open spec fn live_failure(writer: ProductiveRecoveryWriter) -> Option<ErrorModel> {
    if writer.replay_cursor != writer.replay_records@.len() || writer.terminal_snapshot_hash
        is Some {
        error::protocol_failure("productive recovery replay diverged before its recorded boundary"@)
    } else {
        None
    }
}

/// Whether every attempt that has ended was asked for.
pub open spec fn all_consumed(writer: ProductiveRecoveryWriter) -> bool {
    &&& writer.consumed_attempts@.len() == writer.completed_attempts.entries@.len()
    &&& forall|id: Seq<char>| #[trigger]
        writer.completed_attempts@.dom().contains(id) ==> text::texts_view(
            writer.consumed_attempts@,
        ).contains(id)
}

/// What is wrong with ending while attempts were not asked for.
pub open spec fn consumed_failure(writer: ProductiveRecoveryWriter) -> Option<ErrorModel> {
    if all_consumed(writer) {
        None
    } else {
        error::protocol_failure(
            "productive recovery terminal boundary left completed attempts unreplayed"@,
        )
    }
}

/// What is wrong with putting an ended attempt on record.
pub open spec fn attempt_record_failure(
    result: RunAttemptResult,
    tool_id: Option<Seq<char>>,
) -> Option<ErrorModel> {
    if result.durable_output is None {
        error::protocol_failure("completed productive attempt has no durable recovery output"@)
    } else if result.attempt_kind == RunAttemptKind::Provider && tool_id is Some {
        error::protocol_failure("completed recovery Provider attempt has a Tool id"@)
    } else if result.attempt_kind == RunAttemptKind::Tool && tool_id is None {
        error::protocol_failure("completed recovery Tool attempt has no Tool id"@)
    } else {
        None
    }
}

/// Whether a record is that of an ended attempt.
pub open spec fn records_attempt(
    record: ProductiveRecoveryRecord,
    request_hash: Seq<char>,
    result: ResultModel,
    tool_id: Option<Seq<char>>,
) -> bool {
    match recorded_attempt(record) {
        Some((kind, attempt, tool)) => {
            &&& kind == result.attempt_kind
            &&& attempt.schema@ == PRODUCTIVE_RECOVERY_SCHEMA_V0@
            &&& attempt.request_hash@ == request_hash
            &&& attempt_result(attempt, kind) == result
            &&& tool == tool_id
        },
        None => false,
    }
}

/// What is wrong with a recorded attempt in the place of the one that is asked for.
pub open spec fn replay_attempt_failure(
    writer: ProductiveRecoveryWriter,
    record: ProductiveRecoveryRecord,
    request: AttemptRequest,
) -> Option<ErrorModel> {
    let id = request.attempt_id.text@;
    let tool = selection::optional_text(request.tool_id);
    match recorded_attempt(record) {
        None => error::protocol_failure(
            "productive recovery replay reached a different boundary than the next attempt"@,
        ),
        Some((kind, attempt, recorded_tool)) => if kind != request.kind || attempt.attempt_id.text@
            != id || attempt.request_hash@ != request.request_hash@ || recorded_tool != tool {
            error::protocol_failure("productive recovery attempt diverged from its recorded request"@)
        } else if !writer.completed_attempts@.dom().contains(id) {
            error::protocol_failure("productive recovery attempt has no completed run-log result"@)
        } else {
            let completed = writer.completed_attempts@[id];
            if completed.request_hash@ != request.request_hash@ || selection::optional_text(
                completed.tool_id,
            ) != tool || attempts::result_view(completed.result) != attempt_result(attempt, kind) {
                error::protocol_failure(
                    "productive recovery attempt conflicts with its completed run-log result"@,
                )
            } else {
                None
            }
        },
    }
}

/// What is wrong with asking for an attempt.
pub open spec fn recover_failure(
    writer: ProductiveRecoveryWriter,
    request: AttemptRequest,
) -> Option<ErrorModel> {
    let id = request.attempt_id.text@;
    if writer.failed {
        usable_failure(writer)
    } else if text::texts_view(writer.consumed_attempts@).contains(id) {
        error::protocol_failure("productive recovery completed attempt was already consumed"@)
    } else if writer.replay_cursor < writer.replay_records@.len() {
        replay_attempt_failure(
            writer,
            writer.replay_records@[writer.replay_cursor as int],
            request,
        )
    } else if writer.completed_attempts@.dom().contains(id) {
        let completed = writer.completed_attempts@[id];
        if writer.terminal_snapshot_hash is Some {
            error::protocol_failure(
                "productive recovery terminal snapshot has an unrecorded completed attempt"@,
            )
        } else if completed.result.attempt_kind != request.kind || completed.request_hash@
            != request.request_hash@ || selection::optional_text(completed.tool_id) != selection::optional_text(
            request.tool_id,
        ) {
            error::protocol_failure("completed productive attempt diverged from deterministic replay"@)
        } else {
            attempt_record_failure(completed.result, selection::optional_text(completed.tool_id))
        }
    } else {
        error::first_failure(live_failure(writer), consumed_failure(writer))
    }
}

impl ProductiveRecoveryWriter {
    /// The cursor stands among the records, and no attempt was asked for twice.
    pub open spec fn wf(self) -> bool {
        &&& self.completed_attempts.wf()
        &&& self.replay_cursor <= self.replay_records.len()
        &&& forall|k: int|
            0 <= k < self.consumed_attempts@.len() ==> self.completed_attempts@.dom().contains(
                (#[trigger] self.consumed_attempts@[k])@,
            )
    }

    /// Everything but what was gone through is the same.
    pub open spec fn keeps(self, other: ProductiveRecoveryWriter) -> bool {
        &&& self.completed_attempts == other.completed_attempts
        &&& self.failed == other.failed
        &&& self.prior_event_count == other.prior_event_count
        &&& self.replay_records == other.replay_records
        &&& self.terminal_snapshot_hash == other.terminal_snapshot_hash
    }

    fn ensure_usable(&self) -> (result: Result<(), RuntimeError>)
        ensures
            error::failure(result) == usable_failure(*self),
    {
        if self.failed {
            return Err(protocol("productive recovery writer is closed after a prior failure"));
        }
        Ok(())
    }

    fn ensure_live_append(&self) -> (result: Result<(), RuntimeError>)
        ensures
            error::failure(result) == live_failure(*self),
    {
        if self.replay_cursor != self.replay_records.len() || self.terminal_snapshot_hash.is_some() {
            return Err(
                protocol("productive recovery replay diverged before its recorded boundary"),
            );
        }
        Ok(())
    }

    fn ensure_completed_attempts_consumed(&self) -> (result: Result<(), RuntimeError>)
        requires
            self.wf(),
        ensures
            error::failure(result) == consumed_failure(*self),
    {
        let refused = "productive recovery terminal boundary left completed attempts unreplayed";
        if self.consumed_attempts.len() != self.completed_attempts.len() {
            return Err(protocol(refused));
        }
        let ghost keys = crate::keyed::keys_of(self.completed_attempts.entries@);
        let mut i: usize = 0;
        while i < self.completed_attempts.entries.len()
            invariant
                i <= self.completed_attempts.entries.len(),
                self.wf(),
                refused@
                    == "productive recovery terminal boundary left completed attempts unreplayed"@,
                self.consumed_attempts@.len() == self.completed_attempts.entries@.len(),
                keys == crate::keyed::keys_of(self.completed_attempts.entries@),
                forall|k: int|
                    0 <= k < i ==> text::texts_view(self.consumed_attempts@).contains(#[trigger] keys[k]),
            decreases self.completed_attempts.entries.len() - i,
        {
            assert(keys[i as int] == self.completed_attempts.entries@[i as int].0@);
            if !holds_text(
                &self.consumed_attempts,
                self.completed_attempts.entries[i].0.as_str(),
            ) {
                proof {
                    crate::keyed::lemma_key_present(self.completed_attempts.entries@, i as int);
                }
                return Err(protocol(refused));
            }
            i = i + 1;
        }
        proof {
            assert forall|id: Seq<char>| #[trigger]
                self.completed_attempts@.dom().contains(id) implies text::texts_view(
                self.consumed_attempts@,
            ).contains(id) by {
                crate::engine::registry::lemma_text_position_bounds(keys, id);
                let k = crate::engine::registry::text_position(keys, id)->0;
                assert(text::texts_view(self.consumed_attempts@).contains(keys[k]));
            }
        }
        Ok(())
    }

    fn consume(&mut self, attempt_id: &str)
        requires
            old(self).wf(),
            old(self).completed_attempts@.dom().contains(attempt_id@),
        ensures
            final(self).wf(),
            final(self).keeps(*old(self)),
            final(self).replay_cursor == old(self).replay_cursor,
            text::texts_view(final(self).consumed_attempts@) == text::texts_view(
                old(self).consumed_attempts@,
            ).push(attempt_id@),
    {
        let ghost before = self.consumed_attempts@;
        self.consumed_attempts.push(attempt_id.to_owned());
        assert(text::texts_view(self.consumed_attempts@) =~= text::texts_view(before).push(attempt_id@));
        assert forall|k: int|
            0 <= k < self.consumed_attempts@.len() implies self.completed_attempts@.dom().contains(
            (#[trigger] self.consumed_attempts@[k])@,
        ) by {
            if k < before.len() {
                assert(self.consumed_attempts@[k] == before[k]);
            }
        }
    }

    /// Looks for an attempt that is asked for: among what is to be gone through again,
    /// or else among what has ended.
    pub fn recover_attempt(&mut self, request: &AttemptRequest) -> (result: Result<
        Recovery,
        RuntimeError,
    >)
        requires
            old(self).wf(),
        ensures
            ({
                let id = request.attempt_id.text@;
                &&& error::failure(result) == recover_failure(*old(self), *request)
                &&& final(self).wf()
                &&& final(self).keeps(*old(self))
                &&& result is Err ==> *final(self) == *old(self)
                &&& result matches Ok(recovery) ==> if old(self).replay_cursor < old(
                    self,
                ).replay_records@.len() {
                    &&& recovery matches Recovery::Replayed(found)
                    &&& attempts::result_view(found) == attempts::result_view(old(self).completed_attempts@[id].result)
                    &&& final(self).replay_cursor == old(self).replay_cursor + 1
                    &&& text::texts_view(final(self).consumed_attempts@) == text::texts_view(
                        old(self).consumed_attempts@,
                    ).push(id)
                } else if old(self).completed_attempts@.dom().contains(id) {
                    let completed = old(self).completed_attempts@[id];
                    &&& *final(self) == *old(self)
                    &&& recovery matches Recovery::Append { record, result: found }
                    &&& attempts::result_view(found) == attempts::result_view(completed.result)
                    &&& records_attempt(
                        record,
                        request.request_hash@,
                        attempts::result_view(completed.result),
                        selection::optional_text(completed.tool_id),
                    )
                } else {
                    recovery is Live && *final(self) == *old(self)
                }
            }),
    {
        self.ensure_usable()?;
        let id = request.attempt_id.text.as_str();
        if holds_text(&self.consumed_attempts, id) {
            return Err(protocol("productive recovery completed attempt was already consumed"));
        }
        if self.replay_cursor < self.replay_records.len() {
            let found = self.replay_attempt(request)?;
            self.consume(id);
            self.replay_cursor = self.replay_cursor + 1;
            return Ok(Recovery::Replayed(found));
        }
        match self.completed_attempts.get(id) {
            Some(completed) => {
                if self.terminal_snapshot_hash.is_some() {
                    return Err(
                        protocol(
                            "productive recovery terminal snapshot has an unrecorded completed attempt",
                        ),
                    );
                }
                if completed.result.attempt_kind != request.kind || !same_text(
                    completed.request_hash.as_str(),
                    request.request_hash.as_str(),
                ) || !same_optional_text(&completed.tool_id, &request.tool_id) {
                    return Err(
                        protocol("completed productive attempt diverged from deterministic replay"),
                    );
                }
                let record = attempt_record(
                    request.request_hash.as_str(),
                    &completed.result,
                    &completed.tool_id,
                )?;
                Ok(Recovery::Append { record, result: completed.result.clone() })
            },
            None => {
                self.ensure_live_append()?;
                self.ensure_completed_attempts_consumed()?;
                Ok(Recovery::Live)
            },
        }
    }

    fn replay_attempt(&self, request: &AttemptRequest) -> (result: Result<
        RunAttemptResult,
        RuntimeError,
    >)
        requires
            self.wf(),
            self.replay_cursor < self.replay_records@.len(),
        ensures
            error::failure(result) == replay_attempt_failure(
                *self,
                self.replay_records@[self.replay_cursor as int],
                *request,
            ),
            result matches Ok(found) ==> {
                let id = request.attempt_id.text@;
                &&& self.completed_attempts@.dom().contains(id)
                &&& attempts::result_view(found) == attempts::result_view(self.completed_attempts@[id].result)
            },
    {
        let (kind, attempt, recorded_tool) = match &self.replay_records[self.replay_cursor] {
            ProductiveRecoveryRecord::Provider(attempt) => (
                RunAttemptKind::Provider,
                attempt,
                None,
            ),
            ProductiveRecoveryRecord::Tool { attempt, tool_id } => (
                RunAttemptKind::Tool,
                attempt,
                Some(tool_id.clone()),
            ),
            _ => {
                return Err(
                    protocol(
                        "productive recovery replay reached a different boundary than the next attempt",
                    ),
                );
            },
        };
        if kind != request.kind || !same_text(
            attempt.attempt_id.text.as_str(),
            request.attempt_id.text.as_str(),
        ) || !same_text(attempt.request_hash.as_str(), request.request_hash.as_str())
            || !same_optional_text(&recorded_tool, &request.tool_id) {
            return Err(protocol("productive recovery attempt diverged from its recorded request"));
        }
        let found = RunAttemptResult {
            attempt_id: attempt.attempt_id.clone(),
            attempt_kind: kind,
            outcome: attempt.outcome.clone(),
            classification: clone_optional(&attempt.classification),
            exit_code: attempt.exit_code,
            timestamp: attempt.timestamp.clone(),
            durable_output: Some(attempt.durable_output.clone()),
        };
        match self.completed_attempts.get(request.attempt_id.text.as_str()) {
            None => Err(protocol("productive recovery attempt has no completed run-log result")),
            Some(completed) => {
                if !same_text(completed.request_hash.as_str(), request.request_hash.as_str())
                    || !same_optional_text(&completed.tool_id, &request.tool_id) || !same_result(
                    &completed.result,
                    &found,
                ) {
                    return Err(
                        protocol(
                            "productive recovery attempt conflicts with its completed run-log result",
                        ),
                    );
                }
                Ok(found)
            },
        }
    }

    /// Takes note that the record of an attempt that has ended was written.
    pub fn attempt_appended(&mut self, attempt_id: &str)
        requires
            old(self).wf(),
            old(self).completed_attempts@.dom().contains(attempt_id@),
        ensures
            final(self).wf(),
            final(self).keeps(*old(self)),
            final(self).replay_cursor == old(self).replay_cursor,
            text::texts_view(final(self).consumed_attempts@) == text::texts_view(
                old(self).consumed_attempts@,
            ).push(attempt_id@),
    {
        self.consume(attempt_id);
    }

    /// The record of an attempt that was just made.
    pub fn record_attempt(&self, tool_id: &Option<Checked>, request_hash: &str, given: &RunAttemptResult) -> (result:
        Result<ProductiveRecoveryRecord, RuntimeError>)
        ensures
            error::failure(result) == error::first_failure(
                usable_failure(*self),
                error::first_failure(
                    live_failure(*self),
                    attempt_record_failure(*given, selection::optional_text(*tool_id)),
                ),
            ),
            result matches Ok(record) ==> records_attempt(
                record,
                request_hash@,
                attempts::result_view(*given),
                selection::optional_text(*tool_id),
            ),
    {
        self.ensure_usable()?;
        self.ensure_live_append()?;
        attempt_record(request_hash, given, tool_id)
    }
}

/// The record of an attempt that has ended.
pub fn attempt_record(request_hash: &str, given: &RunAttemptResult, tool_id: &Option<Checked>) -> (result:
    Result<ProductiveRecoveryRecord, RuntimeError>)
    ensures
        error::failure(result) == attempt_record_failure(*given, selection::optional_text(*tool_id)),
        result matches Ok(record) ==> records_attempt(
            record,
            request_hash@,
            attempts::result_view(*given),
            selection::optional_text(*tool_id),
        ),
{
    let durable_output = match &given.durable_output {
        Some(output) => output.clone(),
        None => {
            return Err(protocol("completed productive attempt has no durable recovery output"));
        },
    };
    let attempt = RecoveredAttempt {
        schema: PRODUCTIVE_RECOVERY_SCHEMA_V0.to_owned(),
        attempt_id: given.attempt_id.clone(),
        request_hash: request_hash.to_owned(),
        outcome: given.outcome.clone(),
        classification: clone_optional(&given.classification),
        exit_code: given.exit_code,
        timestamp: given.timestamp.clone(),
        durable_output,
    };
    match given.attempt_kind {
        RunAttemptKind::Provider => match tool_id {
            None => Ok(ProductiveRecoveryRecord::Provider(attempt)),
            Some(_) => Err(protocol("completed recovery Provider attempt has a Tool id")),
        },
        RunAttemptKind::Tool => match tool_id {
            Some(tool_id) => Ok(
                ProductiveRecoveryRecord::Tool { attempt, tool_id: tool_id.clone() },
            ),
            None => Err(protocol("completed recovery Tool attempt has no Tool id")),
        },
    }
}

/// What is to be done at a boundary.
pub enum BoundaryStep {
    /// The stored value is to be compared with the one at hand.
    Verify(ObjectUri),
    /// Nothing is left to do.
    Replayed,
    /// The object of the boundary is to be stored, where it has one, and behind it this
    /// record is to be written.
    Append(ProductiveRecoveryRecord),
}

/// A phase that has ended.
pub struct PhaseBoundary {
    pub flow_execution_id: Checked,
    pub phase_execution_id: Checked,
    pub phase_id: Checked,
    pub iteration: u8,
    pub will_repeat: bool,
}

/// What is wrong with a phase that ends in the place of a record.
pub open spec fn phase_boundary_failure(
    record: ProductiveRecoveryRecord,
    boundary: PhaseBoundary,
) -> Option<ErrorModel> {
    match record {
        ProductiveRecoveryRecord::Phase {
            flow_execution_id,
            phase_execution_id,
            phase_id,
            iteration,
            will_repeat,
            ..
        } => if flow_execution_id.text@ != boundary.flow_execution_id.text@
            || phase_execution_id.text@ != boundary.phase_execution_id.text@ || phase_id.text@
            != boundary.phase_id.text@ || iteration != boundary.iteration || will_repeat
            != boundary.will_repeat {
            error::protocol_failure(
                "productive recovery Phase boundary diverged from deterministic replay"@,
            )
        } else {
            None
        },
        _ => error::protocol_failure(
            "productive recovery replay reached a different boundary than Phase completion"@,
        ),
    }
}

/// What is wrong with a transition in the place of a record.
pub open spec fn transition_boundary_failure(
    record: ProductiveRecoveryRecord,
    flow: Seq<char>,
    from: Seq<char>,
    to: Option<Seq<char>>,
) -> Option<ErrorModel> {
    match record {
        ProductiveRecoveryRecord::Transition {
            flow_execution_id,
            from_phase_id,
            to_phase_id,
            ..
        } => if flow_execution_id.text@ != flow || from_phase_id.text@ != from || selection::optional_text(
            to_phase_id,
        ) != to {
            error::protocol_failure(
                "productive recovery Transition boundary diverged from deterministic replay"@,
            )
        } else {
            None
        },
        _ => error::protocol_failure(
            "productive recovery replay reached a different boundary than Transition selection"@,
        ),
    }
}

/// What is wrong with a flow that ends in the place of a record.
pub open spec fn flow_boundary_failure(record: ProductiveRecoveryRecord, flow: Seq<char>) -> Option<
    ErrorModel,
> {
    match record {
        ProductiveRecoveryRecord::Flow { flow_execution_id, .. } => if flow_execution_id.text@
            != flow {
            error::protocol_failure("productive recovery Flow boundary diverged from deterministic replay"@)
        } else {
            None
        },
        _ => error::protocol_failure(
            "productive recovery replay reached a different boundary than Flow completion"@,
        ),
    }
}

/// What is wrong with a run that ends in the place of a record.
pub open spec fn terminal_boundary_failure(
    record: ProductiveRecoveryRecord,
    failed: bool,
    cumulative: nat,
) -> Option<ErrorModel> {
    match record {
        ProductiveRecoveryRecord::Terminal { failed: recorded, cumulative_event_count, .. } =>
            if recorded != failed || cumulative_event_count != cumulative {
                error::protocol_failure(
                    "productive recovery terminal boundary diverged from deterministic replay"@,
                )
            } else {
                None
            },
        _ => error::protocol_failure(
            "productive recovery replay reached a different boundary than terminal completion"@,
        ),
    }
}

/// What is wrong with a boundary, by what is wrong with it in the place of the next
/// record where there is one.
pub open spec fn boundary_failure(
    writer: ProductiveRecoveryWriter,
    replayed: Option<ErrorModel>,
    object: Option<ErrorModel>,
) -> Option<ErrorModel> {
    error::first_failure(
        usable_failure(writer),
        if writer.replay_cursor < writer.replay_records@.len() {
            replayed
        } else {
            error::first_failure(live_failure(writer), object)
        },
    )
}

/// Whether a record says that a phase has ended.
pub open spec fn records_phase(
    record: ProductiveRecoveryRecord,
    boundary: PhaseBoundary,
    object: ObjectUri,
) -> bool {
    record matches ProductiveRecoveryRecord::Phase {
        schema,
        flow_execution_id,
        phase_execution_id,
        phase_id,
        iteration,
        result_object,
        will_repeat,
    } && {
        &&& schema@ == PRODUCTIVE_RECOVERY_SCHEMA_V0@
        &&& flow_execution_id == boundary.flow_execution_id
        &&& phase_execution_id == boundary.phase_execution_id
        &&& phase_id == boundary.phase_id
        &&& iteration == boundary.iteration
        &&& result_object == object
        &&& will_repeat == boundary.will_repeat
    }
}

/// Whether a record says that one phase has followed another.
pub open spec fn records_transition(
    record: ProductiveRecoveryRecord,
    flow: Checked,
    from: Checked,
    to: Option<Checked>,
) -> bool {
    record matches ProductiveRecoveryRecord::Transition {
        schema,
        flow_execution_id,
        from_phase_id,
        to_phase_id,
    } && {
        &&& schema@ == PRODUCTIVE_RECOVERY_SCHEMA_V0@
        &&& flow_execution_id == flow
        &&& from_phase_id == from
        &&& to_phase_id == to
    }
}

/// Whether a record says that a flow has ended.
pub open spec fn records_flow(
    record: ProductiveRecoveryRecord,
    flow: Checked,
    object: ObjectUri,
) -> bool {
    record matches ProductiveRecoveryRecord::Flow { schema, flow_execution_id, result_object } && {
        &&& schema@ == PRODUCTIVE_RECOVERY_SCHEMA_V0@
        &&& flow_execution_id == flow
        &&& result_object == object
    }
}

/// Whether a record says that a run has ended.
pub open spec fn records_terminal(
    record: ProductiveRecoveryRecord,
    has_failed: bool,
    object: ObjectUri,
    count: nat,
) -> bool {
    record matches ProductiveRecoveryRecord::Terminal {
        schema,
        failed,
        history_object,
        cumulative_event_count,
    } && {
        &&& schema@ == PRODUCTIVE_RECOVERY_SCHEMA_V0@
        &&& failed == has_failed
        &&& history_object == object
        &&& cumulative_event_count == count
    }
}

impl ProductiveRecoveryWriter {
    /// The record that is gone through next.
    pub open spec fn next_record(self) -> ProductiveRecoveryRecord {
        self.replay_records@[self.replay_cursor as int]
    }

    /// Comes to the end of a phase. `object` is the address of its value.
    pub fn phase_boundary(
        &self,
        boundary: &PhaseBoundary,
        object: Result<ObjectUri, RuntimeError>,
    ) -> (result: Result<BoundaryStep, RuntimeError>)
        requires
            self.wf(),
        ensures
            error::failure(result) == boundary_failure(
                *self,
                phase_boundary_failure(self.next_record(), *boundary),
                error::failure(object),
            ),
            result matches Ok(step) ==> if self.replay_cursor < self.replay_records@.len() {
                self.next_record() matches ProductiveRecoveryRecord::Phase { result_object, .. }
                    && step == BoundaryStep::Verify(result_object)
            } else {
                step matches BoundaryStep::Append(record) && records_phase(
                    record,
                    *boundary,
                    object->Ok_0,
                )
            },
    {
        self.ensure_usable()?;
        if self.replay_cursor < self.replay_records.len() {
            return match &self.replay_records[self.replay_cursor] {
                ProductiveRecoveryRecord::Phase {
                    flow_execution_id,
                    phase_execution_id,
                    phase_id,
                    iteration,
                    result_object,
                    will_repeat,
                    ..
                } => {
                    if !same_text(
                        flow_execution_id.text.as_str(),
                        boundary.flow_execution_id.text.as_str(),
                    ) || !same_text(
                        phase_execution_id.text.as_str(),
                        boundary.phase_execution_id.text.as_str(),
                    ) || !same_text(phase_id.text.as_str(), boundary.phase_id.text.as_str())
                        || *iteration != boundary.iteration as u32 || *will_repeat
                        != boundary.will_repeat {
                        Err(
                            protocol(
                                "productive recovery Phase boundary diverged from deterministic replay",
                            ),
                        )
                    } else {
                        Ok(BoundaryStep::Verify(result_object.clone()))
                    }
                },
                _ => Err(
                    protocol(
                        "productive recovery replay reached a different boundary than Phase completion",
                    ),
                ),
            };
        }
        self.ensure_live_append()?;
        let result_object = object?;
        Ok(
            BoundaryStep::Append(
                ProductiveRecoveryRecord::Phase {
                    schema: PRODUCTIVE_RECOVERY_SCHEMA_V0.to_owned(),
                    flow_execution_id: boundary.flow_execution_id.clone(),
                    phase_execution_id: boundary.phase_execution_id.clone(),
                    phase_id: boundary.phase_id.clone(),
                    iteration: boundary.iteration as u32,
                    result_object,
                    will_repeat: boundary.will_repeat,
                },
            ),
        )
    }

    /// Comes to a transition between phases.
    pub fn transition_boundary(
        &mut self,
        flow_execution_id: &Checked,
        from_phase_id: &Checked,
        to_phase_id: &Option<Checked>,
    ) -> (result: Result<BoundaryStep, RuntimeError>)
        requires
            old(self).wf(),
        ensures
            error::failure(result) == boundary_failure(
                *old(self),
                transition_boundary_failure(
                    old(self).next_record(),
                    flow_execution_id.text@,
                    from_phase_id.text@,
                    selection::optional_text(*to_phase_id),
                ),
                None,
            ),
            final(self).wf(),
            result is Err ==> *final(self) == *old(self),
            result matches Ok(step) ==> if old(self).replay_cursor < old(self).replay_records@.len() {
                &&& step is Replayed
                &&& *final(self) == (ProductiveRecoveryWriter {
                    replay_cursor: (old(self).replay_cursor + 1) as usize,
                    ..*old(self)
                })
            } else {
                &&& *final(self) == *old(self)
                &&& step matches BoundaryStep::Append(record)
                &&& records_transition(record, *flow_execution_id, *from_phase_id, *to_phase_id)
            },
    {
        self.ensure_usable()?;
        if self.replay_cursor < self.replay_records.len() {
            match &self.replay_records[self.replay_cursor] {
                ProductiveRecoveryRecord::Transition {
                    flow_execution_id: recorded_flow,
                    from_phase_id: recorded_from,
                    to_phase_id: recorded_to,
                    ..
                } => {
                    if !same_text(
                        recorded_flow.text.as_str(),
                        flow_execution_id.text.as_str(),
                    ) || !same_text(recorded_from.text.as_str(), from_phase_id.text.as_str()) || !same_optional_text(recorded_to, to_phase_id) {
                        return Err(
                            protocol(
                                "productive recovery Transition boundary diverged from deterministic replay",
                            ),
                        );
                    }
                },
                _ => {
                    return Err(
                        protocol(
                            "productive recovery replay reached a different boundary than Transition selection",
                        ),
                    );
                },
            }
            self.replay_cursor = self.replay_cursor + 1;
            return Ok(BoundaryStep::Replayed);
        }
        self.ensure_live_append()?;
        let to_phase_id = match to_phase_id {
            Some(to_phase_id) => Some(to_phase_id.clone()),
            None => None,
        };
        Ok(
            BoundaryStep::Append(
                ProductiveRecoveryRecord::Transition {
                    schema: PRODUCTIVE_RECOVERY_SCHEMA_V0.to_owned(),
                    flow_execution_id: flow_execution_id.clone(),
                    from_phase_id: from_phase_id.clone(),
                    to_phase_id,
                },
            ),
        )
    }

    /// Comes to the end of a flow. `object` is the address of its value.
    pub fn flow_boundary(
        &self,
        flow_execution_id: &Checked,
        object: Result<ObjectUri, RuntimeError>,
    ) -> (result: Result<BoundaryStep, RuntimeError>)
        requires
            self.wf(),
        ensures
            error::failure(result) == boundary_failure(
                *self,
                flow_boundary_failure(self.next_record(), flow_execution_id.text@),
                error::failure(object),
            ),
            result matches Ok(step) ==> if self.replay_cursor < self.replay_records@.len() {
                self.next_record() matches ProductiveRecoveryRecord::Flow { result_object, .. }
                    && step == BoundaryStep::Verify(result_object)
            } else {
                step matches BoundaryStep::Append(record) && records_flow(
                    record,
                    *flow_execution_id,
                    object->Ok_0,
                )
            },
    {
        self.ensure_usable()?;
        if self.replay_cursor < self.replay_records.len() {
            return match &self.replay_records[self.replay_cursor] {
                ProductiveRecoveryRecord::Flow {
                    flow_execution_id: recorded_flow,
                    result_object,
                    ..
                } => {
                    if !same_text(
                        recorded_flow.text.as_str(),
                        flow_execution_id.text.as_str(),
                    ) {
                        Err(
                            protocol(
                                "productive recovery Flow boundary diverged from deterministic replay",
                            ),
                        )
                    } else {
                        Ok(BoundaryStep::Verify(result_object.clone()))
                    }
                },
                _ => Err(
                    protocol(
                        "productive recovery replay reached a different boundary than Flow completion",
                    ),
                ),
            };
        }
        self.ensure_live_append()?;
        let result_object = object?;
        Ok(
            BoundaryStep::Append(
                ProductiveRecoveryRecord::Flow {
                    schema: PRODUCTIVE_RECOVERY_SCHEMA_V0.to_owned(),
                    flow_execution_id: flow_execution_id.clone(),
                    result_object,
                },
            ),
        )
    }

    /// Accepts the value that is stored for a boundary, and goes on behind it.
    pub fn verify_value_object(&mut self, recorded: &[u8], expected: &Result<String, String>) -> (result:
        Result<(), RuntimeError>)
        requires
            old(self).wf(),
            old(self).replay_cursor < old(self).replay_records@.len(),
        ensures
            error::failure(result) == (match expected {
                Err(words) => error::protocol_failure("recovery value is invalid: "@ + words@),
                Ok(expected) => if recorded@ != encode_utf8(expected@) {
                    error::protocol_failure(
                        "productive recovery boundary result diverged from deterministic replay"@,
                    )
                } else {
                    None
                },
            }),
            final(self).wf(),
            result is Err ==> *final(self) == *old(self),
            result is Ok ==> *final(self) == (ProductiveRecoveryWriter {
                replay_cursor: (old(self).replay_cursor + 1) as usize,
                ..*old(self)
            }),
    {
        match expected {
            Err(words) => {
                let message = join2("recovery value is invalid: ", words.as_str());
                Err(protocol(message.as_str()))
            },
            Ok(expected) => {
                if !same_bytes(recorded, expected.as_str().as_bytes()) {
                    return Err(
                        protocol(
                            "productive recovery boundary result diverged from deterministic replay",
                        ),
                    );
                }
                self.replay_cursor = self.replay_cursor + 1;
                Ok(())
            },
        }
    }
}

/// What is wrong with how many events there are now.
pub open spec fn cumulative_failure(prior: u64, run: u64) -> Option<ErrorModel> {
    if prior + run > u64::MAX {
        error::protocol_failure("conversation event count overflow"@)
    } else if prior + run > usize::MAX {
        error::protocol_failure("conversation event count exceeds this platform"@)
    } else {
        None
    }
}

impl ProductiveRecoveryWriter {
    /// Comes to the end of the run: what is to be done, and how many events there are
    /// now. `object` is the address of its history.
    pub fn terminal_boundary(
        &self,
        failed: bool,
        run_event_count: u64,
        object: Result<ObjectUri, RuntimeError>,
    ) -> (result: Result<(BoundaryStep, u64), RuntimeError>)
        requires
            self.wf(),
        ensures
            ({
                let cumulative = self.prior_event_count + run_event_count;
                &&& error::failure(result) == error::first_failure(
                    usable_failure(*self),
                    error::first_failure(
                        cumulative_failure(self.prior_event_count, run_event_count),
                        if self.replay_cursor < self.replay_records@.len() {
                            terminal_boundary_failure(
                                self.next_record(),
                                failed,
                                cumulative as nat,
                            )
                        } else {
                            error::first_failure(
                                live_failure(*self),
                                error::first_failure(
                                    consumed_failure(*self),
                                    error::failure(object),
                                ),
                            )
                        },
                    ),
                )
                &&& result matches Ok((step, count)) ==> {
                    &&& count == cumulative
                    &&& if self.replay_cursor < self.replay_records@.len() {
                        self.next_record() matches ProductiveRecoveryRecord::Terminal {
                            history_object,
                            ..
                        } && step == BoundaryStep::Verify(history_object)
                    } else {
                        step matches BoundaryStep::Append(record) && records_terminal(
                            record,
                            failed,
                            object->Ok_0,
                            cumulative as nat,
                        )
                    }
                }
            }),
    {
        self.ensure_usable()?;
        let cumulative: u64 = match self.prior_event_count.checked_add(run_event_count) {
            Some(cumulative) => cumulative,
            None => {
                return Err(protocol("conversation event count overflow"));
            },
        };
        if cumulative > usize::MAX as u64 {
            return Err(protocol("conversation event count exceeds this platform"));
        }
        if self.replay_cursor < self.replay_records.len() {
            return match &self.replay_records[self.replay_cursor] {
                ProductiveRecoveryRecord::Terminal {
                    failed: recorded,
                    history_object,
                    cumulative_event_count,
                    ..
                } => {
                    if *recorded != failed || *cumulative_event_count != cumulative {
                        Err(
                            protocol(
                                "productive recovery terminal boundary diverged from deterministic replay",
                            ),
                        )
                    } else {
                        Ok((BoundaryStep::Verify(history_object.clone()), cumulative))
                    }
                },
                _ => Err(
                    protocol(
                        "productive recovery replay reached a different boundary than terminal completion",
                    ),
                ),
            };
        }
        self.ensure_live_append()?;
        self.ensure_completed_attempts_consumed()?;
        let history_object = object?;
        let terminal = ProductiveRecoveryRecord::Terminal {
            schema: PRODUCTIVE_RECOVERY_SCHEMA_V0.to_owned(),
            failed,
            history_object,
            cumulative_event_count: cumulative,
        };
        Ok((BoundaryStep::Append(terminal), cumulative))
    }

    /// What is wrong with ending where the last record was gone through.
    pub open spec fn replay_end_failure(self) -> Option<ErrorModel> {
        if self.replay_cursor + 1 != self.replay_records@.len() {
            error::protocol_failure("productive recovery terminal boundary left recorded work unreplayed"@)
        } else {
            consumed_failure(self)
        }
    }

    /// Accepts the history that is stored for the end of the run: nothing is left to
    /// go through, and every attempt was asked for.
    pub fn verify_terminal_history(&mut self, recorded: &[u8], expected: &[u8]) -> (result: Result<
        (),
        RuntimeError,
    >)
        requires
            old(self).wf(),
            old(self).replay_cursor < old(self).replay_records@.len(),
        ensures
            error::failure(result) == (if recorded@ != expected@ {
                error::protocol_failure(
                    "productive recovery terminal history diverged from deterministic replay"@,
                )
            } else {
                old(self).replay_end_failure()
            }),
            final(self).wf(),
            result is Ok ==> *final(self) == (ProductiveRecoveryWriter {
                replay_cursor: (old(self).replay_cursor + 1) as usize,
                ..*old(self)
            }),
    {
        if !same_bytes(recorded, expected) {
            return Err(
                protocol("productive recovery terminal history diverged from deterministic replay"),
            );
        }
        self.replay_cursor = self.replay_cursor + 1;
        if self.replay_cursor != self.replay_records.len() {
            return Err(
                protocol("productive recovery terminal boundary left recorded work unreplayed"),
            );
        }
        self.ensure_completed_attempts_consumed()
    }

    /// What is wrong with writing a record.
    pub open spec fn append_failure(
        self,
        record: ProductiveRecoveryRecord,
        form: CanonicalForm,
        words: Seq<char>,
        current: u64,
        maximum: u64,
    ) -> Option<ErrorModel> {
        error::first_failure(
            usable_failure(self),
            error::first_failure(
                recovery::recovery_record_failure(record),
                match form {
                    CanonicalForm::NotJson => Some(ErrorModel::Json(words)),
                    CanonicalForm::Invalid(error) => error::protocol_failure(
                        "record cannot be canonicalized: "@ + error@,
                    ),
                    CanonicalForm::Text(line) => if encode_utf8(line@).len()
                        > MAX_CONVERSATION_RECORD_BYTES {
                        error::protocol_failure("productive recovery record exceeds its byte limit"@)
                    } else {
                        storage::growth_failure(current, encode_utf8(line@ + "\n"@).len(), maximum)
                    },
                },
            ),
        )
    }

    /// The line of a record that may be written to the snapshot.
    pub fn append_record(
        &self,
        record: &ProductiveRecoveryRecord,
        form: CanonicalForm,
        words: &str,
        current: u64,
        maximum: u64,
    ) -> (result: Result<String, RuntimeError>)
        ensures
            error::failure(result) == self.append_failure(*record, form, words@, current, maximum),
            result matches Ok(line) ==> form matches CanonicalForm::Text(canonical) && line@
                == canonical@ + "\n"@,
    {
        self.ensure_usable()?;
        validate_productive_recovery_record(record)?;
        let canonical = canonical_json(form, words)?;
        if canonical.as_str().as_bytes().len() > MAX_CONVERSATION_RECORD_BYTES {
            return Err(protocol("productive recovery record exceeds its byte limit"));
        }
        let mut line = canonical.clone();
        append_text(&mut line, "\n");
        ensure_productive_metadata_growth(current, line.as_str().as_bytes().len(), maximum)?;
        Ok(line)
    }

    /// Takes note of whether a record was written: after a failure the writer takes
    /// nothing more.
    pub fn append_finished(&mut self, written: bool)
        ensures
            *final(self) == (ProductiveRecoveryWriter {
                failed: old(self).failed || !written,
                ..*old(self)
            }),
    {
        if !written {
            self.failed = true;
        }
    }

    /// Takes note of the snapshot after its terminal record was written; gives its
    /// digest.
    pub fn append_terminal(&mut self, snapshot: Result<Vec<u8>, RuntimeError>) -> (result: Result<
        String,
        RuntimeError,
    >)
        ensures
            error::failure(result) == error::failure(snapshot),
            match snapshot {
                Err(_) => *final(self) == (ProductiveRecoveryWriter { failed: true, ..*old(self) }),
                Ok(bytes) => {
                    &&& result->Ok_0@ == digest::digest_text(bytes@)
                    &&& final(self).terminal_snapshot_hash matches Some(hash)
                    &&& hash@ == digest::digest_text(bytes@)
                    &&& *final(self) == (ProductiveRecoveryWriter {
                        terminal_snapshot_hash: final(self).terminal_snapshot_hash,
                        ..*old(self)
                    })
                },
            },
    {
        match snapshot {
            Err(error) => {
                self.failed = true;
                Err(error)
            },
            Ok(bytes) => {
                let hash = sha256_hex(bytes.as_slice());
                self.terminal_snapshot_hash = Some(hash.clone());
                Ok(hash)
            },
        }
    }
}

/// The object that a value is stored as.
pub fn persist_value(canonical: Result<String, String>, max_object_bytes: u64) -> (result: Result<
    ContextObject,
    RuntimeError,
>)
    ensures
        error::failure(result) == (match canonical {
            Err(words) => error::protocol_failure("recovery value is invalid: "@ + words@),
            Ok(canonical) => if encode_utf8(canonical@).len() > max_object_bytes {
                error::protocol_failure("productive recovery value exceeds its object byte limit"@)
            } else {
                None
            },
        }),
        result matches Ok(object) ==> object.bytes@ == encode_utf8(canonical->Ok_0@)
            && object.digest@ == digest::digest_text(object.bytes@),
{
    match canonical {
        Err(words) => {
            let message = join2("recovery value is invalid: ", words.as_str());
            Err(protocol(message.as_str()))
        },
        Ok(canonical) => {
            let bytes = vstd::slice::slice_to_vec(canonical.as_str().as_bytes());
            if bytes.len() as u64 > max_object_bytes {
                return Err(protocol("productive recovery value exceeds its object byte limit"));
            }
            let digest = sha256_hex(bytes.as_slice());
            Ok(ContextObject { digest, bytes })
        },
    }
}

/// How many bytes of a snapshot were committed: up to and with its last line end.
pub fn committed_snapshot_len(bytes: &[u8]) -> (result: Result<usize, RuntimeError>)
    ensures
        error::failure(result) == (if bytes@.len() > 0 && bytes@.last() == LINE_FEED {
            None
        } else if framing::complete_prefix(bytes@) == 0 {
            error::protocol_failure("productive recovery snapshot has no committed header"@)
        } else {
            None
        }),
        result matches Ok(length) ==> length == framing::complete_prefix(bytes@),
{
    let length: usize = complete_jsonl_prefix_len(bytes);
    if length == 0 {
        return Err(protocol("productive recovery snapshot has no committed header"));
    }
    Ok(length)
}

/// The attempts of a log that have ended, from the records in order.
pub open spec fn completed_map(
    records: Seq<RunLogRecord>,
    states: Seq<RunAttemptState>,
) -> Map<Seq<char>, (Seq<char>, ResultModel, Option<Seq<char>>)>
    decreases records.len(),
{
    if records.len() == 0 {
        Map::empty()
    } else {
        let before = completed_map(records.drop_last(), states);
        match records.last() {
            RunLogRecord::TerminalResult { terminal, .. } => match state_of(
                states,
                terminal.result.attempt_id.text@,
            ) {
                Some(state) => before.insert(
                    terminal.result.attempt_id.text@,
                    (
                        state.intent.request_hash@,
                        attempts::result_view(terminal.result),
                        selection::optional_text(state.intent.tool_id),
                    ),
                ),
                None => before,
            },
            _ => before,
        }
    }
}

/// What is known of an attempt.
pub open spec fn state_of(states: Seq<RunAttemptState>, id: Seq<char>) -> Option<RunAttemptState>
    decreases states.len(),
{
    if states.len() == 0 {
        None
    } else if states[0].intent.attempt_id.text@ == id {
        Some(states[0])
    } else {
        state_of(states.skip(1), id)
    }
}

/// Whether a result in the log has no state.
pub open spec fn orphaned(records: Seq<RunLogRecord>, states: Seq<RunAttemptState>) -> bool {
    exists|k: int|
        0 <= k < records.len() && (#[trigger] records[k]) is TerminalResult && state_of(
            states,
            records[k]->terminal.result.attempt_id.text@,
        ) is None
}

/// What is wrong with going through a run again.
pub open spec fn completed_failure(
    records: Seq<RunLogRecord>,
    states: Seq<RunAttemptState>,
    run_session_id: Seq<char>,
) -> Option<ErrorModel> {
    if exists|k: int|
        0 <= k < states.len() && (#[trigger] states[k]).lifecycle == RunAttemptLifecycle::Uncertain {
        Some(
            ErrorModel::PersistedState(
                "run "@ + run_session_id
                    + " has uncertain productive attempts; reconcile them before Resume"@,
            ),
        )
    } else if orphaned(records, states) {
        error::protocol_failure("completed recovery attempt has no state"@)
    } else {
        None
    }
}

/// Attempts that have ended, by their contents.
pub open spec fn completed_view(attempts: Map<Seq<char>, RecoveryAttempt>) -> Map<
    Seq<char>,
    (Seq<char>, ResultModel, Option<Seq<char>>),
> {
    attempts.map_values(
        |attempt: RecoveryAttempt|
            (attempt.request_hash@, attempts::result_view(attempt.result), selection::optional_text(attempt.tool_id)),
    )
}

fn find_state<'a>(states: &'a Vec<RunAttemptState>, id: &str) -> (found: Option<&'a RunAttemptState>)
    ensures
        match found {
            Some(state) => state_of(states@, id@) == Some(*state),
            None => state_of(states@, id@) is None,
        },
{
    let mut i: usize = 0;
    assert(states@.skip(0) =~= states@);
    while i < states.len()
        invariant
            i <= states.len(),
            state_of(states@, id@) == state_of(states@.skip(i as int), id@),
        decreases states.len() - i,
    {
        assert(states@.skip(i as int)[0] == states@[i as int]);
        assert(states@.skip(i as int).skip(1) =~= states@.skip(i + 1));
        if same_text(states[i].intent.attempt_id.text.as_str(), id) {
            return Some(&states[i]);
        }
        i = i + 1;
    }
    None
}

fn any_uncertain(states: &Vec<RunAttemptState>) -> (found: bool)
    ensures
        found == exists|k: int|
            0 <= k < states@.len() && (#[trigger] states@[k]).lifecycle
                == RunAttemptLifecycle::Uncertain,
{
    let mut i: usize = 0;
    while i < states.len()
        invariant
            i <= states.len(),
            forall|k: int|
                0 <= k < i ==> (#[trigger] states@[k]).lifecycle != RunAttemptLifecycle::Uncertain,
        decreases states.len() - i,
    {
        if states[i].lifecycle == RunAttemptLifecycle::Uncertain {
            assert(states@[i as int].lifecycle == RunAttemptLifecycle::Uncertain);
            return true;
        }
        i = i + 1;
    }
    false
}

/// The attempts of a run that have ended, where all of them have.
pub fn completed_recovery_attempts(
    states: &Vec<RunAttemptState>,
    records: &Vec<RunLogRecord>,
    run_session_id: &str,
) -> (result: Result<KeyedList<RecoveryAttempt>, RuntimeError>)
    ensures
        error::failure(result) == completed_failure(records@, states@, run_session_id@),
        result matches Ok(completed) ==> completed.wf() && completed_view(completed@)
            == completed_map(records@, states@),
{
    if any_uncertain(states) {
        let message = join3(
            "run ",
            run_session_id,
            " has uncertain productive attempts; reconcile them before Resume",
        );
        return Err(persisted_state(message.as_str()));
    }
    let mut completed: KeyedList<RecoveryAttempt> = KeyedList::new();
    let mut i: usize = 0;
    assert(records@.take(0) =~= Seq::<RunLogRecord>::empty());
    assert(completed_view(completed@) =~= completed_map(records@.take(0), states@));
    while i < records.len()
        invariant
            i <= records.len(),
            completed.wf(),
            completed_view(completed@) == completed_map(records@.take(i as int), states@),
            !(exists|k: int|
                0 <= k < states@.len() && (#[trigger] states@[k]).lifecycle
                    == RunAttemptLifecycle::Uncertain),
            forall|k: int|
                0 <= k < i && (#[trigger] records@[k]) is TerminalResult ==> state_of(
                    states@,
                    records@[k]->terminal.result.attempt_id.text@,
                ) is Some,
        decreases records.len() - i,
    {
        let ghost head = records@.take(i + 1);
        assert(head.drop_last() =~= records@.take(i as int));
        assert(head.last() == records@[i as int]);
        if let RunLogRecord::TerminalResult { terminal, .. } = &records[i] {
            match find_state(states, terminal.result.attempt_id.text.as_str()) {
                None => {
                    assert(records@[i as int] is TerminalResult);
                    return Err(protocol("completed recovery attempt has no state"));
                },
                Some(state) => {
                    let ghost before = completed@;
                    let attempt = RecoveryAttempt {
                        request_hash: state.intent.request_hash.clone(),
                        result: terminal.result.clone(),
                        tool_id: clone_checked(&state.intent.tool_id),
                    };
                    completed.insert(terminal.result.attempt_id.text.clone(), attempt);
                    assert(completed_view(completed@) =~= completed_map(head, states@));
                },
            }
        }
        i = i + 1;
    }
    assert(records@.take(i as int) =~= records@);
    Ok(completed)
}

impl ProductiveRecoveryWriter {
    /// A writer for a run that begins, with the header of its snapshot.
    pub fn prepare(header: RecoveryHeader) -> (result: Result<
        PreparedProductiveRecoveryWriter,
        RuntimeError,
    >)
        ensures
            error::failure(result) == recovery::recovery_record_failure(
                ProductiveRecoveryRecord::Header(header),
            ),
            result matches Ok(prepared) ==> {
                let writer = prepared.writer;
                &&& prepared.header == ProductiveRecoveryRecord::Header(header)
                &&& writer.wf()
                &&& !writer.failed
                &&& writer.prior_event_count == header.prior_event_count
                &&& writer.replay_cursor == 0
                &&& writer.replay_records@.len() == 0
                &&& writer.consumed_attempts@.len() == 0
                &&& writer.completed_attempts@ == Map::<Seq<char>, RecoveryAttempt>::empty()
                &&& writer.terminal_snapshot_hash is None
            },
    {
        let prior_event_count: u64 = header.prior_event_count;
        let record = ProductiveRecoveryRecord::Header(header);
        validate_productive_recovery_record(&record)?;
        Ok(
            PreparedProductiveRecoveryWriter {
                header: record,
                writer: ProductiveRecoveryWriter {
                    completed_attempts: KeyedList::new(),
                    consumed_attempts: Vec::new(),
                    failed: false,
                    prior_event_count,
                    replay_cursor: 0,
                    replay_records: Vec::new(),
                    terminal_snapshot_hash: None,
                },
            },
        )
    }

    /// A writer that goes through a run again, by the records of its snapshot.
    pub fn open_for_resume(
        records: Vec<ProductiveRecoveryRecord>,
        snapshot: &[u8],
        conversation_id: &str,
        run_session_id: &str,
        completed: KeyedList<RecoveryAttempt>,
    ) -> (result: Result<ProductiveRecoveryWriter, RuntimeError>)
        requires
            completed.wf(),
        ensures
            error::failure(result) == (if records@.len() == 0 {
                error::protocol_failure("productive recovery snapshot has no header"@)
            } else {
                match records@[0] {
                    ProductiveRecoveryRecord::Header(header) => selection::addressed_failure(
                        header,
                        conversation_id@,
                        run_session_id@,
                    ),
                    _ => error::protocol_failure("productive recovery snapshot must begin with a header"@),
                }
            }),
            result matches Ok(writer) ==> {
                &&& writer.wf()
                &&& !writer.failed
                &&& writer.prior_event_count == records@[0]->Header_0.prior_event_count
                &&& writer.replay_cursor == 0
                &&& writer.replay_records@ == records@.skip(1)
                &&& writer.consumed_attempts@.len() == 0
                &&& writer.completed_attempts == completed
                &&& text::optional_view(writer.terminal_snapshot_hash) == (if records@.last() is Terminal {
                    Some(digest::digest_text(snapshot@))
                } else {
                    None
                })
            },
    {
        let mut records = records;
        if records.len() == 0 {
            return Err(protocol("productive recovery snapshot has no header"));
        }
        let prior_event_count: u64 = match &records[0] {
            ProductiveRecoveryRecord::Header(header) => {
                check_addressed(header, conversation_id, run_session_id)?;
                header.prior_event_count
            },
            _ => {
                return Err(protocol("productive recovery snapshot must begin with a header"));
            },
        };
        let terminal_snapshot_hash = match &records[records.len() - 1] {
            ProductiveRecoveryRecord::Terminal { .. } => Some(sha256_hex(snapshot)),
            _ => None,
        };
        let ghost all = records@;
        let _ = records.remove(0);
        assert(records@ =~= all.skip(1));
        Ok(
            ProductiveRecoveryWriter {
                completed_attempts: completed,
                consumed_attempts: Vec::new(),
                failed: false,
                prior_event_count,
                replay_cursor: 0,
                replay_records: records,
                terminal_snapshot_hash,
            },
        )
    }
}

/// What is written of an attempt comes back when the run is gone through again: in
/// the place of its record the same request finds the same result.
pub proof fn law_recorded_attempt_replays(
    writer: ProductiveRecoveryWriter,
    record: ProductiveRecoveryRecord,
    request: AttemptRequest,
)
    requires
        writer.wf(),
        !writer.failed,
        writer.replay_cursor < writer.replay_records@.len(),
        writer.replay_records@[writer.replay_cursor as int] == record,
        writer.completed_attempts@.dom().contains(request.attempt_id.text@),
        !text::texts_view(writer.consumed_attempts@).contains(request.attempt_id.text@),
        ({
            let completed = writer.completed_attempts@[request.attempt_id.text@];
            &&& records_attempt(
                record,
                request.request_hash@,
                attempts::result_view(completed.result),
                selection::optional_text(completed.tool_id),
            )
            &&& completed.request_hash@ == request.request_hash@
            &&& selection::optional_text(completed.tool_id) == selection::optional_text(request.tool_id)
            &&& completed.result.attempt_kind == request.kind
            &&& completed.result.attempt_id.text@ == request.attempt_id.text@
        }),
    ensures
        recover_failure(writer, request) is None,
{
}

/// No attempt is given out twice: once it was, asking for it again is refused.
pub proof fn law_attempt_is_given_once(
    before: ProductiveRecoveryWriter,
    after: ProductiveRecoveryWriter,
    request: AttemptRequest,
)
    requires
        !after.failed,
        text::texts_view(after.consumed_attempts@) == text::texts_view(before.consumed_attempts@).push(
            request.attempt_id.text@,
        ),
    ensures
        recover_failure(after, request) == error::protocol_failure(
            "productive recovery completed attempt was already consumed"@,
        ),
{
    let id = request.attempt_id.text@;
    let consumed = text::texts_view(after.consumed_attempts@);
    assert(consumed[consumed.len() - 1] == id);
}

/// Nothing new is written while records are left, nor behind a terminal record.
pub proof fn law_no_append_before_the_end(
    writer: ProductiveRecoveryWriter,
    replayed: Option<ErrorModel>,
    object: Option<ErrorModel>,
)
    requires
        writer.wf(),
        boundary_failure(writer, replayed, object) is None,
        writer.replay_cursor == writer.replay_records@.len(),
    ensures
        writer.terminal_snapshot_hash is None,
        !writer.failed,
{
}

/// What is recorded at a boundary is gone through again at the same boundary: the record
/// that is written for it does not diverge from it.
pub proof fn law_recorded_boundary_is_replayed(
    record: ProductiveRecoveryRecord,
    phase: PhaseBoundary,
    flow: Checked,
    from: Checked,
    to: Option<Checked>,
    object: ObjectUri,
    failed: bool,
    count: nat,
)
    ensures
        records_phase(record, phase, object) ==> phase_boundary_failure(record, phase) is None,
        records_transition(record, flow, from, to) ==> transition_boundary_failure(
            record,
            flow.text@,
            from.text@,
            selection::optional_text(to),
        ) is None,
        records_flow(record, flow, object) ==> flow_boundary_failure(record, flow.text@) is None,
        records_terminal(record, failed, object, count) ==> terminal_boundary_failure(
            record,
            failed,
            count,
        ) is None,
{
}

proof fn lemma_state_of(states: Seq<RunAttemptState>, id: Seq<char>)
    ensures
        match state_of(states, id) {
            Some(state) => exists|j: int|
                0 <= j < states.len() && #[trigger] states[j] == state
                    && states[j].intent.attempt_id.text@ == id,
            None => forall|j: int|
                0 <= j < states.len() ==> (#[trigger] states[j]).intent.attempt_id.text@ != id,
        },
    decreases states.len(),
{
    if states.len() > 0 && states[0].intent.attempt_id.text@ != id {
        let rest = states.skip(1);
        lemma_state_of(rest, id);
        match state_of(rest, id) {
            Some(state) => {
                let j = choose|j: int|
                    0 <= j < rest.len() && #[trigger] rest[j] == state
                        && rest[j].intent.attempt_id.text@ == id;
                assert(states[j + 1] == state);
            },
            None => {
                assert forall|j: int| 0 <= j < states.len() implies (
                #[trigger] states[j]).intent.attempt_id.text@ != id by {
                    if j > 0 {
                        assert(rest[j - 1] == states[j]);
                    }
                }
            },
        }
    } else if states.len() > 0 {
        assert(states[0] == state_of(states, id)->0);
    }
}

/// Whether a record of a log is the result that ends an attempt.
pub open spec fn ends_attempt(record: RunLogRecord, id: Seq<char>) -> bool {
    record is TerminalResult && record->terminal.result.attempt_id.text@ == id
}

/// What is gathered of the attempt that a result ends.
pub open spec fn gathered(
    record: RunLogRecord,
    states: Seq<RunAttemptState>,
    id: Seq<char>,
) -> (Seq<char>, attempts::ResultModel, Option<Seq<char>>) {
    (
        state_of(states, id)->0.intent.request_hash@,
        attempts::result_view(record->terminal.result),
        selection::optional_text(state_of(states, id)->0.intent.tool_id),
    )
}

/// The last place of a log at which a result ends an attempt.
spec fn last_end(records: Seq<RunLogRecord>, id: Seq<char>, k: int) -> bool {
    &&& 0 <= k < records.len()
    &&& ends_attempt(records[k], id)
    &&& forall|j: int| k < j < records.len() ==> !ends_attempt(#[trigger] records[j], id)
}

proof fn lemma_one_more(records: Seq<RunLogRecord>, states: Seq<RunAttemptState>, id: Seq<char>)
    requires
        records.len() > 0,
        !orphaned(records, states),
    ensures
        !orphaned(records.drop_last(), states),
        ends_attempt(records.last(), id) ==> {
            &&& state_of(states, id) is Some
            &&& completed_map(records, states).dom().contains(id)
            &&& completed_map(records, states)[id] == gathered(records.last(), states, id)
        },
        !ends_attempt(records.last(), id) ==> {
            &&& completed_map(records, states).dom().contains(id) == completed_map(
                records.drop_last(),
                states,
            ).dom().contains(id)
            &&& completed_map(records, states)[id] == completed_map(
                records.drop_last(),
                states,
            )[id]
        },
{
    let rest = records.drop_last();
    if orphaned(rest, states) {
        let k = choose|k: int|
            0 <= k < rest.len() && (#[trigger] rest[k]) is TerminalResult && state_of(
                states,
                rest[k]->terminal.result.attempt_id.text@,
            ) is None;
        assert(records[k] == rest[k]);
    }
    assert(records[records.len() - 1] == records.last());
}

proof fn lemma_completed_map(
    records: Seq<RunLogRecord>,
    states: Seq<RunAttemptState>,
    id: Seq<char>,
)
    requires
        !orphaned(records, states),
    ensures
        completed_map(records, states).dom().contains(id) <==> exists|k: int|
            last_end(records, id, k),
        forall|k: int| #[trigger]
            last_end(records, id, k) ==> state_of(states, id) is Some && completed_map(
                records,
                states,
            )[id] == gathered(records[k], states, id),
    decreases records.len(),
{
    if records.len() == 0 {
        assert forall|k: int| !last_end(records, id, k) by {}
    } else {
        let rest = records.drop_last();
        let last = records.len() - 1;
        lemma_one_more(records, states, id);
        lemma_completed_map(rest, states, id);
        if ends_attempt(records.last(), id) {
            assert(last_end(records, id, last));
            assert forall|k: int| #[trigger] last_end(records, id, k) implies k == last by {
                if k < last {
                    assert(!ends_attempt(records[last], id));
                }
            }
        } else {
            assert forall|k: int| #[trigger]
                last_end(records, id, k) == last_end(rest, id, k) by {
                if last_end(records, id, k) {
                    assert(k < last);
                    assert(rest[k] == records[k]);
                    assert forall|j: int| k < j < rest.len() implies !ends_attempt(
                        #[trigger] rest[j],
                        id,
                    ) by {
                        assert(rest[j] == records[j]);
                    }
                }
                if last_end(rest, id, k) {
                    assert(rest[k] == records[k]);
                    assert forall|j: int| k < j < records.len() implies !ends_attempt(
                        #[trigger] records[j],
                        id,
                    ) by {
                        if j < last {
                            assert(rest[j] == records[j]);
                        }
                    }
                }
            }
            if completed_map(rest, states).dom().contains(id) {
                let k = choose|k: int| last_end(rest, id, k);
                assert(last_end(records, id, k));
            }
            assert forall|k: int| #[trigger] last_end(records, id, k) implies state_of(
                states,
                id,
            ) is Some && completed_map(records, states)[id] == gathered(
                records[k],
                states,
                id,
            ) by {
                assert(last_end(rest, id, k));
                assert(rest[k] == records[k]);
            }
            if exists|k: int| last_end(records, id, k) {
                let k = choose|k: int| last_end(records, id, k);
                assert(last_end(rest, id, k));
            }
        }
    }
}

proof fn lemma_some_last_end(records: Seq<RunLogRecord>, id: Seq<char>, k: int)
    requires
        0 <= k < records.len(),
        ends_attempt(records[k], id),
    ensures
        exists|j: int| last_end(records, id, j),
    decreases records.len() - k,
{
    if forall|j: int| k < j < records.len() ==> !ends_attempt(#[trigger] records[j], id) {
        assert(last_end(records, id, k));
    } else {
        let j = choose|j: int| k < j < records.len() && ends_attempt(#[trigger] records[j], id);
        lemma_some_last_end(records, id, j);
    }
}

/// The attempts that are gathered to resume a run are those whose results stand in its log,
/// all of them and no others: each with the last result that the log holds of it, and with
/// the request and the tool that it was begun with.
pub proof fn law_every_result_is_gathered(
    records: Seq<RunLogRecord>,
    states: Seq<RunAttemptState>,
    run_session_id: Seq<char>,
    completed: Map<Seq<char>, RecoveryAttempt>,
    id: Seq<char>,
)
    requires
        completed_failure(records, states, run_session_id) is None,
        completed_view(completed) == completed_map(records, states),
    ensures
        completed.dom().contains(id) <==> exists|k: int|
            0 <= k < records.len() && (#[trigger] records[k]) is TerminalResult
                && records[k]->terminal.result.attempt_id.text@ == id,
        forall|k: int|
            0 <= k < records.len() && (#[trigger] records[k]) is TerminalResult
                && records[k]->terminal.result.attempt_id.text@ == id && (forall|j: int|
                k < j < records.len() && (#[trigger] records[j]) is TerminalResult
                    ==> records[j]->terminal.result.attempt_id.text@ != id) ==> {
                &&& completed.dom().contains(id)
                &&& attempts::result_view(completed[id].result) == attempts::result_view(
                    records[k]->terminal.result,
                )
                &&& exists|j: int|
                    0 <= j < states.len() && (#[trigger] states[j]).intent.attempt_id.text@ == id
                        && completed[id].request_hash@ == states[j].intent.request_hash@
                        && selection::optional_text(completed[id].tool_id)
                        == selection::optional_text(states[j].intent.tool_id)
            },
{
    lemma_completed_map(records, states, id);
    lemma_state_of(states, id);
    let view = completed_view(completed);
    assert(view.dom() =~= completed.dom());
    if completed.dom().contains(id) {
        assert(view.dom().contains(id));
        let k = choose|k: int| last_end(records, id, k);
        assert(records[k] is TerminalResult);
    }
    assert forall|k: int|
        0 <= k < records.len() && (#[trigger] records[k]) is TerminalResult
            && records[k]->terminal.result.attempt_id.text@ == id implies completed.dom().contains(
        id,
    ) by {
        assert(ends_attempt(records[k], id));
        lemma_some_last_end(records, id, k);
        assert(view.dom().contains(id));
    }
    assert forall|k: int|
        0 <= k < records.len() && (#[trigger] records[k]) is TerminalResult
            && records[k]->terminal.result.attempt_id.text@ == id && (forall|j: int|
            k < j < records.len() && (#[trigger] records[j]) is TerminalResult
                ==> records[j]->terminal.result.attempt_id.text@ != id) implies {
        &&& attempts::result_view(completed[id].result) == attempts::result_view(
            records[k]->terminal.result,
        )
        &&& exists|j: int|
            0 <= j < states.len() && (#[trigger] states[j]).intent.attempt_id.text@ == id
                && completed[id].request_hash@ == states[j].intent.request_hash@
                && selection::optional_text(completed[id].tool_id) == selection::optional_text(
                states[j].intent.tool_id,
            )
    } by {
        assert forall|j: int| k < j < records.len() implies !ends_attempt(
            #[trigger] records[j],
            id,
        ) by {}
        assert(last_end(records, id, k));
        assert(view.dom().contains(id));
        let state = state_of(states, id)->0;
        let j = choose|j: int|
            0 <= j < states.len() && #[trigger] states[j] == state
                && states[j].intent.attempt_id.text@ == id;
        assert(states[j].intent.attempt_id.text@ == id);
    }
}

/// A boundary that was recorded is met again by the boundary that was recorded and by no
/// other: a phase by its flow, execution, identifier, iteration and whether it repeats, a
/// transition by its flow and both its ends, a flow by its execution, and the end by its
/// outcome and the number of events.
pub proof fn law_only_the_recorded_boundary_is_met(
    record: ProductiveRecoveryRecord,
    phase: PhaseBoundary,
    met: PhaseBoundary,
    flow: Checked,
    from: Checked,
    to: Option<Checked>,
    other_flow: Seq<char>,
    other_from: Seq<char>,
    other_to: Option<Seq<char>>,
    object: ObjectUri,
    failed: bool,
    count: nat,
    other_failed: bool,
    other_count: nat,
)
    ensures
        records_phase(record, phase, object) ==> {
            &&& phase_boundary_failure(record, met) is None <==> {
                &&& met.flow_execution_id.text@ == phase.flow_execution_id.text@
                &&& met.phase_execution_id.text@ == phase.phase_execution_id.text@
                &&& met.phase_id.text@ == phase.phase_id.text@
                &&& met.iteration == phase.iteration
                &&& met.will_repeat == phase.will_repeat
            }
            &&& transition_boundary_failure(record, other_flow, other_from, other_to) is Some
            &&& flow_boundary_failure(record, other_flow) is Some
            &&& terminal_boundary_failure(record, other_failed, other_count) is Some
        },
        records_transition(record, flow, from, to) ==> {
            &&& transition_boundary_failure(record, other_flow, other_from, other_to) is None <==> {
                &&& other_flow == flow.text@
                &&& other_from == from.text@
                &&& (other_to is Some) == (to is Some)
                &&& to is Some ==> other_to->0 == to->0.text@
            }
            &&& phase_boundary_failure(record, met) is Some
            &&& flow_boundary_failure(record, other_flow) is Some
            &&& terminal_boundary_failure(record, other_failed, other_count) is Some
        },
        records_flow(record, flow, object) ==> {
            &&& flow_boundary_failure(record, other_flow) is None <==> other_flow == flow.text@
            &&& phase_boundary_failure(record, met) is Some
            &&& transition_boundary_failure(record, other_flow, other_from, other_to) is Some
            &&& terminal_boundary_failure(record, other_failed, other_count) is Some
        },
        records_terminal(record, failed, object, count) ==> {
            &&& terminal_boundary_failure(record, other_failed, other_count) is None <==> other_failed
                == failed && other_count == count
            &&& phase_boundary_failure(record, met) is Some
            &&& transition_boundary_failure(record, other_flow, other_from, other_to) is Some
            &&& flow_boundary_failure(record, other_flow) is Some
        },
        recorded_attempt(record) is Some ==> {
            &&& phase_boundary_failure(record, met) is Some
            &&& transition_boundary_failure(record, other_flow, other_from, other_to) is Some
            &&& flow_boundary_failure(record, other_flow) is Some
            &&& terminal_boundary_failure(record, other_failed, other_count) is Some
        },
{
}

/// An attempt is given back from the records only where the next record is of the same
/// attempt, request and tool, and its result is the one that the log of the run holds. Where
/// nothing is recorded any more, an attempt whose result is known is given back where request
/// and tool are the same; any other runs, and only where no known result is left over.
pub proof fn law_what_is_given_back_was_recorded(
    writer: ProductiveRecoveryWriter,
    request: AttemptRequest,
)
    requires
        writer.wf(),
        recover_failure(writer, request) is None,
    ensures
        ({
            let id = request.attempt_id.text@;
            let completed = writer.completed_attempts@[id];
            let next = writer.replay_records@[writer.replay_cursor as int];
            &&& !writer.failed
            &&& forall|k: int|
                0 <= k < writer.consumed_attempts@.len() ==> (
                #[trigger] writer.consumed_attempts@[k])@ != id
            &&& writer.replay_cursor < writer.replay_records@.len() ==> {
                &&& writer.completed_attempts@.dom().contains(id)
                &&& completed.request_hash@ == request.request_hash@
                &&& selection::optional_text(completed.tool_id) == selection::optional_text(
                    request.tool_id,
                )
                &&& completed.result.attempt_kind == request.kind
                &&& completed.result.attempt_id.text@ == id
                &&& next is Provider || next is Tool
                &&& next is Provider ==> {
                    &&& request.kind == RunAttemptKind::Provider
                    &&& request.tool_id is None
                    &&& next->Provider_0.attempt_id.text@ == id
                    &&& next->Provider_0.request_hash@ == request.request_hash@
                    &&& next->Provider_0.outcome@ == completed.result.outcome@
                }
                &&& next is Tool ==> {
                    &&& request.kind == RunAttemptKind::Tool
                    &&& request.tool_id is Some
                    &&& request.tool_id->0.text@ == next->tool_id.text@
                    &&& next->attempt.attempt_id.text@ == id
                    &&& next->attempt.request_hash@ == request.request_hash@
                    &&& next->attempt.outcome@ == completed.result.outcome@
                }
            }
            &&& writer.replay_cursor == writer.replay_records@.len() ==> {
                &&& writer.terminal_snapshot_hash is None
                &&& writer.completed_attempts@.dom().contains(id) ==> {
                    &&& completed.request_hash@ == request.request_hash@
                    &&& selection::optional_text(completed.tool_id) == selection::optional_text(
                        request.tool_id,
                    )
                    &&& completed.result.attempt_kind == request.kind
                    &&& completed.result.durable_output is Some
                }
                &&& !writer.completed_attempts@.dom().contains(id) ==> forall|other: Seq<char>| #[trigger]
                    writer.completed_attempts@.dom().contains(other) ==> exists|k: int|
                        0 <= k < writer.consumed_attempts@.len() && (
                        #[trigger] writer.consumed_attempts@[k])@ == other
            }
        }),
{
    let id = request.attempt_id.text@;
    let consumed = text::texts_view(writer.consumed_attempts@);
    assert forall|k: int| 0 <= k < writer.consumed_attempts@.len() implies (
    #[trigger] writer.consumed_attempts@[k])@ != id by {
        assert(consumed[k] == writer.consumed_attempts@[k]@);
    }
    if writer.replay_cursor == writer.replay_records@.len()
        && !writer.completed_attempts@.dom().contains(id) {
        assert(all_consumed(writer));
        assert forall|other: Seq<char>| #[trigger]
            writer.completed_attempts@.dom().contains(other) implies exists|k: int|
            0 <= k < writer.consumed_attempts@.len() && (#[trigger] writer.consumed_attempts@[k])@
                == other by {
            let k = choose|k: int| 0 <= k < consumed.len() && consumed[k] == other;
            assert(writer.consumed_attempts@[k]@ == other);
        }
    }
}

} // verus!
