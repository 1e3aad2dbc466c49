//! Writing the events of a run: what was committed before is replayed and must come out
//! the same, and what is new goes behind it.

use crate::error::{protocol, ErrorModel, RuntimeError};
use crate::error;
use crate::text::{append_text, join2, same_text};
use crate::text;
use vstd::prelude::*;

verus! {

/// A writer of the events of a run.
pub struct ConversationEventWriter {
    /// What was written beyond the replayed part, where it is wanted.
    pub capture: Option<String>,
    pub event_count: usize,
    pub failed: bool,
    pub finished: bool,
    pub last_sequence: Option<u64>,
    pub last_timestamp: Option<String>,
}

/// A writer, by its contents.
pub struct WriterModel {
    pub capture: Option<Seq<char>>,
    pub event_count: usize,
    pub failed: bool,
    pub finished: bool,
    pub last_sequence: Option<u64>,
    pub last_timestamp: Option<Seq<char>>,
}

impl View for ConversationEventWriter {
    type V = WriterModel;

    open spec fn view(&self) -> WriterModel {
        WriterModel {
            capture: text::optional_view(self.capture),
            event_count: self.event_count,
            failed: self.failed,
            finished: self.finished,
            last_sequence: self.last_sequence,
            last_timestamp: text::optional_view(self.last_timestamp),
        }
    }
}

/// What a writer says that failed before.
pub open spec fn prior_failure() -> Option<ErrorModel> {
    error::protocol_failure("conversation event writer is closed after a prior failure"@)
}

fn prior_conversation_writer_failure() -> (error: RuntimeError)
    ensures
        Some(error@) == prior_failure(),
{
    protocol("conversation event writer is closed after a prior failure")
}

/// The writer, closed where something went wrong.
pub open spec fn closed_on(writer: WriterModel, failure: Option<ErrorModel>) -> WriterModel {
    WriterModel { failed: writer.failed || failure is Some, ..writer }
}

/// The writer with an event counted.
pub open spec fn counted(writer: WriterModel, sequence: u64, timestamp: Seq<char>) -> WriterModel {
    WriterModel {
        event_count: if writer.event_count == usize::MAX {
            usize::MAX
        } else {
            (writer.event_count + 1) as usize
        },
        last_sequence: Some(sequence),
        last_timestamp: Some(timestamp),
        ..writer
    }
}

/// The writer with a line captured.
pub open spec fn captured(writer: WriterModel, line: Seq<char>) -> WriterModel {
    WriterModel {
        capture: match writer.capture {
            Some(capture) => Some(capture + line),
            None => None,
        },
        ..writer
    }
}

/// What is wrong with how an event and a context manifest go together: a completed
/// message has one, and nothing else has.
pub open spec fn pairing_failure(
    completes_message: bool,
    manifest: bool,
    missing: Seq<char>,
    unexpected: Seq<char>,
) -> Option<ErrorModel> {
    if completes_message && !manifest {
        error::protocol_failure(missing)
    } else if !completes_message && manifest {
        error::protocol_failure(unexpected)
    } else {
        None
    }
}

/// Accepts an event and a context manifest that go together.
pub fn validate_context_manifest_pairing(
    completes_message: bool,
    manifest: bool,
    missing: &str,
    unexpected: &str,
) -> (result: Result<(), RuntimeError>)
    ensures
        error::failure(result) == pairing_failure(completes_message, manifest, missing@, unexpected@),
{
    if completes_message && !manifest {
        return Err(protocol(missing));
    }
    if !completes_message && manifest {
        return Err(protocol(unexpected));
    }
    Ok(())
}

/// What is wrong with an event that is offered.
pub open spec fn offer_failure(
    writer: WriterModel,
    canonical: Seq<char>,
    encoded: Result<String, String>,
) -> Option<ErrorModel> {
    if writer.failed {
        prior_failure()
    } else if writer.finished {
        error::protocol_failure("conversation event writer is already finished"@)
    } else {
        match encoded {
            Err(words) => error::protocol_failure(
                "conversation event canonical JSONL encoding failed: "@ + words@,
            ),
            Ok(expected) => if canonical != expected@ {
                error::protocol_failure("conversation event does not match its canonical JSONL"@)
            } else {
                None
            },
        }
    }
}

/// What an event meets in the part that is replayed.
#[derive(Clone, Copy, Debug, PartialEq, Eq, Structural)]
pub enum ReplayNext {
    /// It is the next event there; nothing else belongs to it.
    Replayed,
    /// It is the next event there, and the next context belongs to it.
    WantContext,
    /// No event is left there; a context may be.
    EndOfEvents,
}

/// What is wrong with an event against the next one that is replayed.
pub open spec fn replay_failure(
    canonical: Seq<char>,
    expected: Result<Option<String>, RuntimeError>,
    completes_message: bool,
    manifest: bool,
) -> Option<ErrorModel> {
    match expected {
        Err(error) => Some(error@),
        Ok(None) => None,
        Ok(Some(expected)) => if expected@ != canonical {
            error::protocol_failure("productive recovery event prefix diverged from deterministic replay"@)
        } else {
            pairing_failure(
                completes_message,
                manifest,
                "productive recovery message.completed requires its context manifest"@,
                "productive recovery produced an unexpected context manifest"@,
            )
        },
    }
}

/// What is wrong with a context against the next one that is replayed.
pub open spec fn replay_context_failure(
    expected: Result<Option<String>, RuntimeError>,
    line: Seq<char>,
) -> Option<ErrorModel> {
    match expected {
        Err(error) => Some(error@),
        Ok(None) => error::protocol_failure(
            "productive recovery message.completed has no context prefix"@,
        ),
        Ok(Some(expected)) => if expected@ != line {
            error::protocol_failure(
                "productive recovery context prefix diverged from deterministic replay"@,
            )
        } else {
            None
        },
    }
}

/// What is wrong with a context that was replayed without its event.
pub open spec fn tail_failure(
    further: Result<bool, RuntimeError>,
    completes_message: bool,
    line: Option<Seq<char>>,
    expected: Seq<char>,
) -> Option<ErrorModel> {
    match further {
        Err(error) => Some(error@),
        Ok(further) => if further {
            error::protocol_failure("productive recovery context prefix extends beyond one missing event"@)
        } else {
            error::first_failure(
                pairing_failure(
                    completes_message,
                    line is Some,
                    "productive recovery message.completed requires its context manifest"@,
                    "productive recovery context prefix requires message.completed"@,
                ),
                if !completes_message {
                    error::protocol_failure(
                        "productive recovery context prefix requires message.completed"@,
                    )
                } else if line != Some(expected) {
                    error::protocol_failure(
                        "productive recovery context prefix diverged from deterministic replay"@,
                    )
                } else {
                    None
                },
            )
        },
    }
}

impl ConversationEventWriter {
    /// A writer that has written nothing.
    pub fn open_with_run_objects(capture_jsonl: bool) -> (writer: ConversationEventWriter)
        ensures
            writer@ == (WriterModel {
                capture: if capture_jsonl {
                    Some(Seq::empty())
                } else {
                    None
                },
                event_count: 0,
                failed: false,
                finished: false,
                last_sequence: None,
                last_timestamp: None,
            }),
    {
        let capture = if capture_jsonl {
            Some(String::new())
        } else {
            None
        };
        let writer = ConversationEventWriter {
            capture,
            event_count: 0,
            failed: false,
            finished: false,
            last_sequence: None,
            last_timestamp: None,
        };
        assert(capture_jsonl ==> writer@.capture->0 =~= Seq::<char>::empty());
        writer
    }

    /// How many events were written or replayed.
    pub fn event_count(&self) -> (count: usize)
        ensures
            count == self@.event_count,
    {
        self.event_count
    }

    /// What was captured.
    pub fn captured_jsonl(&self) -> (capture: Option<&str>)
        ensures
            match capture {
                Some(capture) => self@.capture == Some(capture@),
                None => self@.capture is None,
            },
    {
        match &self.capture {
            Some(capture) => Some(capture.as_str()),
            None => None,
        }
    }

    /// The last event that was written or replayed.
    pub fn last_checkpoint(&self) -> (checkpoint: Option<(u64, &str)>)
        ensures
            match checkpoint {
                Some((sequence, timestamp)) => self@.last_sequence == Some(sequence)
                    && self@.last_timestamp == Some(timestamp@),
                None => self@.last_sequence is None || self@.last_timestamp is None,
            },
    {
        match (&self.last_sequence, &self.last_timestamp) {
            (Some(sequence), Some(timestamp)) => Some((*sequence, timestamp.as_str())),
            _ => None,
        }
    }

    fn close_on_error(&mut self, failed: bool)
        ensures
            final(self)@ == (WriterModel { failed: old(self)@.failed || failed, ..old(self)@ }),
    {
        if failed {
            self.failed = true;
        }
    }

    fn check_offer(&self, canonical_jsonl: &str, encoded: Result<String, String>) -> (result: Result<
        (),
        RuntimeError,
    >)
        ensures
            error::failure(result) == offer_failure(self@, canonical_jsonl@, encoded),
    {
        if self.failed {
            return Err(prior_conversation_writer_failure());
        }
        if self.finished {
            return Err(protocol("conversation event writer is already finished"));
        }
        match encoded {
            Err(words) => {
                let message = join2(
                    "conversation event canonical JSONL encoding failed: ",
                    words.as_str(),
                );
                Err(protocol(message.as_str()))
            },
            Ok(expected) => {
                if !same_text(canonical_jsonl, expected.as_str()) {
                    return Err(protocol("conversation event does not match its canonical JSONL"));
                }
                Ok(())
            },
        }
    }

    /// Takes an event that is offered, given what encoding it says.
    pub fn begin_commit(&mut self, canonical_jsonl: &str, encoded: Result<String, String>) -> (result:
        Result<(), RuntimeError>)
        ensures
            error::failure(result) == offer_failure(old(self)@, canonical_jsonl@, encoded),
            final(self)@ == closed_on(old(self)@, error::failure(result)),
    {
        let result = self.check_offer(canonical_jsonl, encoded);
        self.close_on_error(result.is_err());
        result
    }

    /// Holds an event against the next one that is replayed.
    pub fn replay_event(
        &mut self,
        canonical_jsonl: &str,
        expected: Result<Option<String>, RuntimeError>,
        completes_message: bool,
        manifest: bool,
    ) -> (result: Result<ReplayNext, RuntimeError>)
        ensures
            error::failure(result) == replay_failure(
                canonical_jsonl@,
                expected,
                completes_message,
                manifest,
            ),
            result matches Ok(next) ==> next == (if expected->Ok_0 is None {
                ReplayNext::EndOfEvents
            } else if manifest {
                ReplayNext::WantContext
            } else {
                ReplayNext::Replayed
            }),
            final(self)@ == closed_on(old(self)@, error::failure(result)),
    {
        let result = match expected {
            Err(error) => Err(error),
            Ok(None) => Ok(ReplayNext::EndOfEvents),
            Ok(Some(expected)) => {
                if !same_text(expected.as_str(), canonical_jsonl) {
                    Err(
                        protocol(
                            "productive recovery event prefix diverged from deterministic replay",
                        ),
                    )
                } else {
                    match validate_context_manifest_pairing(
                        completes_message,
                        manifest,
                        "productive recovery message.completed requires its context manifest",
                        "productive recovery produced an unexpected context manifest",
                    ) {
                        Err(error) => Err(error),
                        Ok(()) => {
                            if manifest {
                                Ok(ReplayNext::WantContext)
                            } else {
                                Ok(ReplayNext::Replayed)
                            }
                        },
                    }
                }
            },
        };
        self.close_on_error(result.is_err());
        result
    }

    /// Holds a context against the next one that is replayed.
    pub fn replay_context(&mut self, expected: Result<Option<String>, RuntimeError>, line: &str) -> (result:
        Result<(), RuntimeError>)
        ensures
            error::failure(result) == replay_context_failure(expected, line@),
            final(self)@ == closed_on(old(self)@, error::failure(result)),
    {
        let result = match expected {
            Err(error) => Err(error),
            Ok(None) => Err(
                protocol("productive recovery message.completed has no context prefix"),
            ),
            Ok(Some(expected)) => {
                if !same_text(expected.as_str(), line) {
                    Err(
                        protocol(
                            "productive recovery context prefix diverged from deterministic replay",
                        ),
                    )
                } else {
                    Ok(())
                }
            },
        };
        self.close_on_error(result.is_err());
        result
    }

    /// Ends an event that was replayed, given what came of storing its objects.
    pub fn commit_replayed(
        &mut self,
        stored: Result<(), RuntimeError>,
        sequence: u64,
        timestamp: &str,
    ) -> (result: Result<(), RuntimeError>)
        ensures
            error::failure(result) == error::failure(stored),
            final(self)@ == (if result is Ok {
                counted(old(self)@, sequence, timestamp@)
            } else {
                closed_on(old(self)@, error::failure(result))
            }),
    {
        if let Err(error) = stored {
            self.failed = true;
            return Err(error);
        }
        self.event_count = self.event_count.saturating_add(1);
        self.last_sequence = Some(sequence);
        self.last_timestamp = Some(timestamp.to_owned());
        Ok(())
    }

    /// Takes the context that is left behind the events that are replayed: nothing where
    /// the event goes to the writer, and the context where only its event is missing.
    pub fn tail_context(&mut self, expected: Result<Option<String>, RuntimeError>) -> (result: Result<
        Option<String>,
        RuntimeError,
    >)
        ensures
            error::failure(result) == error::failure(expected),
            result matches Ok(context) ==> expected == Ok::<Option<String>, RuntimeError>(context),
            final(self)@ == closed_on(old(self)@, error::failure(result)),
    {
        self.close_on_error(expected.is_err());
        expected
    }

    /// Holds an event against the context that was left without it; `further` is whether
    /// another context follows.
    pub fn repair_tail(
        &mut self,
        further: Result<bool, RuntimeError>,
        completes_message: bool,
        line: Option<&str>,
        expected: &str,
    ) -> (result: Result<(), RuntimeError>)
        ensures
            error::failure(result) == tail_failure(
                further,
                completes_message,
                match line {
                    Some(line) => Some(line@),
                    None => None,
                },
                expected@,
            ),
            final(self)@ == closed_on(old(self)@, error::failure(result)),
    {
        let result = check_tail(further, completes_message, line, expected);
        self.close_on_error(result.is_err());
        result
    }

    /// Ends an event that went to the writer or repaired the tail, given what came of
    /// that.
    pub fn commit_written(
        &mut self,
        written: Result<(), RuntimeError>,
        canonical_jsonl: &str,
        sequence: u64,
        timestamp: &str,
    ) -> (result: Result<(), RuntimeError>)
        ensures
            error::failure(result) == error::failure(written),
            final(self)@ == (if result is Ok {
                counted(captured(old(self)@, canonical_jsonl@), sequence, timestamp@)
            } else {
                closed_on(old(self)@, error::failure(result))
            }),
    {
        if let Err(error) = written {
            self.failed = true;
            return Err(error);
        }
        let capture = self.capture.take();
        self.capture = match capture {
            Some(mut capture) => {
                append_text(&mut capture, canonical_jsonl);
                Some(capture)
            },
            None => None,
        };
        self.event_count = self.event_count.saturating_add(1);
        self.last_sequence = Some(sequence);
        self.last_timestamp = Some(timestamp.to_owned());
        Ok(())
    }
}

fn check_tail(
    further: Result<bool, RuntimeError>,
    completes_message: bool,
    line: Option<&str>,
    expected: &str,
) -> (result: Result<(), RuntimeError>)
    ensures
        error::failure(result) == tail_failure(
            further,
            completes_message,
            match line {
                Some(line) => Some(line@),
                None => None,
            },
            expected@,
        ),
{
    if further? {
        return Err(
            protocol("productive recovery context prefix extends beyond one missing event"),
        );
    }
    validate_context_manifest_pairing(
        completes_message,
        line.is_some(),
        "productive recovery message.completed requires its context manifest",
        "productive recovery context prefix requires message.completed",
    )?;
    if !completes_message {
        return Err(protocol("productive recovery context prefix requires message.completed"));
    }
    match line {
        Some(line) => {
            if !same_text(expected, line) {
                return Err(
                    protocol(
                        "productive recovery context prefix diverged from deterministic replay",
                    ),
                );
            }
            Ok(())
        },
        None => Err(
            protocol("productive recovery context prefix diverged from deterministic replay"),
        ),
    }
}

/// A failed append: what went wrong, and how many lines were committed all the same,
/// where that is known.
pub struct AppendFailure {
    pub error: RuntimeError,
    pub committed_events: Option<usize>,
}

/// What came of repairing a tail.
pub enum RepairOutcome {
    /// The event was not written.
    Rejected(RuntimeError),
    /// The event was written; what went wrong all the same.
    Written(Option<RuntimeError>),
}

/// What came of repairing a tail: the event counts as written where the append says
/// that it was committed, and what went wrong first is reported.
pub fn repair_context_only_tail(
    appended: Result<(), AppendFailure>,
    synced: Result<(), RuntimeError>,
) -> (outcome: RepairOutcome)
    ensures
        match outcome {
            RepairOutcome::Rejected(error) => appended is Err && appended->Err_0.committed_events
                != Some(1usize) && error@ == appended->Err_0.error@,
            RepairOutcome::Written(None) => appended is Ok && synced is Ok,
            RepairOutcome::Written(Some(error)) => match appended {
                Err(failure) => failure.committed_events == Some(1usize) && error@
                    == failure.error@,
                Ok(_) => synced is Err && error@ == synced->Err_0@,
            },
        },
{
    match appended {
        Err(failure) => {
            let committed = match failure.committed_events {
                Some(count) => count == 1,
                None => false,
            };
            if committed {
                RepairOutcome::Written(Some(failure.error))
            } else {
                RepairOutcome::Rejected(failure.error)
            }
        },
        Ok(()) => match synced {
            Ok(()) => RepairOutcome::Written(None),
            Err(error) => RepairOutcome::Written(Some(error)),
        },
    }
}

/// What is left of the part that is replayed: the next event, and where there is none,
/// the next context.
pub open spec fn prefix_failure(
    event: Result<bool, RuntimeError>,
    context: Result<bool, RuntimeError>,
    message: Seq<char>,
) -> Option<ErrorModel> {
    match event {
        Err(error) => Some(error@),
        Ok(true) => error::protocol_failure(message),
        Ok(false) => match context {
            Err(error) => Some(error@),
            Ok(true) => error::protocol_failure(message),
            Ok(false) => None,
        },
    }
}

/// What is wrong where something is left of the part that is replayed.
pub fn recovery_prefix_error(
    event: Result<bool, RuntimeError>,
    context: Result<bool, RuntimeError>,
    message: &str,
) -> (found: Option<RuntimeError>)
    ensures
        match found {
            Some(error) => prefix_failure(event, context, message@) == Some(error@),
            None => prefix_failure(event, context, message@) is None,
        },
{
    match event {
        Err(error) => Some(error),
        Ok(true) => Some(protocol(message)),
        Ok(false) => match context {
            Err(error) => Some(error),
            Ok(true) => Some(protocol(message)),
            Ok(false) => None,
        },
    }
}

/// What is wrong with ending a writer, before its streams are made durable.
pub open spec fn finish_failure(
    writer: WriterModel,
    event: Result<bool, RuntimeError>,
    context: Result<bool, RuntimeError>,
) -> Option<ErrorModel> {
    if writer.failed {
        prior_failure()
    } else {
        prefix_failure(
            event,
            context,
            "productive recovery ended before its committed event/context prefix was replayed"@,
        )
    }
}

/// The failures in order: of the operation, and of making durable.
pub open spec fn both_failures(operation: Option<ErrorModel>, cleanup: Option<ErrorModel>) -> Seq<
    ErrorModel,
> {
    crate::error::optional_failure(operation) + crate::error::optional_failure(cleanup)
}

impl ConversationEventWriter {
    /// Ends the writer: what is left of the part that is replayed is an error, and so is
    /// what went wrong making the streams durable; then the writer is not ended.
    pub fn finish(
        &mut self,
        event: Result<bool, RuntimeError>,
        context: Result<bool, RuntimeError>,
        cleanup: Result<(), RuntimeError>,
    ) -> (failures: Vec<RuntimeError>)
        ensures
            old(self)@.finished ==> {
                &&& error::failures_view(failures@) == (if old(self)@.failed {
                    seq![prior_failure()->0]
                } else {
                    Seq::empty()
                })
                &&& final(self)@ == old(self)@
            },
            !old(self)@.finished ==> {
                let operation = finish_failure(old(self)@, event, context);
                &&& error::failures_view(failures@) == both_failures(operation, error::failure(cleanup))
                &&& final(self)@ == (WriterModel {
                    failed: old(self)@.failed || operation is Some || cleanup is Err,
                    finished: cleanup is Ok,
                    ..old(self)@
                })
            },
    {
        let mut failures: Vec<RuntimeError> = Vec::new();
        if self.finished {
            if self.failed {
                failures.push(prior_conversation_writer_failure());
                assert(error::failures_view(failures@) =~= seq![prior_failure()->0]);
            } else {
                assert(error::failures_view(failures@) =~= Seq::<ErrorModel>::empty());
            }
            return failures;
        }
        let operation = if self.failed {
            Some(prior_conversation_writer_failure())
        } else {
            recovery_prefix_error(
                event,
                context,
                "productive recovery ended before its committed event/context prefix was replayed",
            )
        };
        let ghost first = finish_failure(self@, event, context);
        if let Some(error) = operation {
            self.failed = true;
            failures.push(error);
        }
        assert(error::failures_view(failures@) =~= crate::error::optional_failure(first));
        match cleanup {
            Ok(()) => {
                self.finished = true;
            },
            Err(error) => {
                self.failed = true;
                failures.push(error);
            },
        }
        assert(error::failures_view(failures@) =~= both_failures(first, error::failure(cleanup)));
        failures
    }

    /// Accepts that room is set aside for what is about to be asked, where the part that
    /// is replayed is through.
    pub fn reserve_productive_dispatch(
        &mut self,
        event: Result<bool, RuntimeError>,
        context: Result<bool, RuntimeError>,
        capacity: Result<(), RuntimeError>,
    ) -> (result: Result<(), RuntimeError>)
        ensures
            ({
                let left = prefix_failure(
                    event,
                    context,
                    "productive storage cannot be reserved while replaying a committed prefix"@,
                );
                &&& error::failure(result) == (if old(self)@.failed {
                    prior_failure()
                } else if old(self)@.finished {
                    error::protocol_failure("conversation event writer is already finished"@)
                } else {
                    error::first_failure(left, error::failure(capacity))
                })
                &&& final(self)@ == (WriterModel {
                    failed: old(self)@.failed || (!old(self)@.finished && left is Some),
                    ..old(self)@
                })
            }),
    {
        if self.failed {
            return Err(prior_conversation_writer_failure());
        }
        if self.finished {
            return Err(protocol("conversation event writer is already finished"));
        }
        if let Some(error) = recovery_prefix_error(
            event,
            context,
            "productive storage cannot be reserved while replaying a committed prefix",
        ) {
            self.failed = true;
            return Err(error);
        }
        capacity
    }
}

/// A writer that failed once takes nothing more: whatever is offered is refused.
pub proof fn law_failed_writer_stays_closed(
    writer: WriterModel,
    canonical: Seq<char>,
    encoded: Result<String, String>,
)
    requires
        writer.failed,
    ensures
        offer_failure(writer, canonical, encoded) == prior_failure(),
        closed_on(writer, offer_failure(writer, canonical, encoded)) == writer,
{
}

/// What is replayed is what was committed: an event is taken as replayed only where it is
/// the line that stands there, and its context where it is the line that stands there.
pub proof fn law_replay_is_exact(
    canonical: Seq<char>,
    expected: String,
    completes_message: bool,
    manifest: bool,
    line: Seq<char>,
    context: String,
)
    requires
        replay_failure(
            canonical,
            Ok(Some(expected)),
            completes_message,
            manifest,
        ) is None,
    ensures
        expected@ == canonical,
        manifest == completes_message,
        replay_context_failure(Ok(Some(context)), line) is None ==> context@ == line,
{
}

/// What is to be done next to open a writer that goes on with what was written before.
#[derive(Clone, Copy, Debug, PartialEq, Eq, Structural)]
pub enum OpeningStage {
    /// Open the events that were written.
    OpenEvents,
    /// Read the next of them.
    Events,
    /// Open the contexts that were written.
    OpenContexts,
    /// Read the next of them.
    Contexts,
    /// Everything that was written is accepted, and is replayed from its beginning.
    Opened,
}

/// A writer that is opened to go on with what was written before.
pub struct RecoveryOpening {
    pub writer: ConversationEventWriter,
    pub stage: OpeningStage,
    pub events: u64,
    pub contexts: u64,
}

/// A number that is one larger, as far as it goes.
pub open spec fn one_more(count: u64) -> u64 {
    if count == u64::MAX {
        count
    } else {
        (count + 1) as u64
    }
}

impl RecoveryOpening {
    /// A writer of which nothing that was written is looked at.
    pub fn open_for_recovery_with_run_objects(writer: ConversationEventWriter) -> (opening:
        RecoveryOpening)
        ensures
            opening == (RecoveryOpening {
                writer,
                stage: OpeningStage::OpenEvents,
                events: 0,
                contexts: 0,
            }),
    {
        RecoveryOpening { writer, stage: OpeningStage::OpenEvents, events: 0, contexts: 0 }
    }

    /// Goes on when the events or the contexts were opened.
    pub fn opened(&mut self, outcome: Result<(), RuntimeError>) -> (result: Result<
        (),
        RuntimeError,
    >)
        requires
            old(self).stage is OpenEvents || old(self).stage is OpenContexts,
        ensures
            error::failure(result) == error::failure(outcome),
            *final(self) == (if result is Err {
                *old(self)
            } else {
                RecoveryOpening {
                    stage: if old(self).stage is OpenEvents {
                        OpeningStage::Events
                    } else {
                        OpeningStage::Contexts
                    },
                    ..*old(self)
                }
            }),
    {
        outcome?;
        self.stage = match self.stage {
            OpeningStage::OpenEvents => OpeningStage::Events,
            _ => OpeningStage::Contexts,
        };
        Ok(())
    }

    /// Goes on by what reading the next line gave: whether there is one, and what is wrong
    /// with it.
    pub fn line(&mut self, read: Result<bool, RuntimeError>, accepted: Result<(), RuntimeError>) -> (result:
        Result<(), RuntimeError>)
        requires
            old(self).stage is Events || old(self).stage is Contexts,
        ensures
            error::failure(result) == (match read {
                Err(error) => Some(error@),
                Ok(there) => if there {
                    error::failure(accepted)
                } else {
                    None
                },
            }),
            *final(self) == (if result is Err {
                *old(self)
            } else if !read->Ok_0 {
                RecoveryOpening {
                    stage: if old(self).stage is Events {
                        OpeningStage::OpenContexts
                    } else {
                        OpeningStage::Opened
                    },
                    ..*old(self)
                }
            } else if old(self).stage is Events {
                RecoveryOpening { events: one_more(old(self).events), ..*old(self) }
            } else {
                RecoveryOpening { contexts: one_more(old(self).contexts), ..*old(self) }
            }),
    {
        let there = read?;
        if !there {
            self.stage = match self.stage {
                OpeningStage::Events => OpeningStage::OpenContexts,
                _ => OpeningStage::Opened,
            };
            return Ok(());
        }
        accepted?;
        match self.stage {
            OpeningStage::Events => {
                self.events = self.events.saturating_add(1);
            },
            _ => {
                self.contexts = self.contexts.saturating_add(1);
            },
        }
        Ok(())
    }
}

/// A writer counts each event once, remembers the last, and keeps what it captures in order:
/// the line of an event stands behind those before it.
pub proof fn law_writer_counts_and_captures(
    writer: WriterModel,
    sequence: u64,
    timestamp: Seq<char>,
    line: Seq<char>,
)
    requires
        writer.event_count < usize::MAX,
    ensures
        counted(writer, sequence, timestamp).event_count == writer.event_count + 1,
        counted(writer, sequence, timestamp).last_sequence == Some(sequence),
        counted(writer, sequence, timestamp).last_timestamp == Some(timestamp),
        counted(writer, sequence, timestamp).capture == writer.capture,
        writer.capture is Some ==> captured(writer, line).capture == Some(writer.capture->0 + line),
        writer.capture is None ==> captured(writer, line).capture is None,
        captured(writer, line).event_count == writer.event_count,
{
}

/// A message that is completed comes with its context manifest, and nothing else does.
pub proof fn law_messages_come_with_their_manifests(
    completes_message: bool,
    manifest: bool,
    missing: Seq<char>,
    unexpected: Seq<char>,
)
    ensures
        pairing_failure(completes_message, manifest, missing, unexpected) is None
            <==> completes_message == manifest,
{
}

/// A writer takes an event exactly where it has neither failed nor finished and the event is
/// written in its canonical form; it finishes exactly where it has not failed and nothing of
/// the recorded events or contexts is left.
pub proof fn law_writer_takes_and_finishes(
    writer: WriterModel,
    canonical: Seq<char>,
    encoded: Result<String, String>,
    event: Result<bool, RuntimeError>,
    context: Result<bool, RuntimeError>,
)
    ensures
        offer_failure(writer, canonical, encoded) is None <==> !writer.failed && !writer.finished
            && encoded is Ok && encoded->Ok_0@ == canonical,
        finish_failure(writer, event, context) is None <==> !writer.failed
            && event == Ok::<bool, RuntimeError>(false) && context == Ok::<bool, RuntimeError>(
            false,
        ),
{
}

/// A context that was recorded without its event is taken up only by a completed message that
/// has the very same context, and only where no other is left.
pub proof fn law_left_context_needs_its_message(
    further: Result<bool, RuntimeError>,
    completes_message: bool,
    line: Option<Seq<char>>,
    expected: Seq<char>,
)
    ensures
        tail_failure(further, completes_message, line, expected) is None <==> further == Ok::<
            bool,
            RuntimeError,
        >(false) && completes_message && line is Some && line->0 == expected,
{
}

} // verus!
