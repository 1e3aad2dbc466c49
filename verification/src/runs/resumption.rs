//! Reserving a run that was interrupted: what must hold of it before it may go on, and
//! what it goes on with.

use crate::contract::Checked;
use crate::error::{persisted_state, protocol, ErrorModel, RuntimeError};
use crate::error;
use crate::json;
use crate::runs::attempts::{RunAttemptState, RunDefinition, RunLogRecord};
use crate::runs::ownership::{with_conversation_run_ownership, ConversationRunOwnership, OwnershipStage};
use crate::runs::ownership;
use crate::runs::recovery::{ParsedRecord, ProductiveRecoveryRecord, RecoveryHeader, RootInput};
use crate::runs::selection::{conversation_run_definition, count_uncertain, read_productive_recovery_header};
use crate::runs::selection;
use crate::stream::prefix::canonical_jsonl_record;
use crate::stream::prefix;
use crate::text::{append_text, decimal_text, join2, join3, same_text};
use crate::text;
use vstd::prelude::*;

verus! {

/// What is wrong with recovering a run whose history holds an entry of it.
pub open spec fn terminal_failure(
    contains_run: Result<bool, RuntimeError>,
    run_session_id: Seq<char>,
) -> Option<ErrorModel> {
    match contains_run {
        Err(failure) => Some(failure@),
        Ok(true) => Some(ErrorModel::TerminalSession(run_session_id)),
        Ok(false) => None,
    }
}

/// What is wrong with recovering a run some of whose attempts have not ended.
pub open spec fn attempts_failure(
    attempts: Result<Vec<RunAttemptState>, RuntimeError>,
    run_session_id: Seq<char>,
) -> Option<ErrorModel> {
    match attempts {
        Err(failure) => Some(failure@),
        Ok(attempts) => {
            let uncertain = selection::uncertain_count(attempts@);
            if uncertain > 0 {
                Some(
                    ErrorModel::PersistedState(
                        "run "@ + run_session_id + " has "@ + text::decimal(uncertain)
                            + " uncertain productive attempt(s); reconcile them from external evidence before Resume"@,
                    ),
                )
            } else {
                None
            }
        },
    }
}

/// Accepts a run every attempt of which has ended.
pub fn check_recoverable(
    attempts: Result<Vec<RunAttemptState>, RuntimeError>,
    run_session_id: &str,
) -> (result: Result<(), RuntimeError>)
    ensures
        error::failure(result) == attempts_failure(attempts, run_session_id@),
{
    let attempts = attempts?;
    let uncertain: usize = count_uncertain(&attempts);
    if uncertain > 0 {
        let number = decimal_text(uncertain as u64);
        let mut message = join3("run ", run_session_id, " has ");
        append_text(&mut message, number.as_str());
        append_text(
            &mut message,
            " uncertain productive attempt(s); reconcile them from external evidence before Resume",
        );
        return Err(persisted_state(message.as_str()));
    }
    Ok(())
}

/// What is wrong with a snapshot against the definition of its run.
pub open spec fn definition_conflict(header: RecoveryHeader, definition: RunDefinition) -> Option<
    ErrorModel,
> {
    if definition.flow_definition_id.text@ != header.flow_definition_id.text@
        || definition.registry_hash@ != header.registry_hash@ || definition.flow_definition_hash@
        != header.flow_definition_hash@ {
        error::protocol_failure("productive recovery header conflicts with the run definition"@)
    } else {
        None
    }
}

/// Accepts a snapshot that fits the definition of its run.
pub fn check_recovery_definition(header: &RecoveryHeader, definition: &RunDefinition) -> (result:
    Result<(), RuntimeError>)
    ensures
        error::failure(result) == definition_conflict(*header, *definition),
{
    if !same_text(
        definition.flow_definition_id.text.as_str(),
        header.flow_definition_id.text.as_str(),
    ) || !same_text(definition.registry_hash.as_str(), header.registry_hash.as_str())
        || !same_text(
        definition.flow_definition_hash.as_str(),
        header.flow_definition_hash.as_str(),
    ) {
        return Err(protocol("productive recovery header conflicts with the run definition"));
    }
    Ok(())
}

/// What a recovered run goes on with.
pub struct RecoveryReservation {
    pub event_clock_base_unix_seconds: i64,
    pub prior_event_count: usize,
    /// What the run was given, in its canonical form.
    pub root_input: Option<String>,
}

impl RecoveryReservation {
    /// Whether this is what the header of a snapshot says that its run goes on with.
    pub open spec fn is_of(self, header: RecoveryHeader) -> bool {
        &&& self.event_clock_base_unix_seconds == header.event_clock_base_unix_seconds
        &&& self.prior_event_count == header.prior_event_count
        &&& text::optional_view(self.root_input) == (match header.root_input {
            RootInput::Null => None,
            RootInput::Value { canonical, .. } => Some(canonical@),
        })
    }
}

/// What is wrong with what a header says a run goes on with.
pub open spec fn reservation_failure(header: RecoveryHeader) -> Option<ErrorModel> {
    if header.prior_event_count > usize::MAX {
        error::protocol_failure("prior conversation event count exceeds this platform"@)
    } else {
        match header.root_input {
            RootInput::Value { fault: Some(words), .. } => error::protocol_failure(
                "productive recovery root input is invalid: "@ + words@,
            ),
            _ => None,
        }
    }
}

/// What a recovered run goes on with, by the header of its snapshot.
pub fn recovery_reservation(header: &RecoveryHeader) -> (result: Result<
    RecoveryReservation,
    RuntimeError,
>)
    ensures
        error::failure(result) == reservation_failure(*header),
        result matches Ok(reservation) ==> reservation.is_of(*header),
{
    if header.prior_event_count > usize::MAX as u64 {
        return Err(protocol("prior conversation event count exceeds this platform"));
    }
    let root_input = match &header.root_input {
        RootInput::Null => None,
        RootInput::Value { canonical, fault } => match fault {
            Some(words) => {
                let message = join2("productive recovery root input is invalid: ", words.as_str());
                return Err(protocol(message.as_str()));
            },
            None => Some(canonical.clone()),
        },
    };
    Ok(
        RecoveryReservation {
            event_clock_base_unix_seconds: header.event_clock_base_unix_seconds,
            prior_event_count: header.prior_event_count as usize,
            root_input,
        },
    )
}

/// The steps before a run is recovered, in order. All of them are made with both
/// leases held.
#[derive(Clone, Copy, Debug, PartialEq, Eq, Structural)]
pub enum RecoveryStep {
    SearchHistory,
    InspectAttempts,
    ReadEvents,
    ReadContexts,
    ReadHeader,
    ReadDefinition,
    ReadHistoryObject,
    Finished,
}

impl RecoveryStep {
    /// How many steps come before this one.
    pub open spec fn place(self) -> nat {
        match self {
            RecoveryStep::SearchHistory => 0,
            RecoveryStep::InspectAttempts => 1,
            RecoveryStep::ReadEvents => 2,
            RecoveryStep::ReadContexts => 3,
            RecoveryStep::ReadHeader => 4,
            RecoveryStep::ReadDefinition => 5,
            RecoveryStep::ReadHistoryObject => 6,
            RecoveryStep::Finished => 7,
        }
    }

    /// The step after this one.
    pub open spec fn behind(self) -> RecoveryStep {
        match self {
            RecoveryStep::SearchHistory => RecoveryStep::InspectAttempts,
            RecoveryStep::InspectAttempts => RecoveryStep::ReadEvents,
            RecoveryStep::ReadEvents => RecoveryStep::ReadContexts,
            RecoveryStep::ReadContexts => RecoveryStep::ReadHeader,
            RecoveryStep::ReadHeader => RecoveryStep::ReadDefinition,
            RecoveryStep::ReadDefinition => RecoveryStep::ReadHistoryObject,
            RecoveryStep::ReadHistoryObject => RecoveryStep::Finished,
            RecoveryStep::Finished => RecoveryStep::Finished,
        }
    }
}

/// A line of the events of a run.
pub enum EventLine {
    /// A line, and whether it follows on the lines before it.
    Line(Result<(), RuntimeError>),
    /// There is no further line.
    End,
    Failed(RuntimeError),
}

/// A line of the contexts of a run.
pub enum ContextLine {
    /// A line, and the canonical form of the record on it.
    Line(String, Result<String, String>),
    /// There is no further line.
    End,
    Failed(RuntimeError),
}

/// Reserving a run that was interrupted.
pub struct RunRecovery {
    pub conversation_id: String,
    pub run_session_id: String,
    pub ownership: ConversationRunOwnership,
    pub step: RecoveryStep,
    /// The header of the run's snapshot.
    pub header: Option<RecoveryHeader>,
    /// What the run goes on with.
    pub reservation: Option<RecoveryReservation>,
}

impl RunRecovery {
    /// Whether what is known fits how far the recovery has come.
    pub open spec fn wf(self) -> bool {
        &&& self.ownership.keep
        &&& match self.ownership.stage {
            OwnershipStage::Operating => self.step != RecoveryStep::Finished
                && self.ownership.failures@.len() == 0,
            OwnershipStage::Kept => self.step == RecoveryStep::Finished
                && self.ownership.failures@.len() == 0,
            OwnershipStage::ReleaseRun => true,
            OwnershipStage::ReleaseConversation => true,
            OwnershipStage::Released => true,
            _ => self.step == RecoveryStep::SearchHistory && self.ownership.failures@.len() == 0,
        }
        &&& self.step.place() > RecoveryStep::ReadHeader.place() ==> self.header is Some
            && selection::addressed_failure(
            self.header->0,
            self.conversation_id@,
            self.run_session_id@,
        ) is None
        &&& self.step == RecoveryStep::Finished ==> self.reservation is Some
            && self.reservation->0.is_of(self.header->0)
    }

    /// Whether the run is reserved: every step was made, and both leases are held.
    pub open spec fn reserved(self) -> bool {
        self.ownership.stage == OwnershipStage::Kept
    }

    /// Whether a step is being made.
    pub open spec fn makes(self, step: RecoveryStep) -> bool {
        self.wf() && self.ownership.stage == OwnershipStage::Operating && self.step == step
    }

    /// Whether the recovery came from one step to another, or to giving the leases back
    /// where something went wrong.
    pub open spec fn moved(
        self,
        next: RecoveryStep,
        failure: Option<ErrorModel>,
        after: RunRecovery,
    ) -> bool {
        &&& after.wf()
        &&& after.conversation_id == self.conversation_id
        &&& after.run_session_id == self.run_session_id
        &&& failure is Some || next != RecoveryStep::ReadDefinition ==> after.header == self.header
        &&& failure is Some || next != RecoveryStep::Finished ==> after.reservation
            == self.reservation
        &&& error::failures_view(after.ownership.failures@) == error::failures_view(
            self.ownership.failures@,
        ) + error::optional_failure(failure)
        &&& match failure {
            Some(_) => after.step == self.step && after.ownership.stage
                == OwnershipStage::ReleaseRun,
            None => after.step == next && after.ownership.stage == (if next
                == RecoveryStep::Finished {
                OwnershipStage::Kept
            } else {
                OwnershipStage::Operating
            }),
        }
    }

    /// Begins to recover a run.
    pub fn reserve_conversation_run_recovery(
        conversation_id: &Checked,
        run_session_id: &Checked,
    ) -> (result: Result<RunRecovery, RuntimeError>)
        ensures
            error::failure(result) == ownership::run_ids_failure(
                *conversation_id,
                *run_session_id,
            ),
            result matches Ok(recovery) ==> {
                &&& recovery.wf()
                &&& recovery.conversation_id@ == conversation_id.text@
                &&& recovery.run_session_id@ == run_session_id.text@
                &&& recovery.ownership.stage == OwnershipStage::Locate
                &&& recovery.step == RecoveryStep::SearchHistory
                &&& recovery.header is None
                &&& recovery.reservation is None
            },
    {
        let ownership = with_conversation_run_ownership(conversation_id, run_session_id, true)?;
        Ok(
            RunRecovery {
                conversation_id: conversation_id.text.clone(),
                run_session_id: run_session_id.text.clone(),
                ownership,
                step: RecoveryStep::SearchHistory,
                header: None,
                reservation: None,
            },
        )
    }

    /// Goes on by what came of opening the run, of acquiring a lease or of releasing one;
    /// what is reserved begins to be released.
    pub fn hold(&mut self, outcome: Result<(), RuntimeError>)
        requires
            old(self).wf(),
            old(self).ownership.stage != OwnershipStage::Operating,
        ensures
            final(self).wf(),
            final(self).conversation_id == old(self).conversation_id,
            final(self).run_session_id == old(self).run_session_id,
            final(self).step == old(self).step,
            final(self).header == old(self).header,
            final(self).reservation == old(self).reservation,
            final(self).ownership.stage == old(self).ownership.stage.next(true, outcome is Ok),
            error::failures_view(final(self).ownership.failures@) == error::failures_view(
                old(self).ownership.failures@,
            ) + error::optional_failure(error::failure(outcome)),
    {
        self.ownership.advance(outcome);
    }

    fn settle(&mut self, next: RecoveryStep, outcome: Result<(), RuntimeError>)
        requires
            old(self).makes(old(self).step),
            next.place() > RecoveryStep::ReadHeader.place() && outcome is Ok ==> old(
                self,
            ).header is Some && selection::addressed_failure(
                old(self).header->0,
                old(self).conversation_id@,
                old(self).run_session_id@,
            ) is None,
            next == RecoveryStep::Finished && outcome is Ok ==> old(self).reservation is Some
                && old(self).reservation->0.is_of(old(self).header->0),
        ensures
            old(self).moved(next, error::failure(outcome), *final(self)),
            final(self).header == old(self).header,
            final(self).reservation == old(self).reservation,
    {
        let succeeded = outcome.is_ok();
        if !succeeded {
            self.ownership.advance(outcome);
        } else {
            self.step = next;
            if next == RecoveryStep::Finished {
                self.ownership.advance(outcome);
            }
        }
        assert(error::failures_view(self.ownership.failures@) =~= error::failures_view(
            old(self).ownership.failures@,
        ) + error::optional_failure(error::failure(outcome)));
    }

    /// Goes on by whether the history holds an entry of the run.
    pub fn history_searched(&mut self, contains_run: Result<bool, RuntimeError>)
        requires
            old(self).makes(RecoveryStep::SearchHistory),
        ensures
            old(self).moved(
                RecoveryStep::InspectAttempts,
                terminal_failure(contains_run, old(self).run_session_id@),
                *final(self),
            ),
    {
        let outcome = match contains_run {
            Err(error) => Err(error),
            Ok(true) => Err(RuntimeError::TerminalSession(self.run_session_id.clone())),
            Ok(false) => Ok(()),
        };
        self.settle(RecoveryStep::InspectAttempts, outcome);
    }

    /// Goes on by the attempts of the run.
    pub fn attempts_inspected(&mut self, attempts: Result<Vec<RunAttemptState>, RuntimeError>)
        requires
            old(self).makes(RecoveryStep::InspectAttempts),
        ensures
            old(self).moved(
                RecoveryStep::ReadEvents,
                attempts_failure(attempts, old(self).run_session_id@),
                *final(self),
            ),
    {
        let outcome = check_recoverable(attempts, self.run_session_id.as_str());
        self.settle(RecoveryStep::ReadEvents, outcome);
    }

    /// Goes on by a line of the run's events.
    pub fn event_line(&mut self, line: EventLine)
        requires
            old(self).makes(RecoveryStep::ReadEvents),
        ensures
            old(self).moved(
                match line {
                    EventLine::End => RecoveryStep::ReadContexts,
                    _ => RecoveryStep::ReadEvents,
                },
                match line {
                    EventLine::Line(verdict) => error::failure(verdict),
                    EventLine::End => None,
                    EventLine::Failed(failure) => Some(failure@),
                },
                *final(self),
            ),
    {
        match line {
            EventLine::Line(verdict) => self.settle(RecoveryStep::ReadEvents, verdict),
            EventLine::End => self.settle(RecoveryStep::ReadContexts, Ok(())),
            EventLine::Failed(error) => self.settle(RecoveryStep::ReadEvents, Err(error)),
        }
    }

    /// Goes on by a line of the run's contexts.
    pub fn context_line(&mut self, line: ContextLine)
        requires
            old(self).makes(RecoveryStep::ReadContexts),
        ensures
            old(self).moved(
                match line {
                    ContextLine::End => RecoveryStep::ReadHeader,
                    _ => RecoveryStep::ReadContexts,
                },
                match line {
                    ContextLine::Line(text, canonical) => prefix::prefix_record_failure(
                        text@,
                        json::json_text_error(text@),
                        json::canonical_view(canonical),
                        "context"@,
                    ),
                    ContextLine::End => None,
                    ContextLine::Failed(failure) => Some(failure@),
                },
                *final(self),
            ),
    {
        match line {
            ContextLine::Line(text, canonical) => {
                let outcome = match canonical_jsonl_record(text.as_str(), &canonical, "context") {
                    Ok(_) => Ok(()),
                    Err(error) => Err(error),
                };
                self.settle(RecoveryStep::ReadContexts, outcome);
            },
            ContextLine::End => self.settle(RecoveryStep::ReadHeader, Ok(())),
            ContextLine::Failed(error) => self.settle(RecoveryStep::ReadContexts, Err(error)),
        }
    }

    /// Goes on by the first line of the run's snapshot; `parsed` is what it is read as.
    pub fn header_read(&mut self, raw: Result<Option<Vec<u8>>, RuntimeError>, parsed: ParsedRecord)
        requires
            old(self).makes(RecoveryStep::ReadHeader),
        ensures
            old(self).moved(
                RecoveryStep::ReadDefinition,
                match raw {
                    Err(failure) => Some(failure@),
                    Ok(raw) => selection::first_line_failure(
                        selection::raw_view(raw),
                        parsed,
                        old(self).conversation_id@,
                        old(self).run_session_id@,
                    ),
                },
                *final(self),
            ),
            final(self).step == RecoveryStep::ReadDefinition ==> parsed.record == Ok::<
                ProductiveRecoveryRecord,
                String,
            >(ProductiveRecoveryRecord::Header(final(self).header->0)),
    {
        match raw {
            Err(error) => self.settle(RecoveryStep::ReadDefinition, Err(error)),
            Ok(raw) => match read_productive_recovery_header(
                &raw,
                parsed,
                self.conversation_id.as_str(),
                self.run_session_id.as_str(),
            ) {
                Ok(header) => {
                    self.header = Some(header);
                    self.settle(RecoveryStep::ReadDefinition, Ok(()));
                },
                Err(error) => self.settle(RecoveryStep::ReadDefinition, Err(error)),
            },
        }
    }

    fn judge_definition(
        header: &RecoveryHeader,
        records: &Vec<RunLogRecord>,
        run_session_id: &str,
    ) -> (result: Result<(), RuntimeError>)
        ensures
            error::failure(result) == RunRecovery::definition_failure(
                *header,
                records@,
                run_session_id@,
            ),
    {
        let found = conversation_run_definition(records, run_session_id, &None)?;
        check_recovery_definition(header, found.definition)
    }

    /// What is wrong with the log of a run that no entry stands for, against the header of
    /// its snapshot.
    pub open spec fn definition_failure(
        header: RecoveryHeader,
        records: Seq<RunLogRecord>,
        run_session_id: Seq<char>,
    ) -> Option<ErrorModel> {
        error::first_failure(
            selection::run_definition_failure(records, run_session_id, None),
            definition_conflict(header, records[0]->definition),
        )
    }

    /// Goes on by the log of the run.
    pub fn definition_read(&mut self, records: Result<Vec<RunLogRecord>, RuntimeError>)
        requires
            old(self).makes(RecoveryStep::ReadDefinition),
        ensures
            old(self).moved(
                RecoveryStep::ReadHistoryObject,
                match records {
                    Err(failure) => Some(failure@),
                    Ok(records) => RunRecovery::definition_failure(
                        old(self).header->0,
                        records@,
                        old(self).run_session_id@,
                    ),
                },
                *final(self),
            ),
            final(self).header == old(self).header,
    {
        let outcome = match records {
            Err(error) => Err(error),
            Ok(records) => match &self.header {
                Some(header) => Self::judge_definition(
                    header,
                    &records,
                    self.run_session_id.as_str(),
                ),
                None => Ok(()),
            },
        };
        self.settle(RecoveryStep::ReadHistoryObject, outcome);
    }

    /// Goes on by what came of reading the object that holds the history so far as a
    /// history: the last step before the run is reserved.
    pub fn history_object_read(&mut self, read: Result<(), RuntimeError>)
        requires
            old(self).makes(RecoveryStep::ReadHistoryObject),
        ensures
            old(self).moved(
                RecoveryStep::Finished,
                error::first_failure(
                    error::failure(read),
                    reservation_failure(old(self).header->0),
                ),
                *final(self),
            ),
            final(self).header == old(self).header,
            final(self).reserved() ==> final(self).reservation->0.is_of(final(self).header->0),
    {
        match read {
            Err(error) => self.settle(RecoveryStep::Finished, Err(error)),
            Ok(()) => {
                let outcome = match &self.header {
                    Some(header) => recovery_reservation(header),
                    None => {
                        return ;
                    },
                };
                match outcome {
                    Ok(reservation) => {
                        self.reservation = Some(reservation);
                        self.settle(RecoveryStep::Finished, Ok(()));
                    },
                    Err(error) => self.settle(RecoveryStep::Finished, Err(error)),
                }
            },
        }
    }
}

/// A run is reserved only by its last step, and each step comes directly behind the one
/// before it: none is left out. Whatever fails, the leases begin to be given back.
pub proof fn law_recovery_leaves_no_step_out(
    before: RunRecovery,
    failure: Option<ErrorModel>,
    after: RunRecovery,
)
    requires
        before.wf(),
        before.ownership.stage == OwnershipStage::Operating,
        before.moved(before.step.behind(), failure, after),
    ensures
        failure is None ==> after.step.place() == before.step.place() + 1,
        after.reserved() <==> failure is None && before.step == RecoveryStep::ReadHistoryObject,
        after.reserved() ==> after.ownership.stage.holds_run()
            && after.ownership.stage.holds_conversation() && after.reservation->0.is_of(
            after.header->0,
        ),
        failure is Some ==> after.ownership.stage == OwnershipStage::ReleaseRun,
{
}

/// A run is taken up again step by step, none left out: it must not have ended in the history,
/// none of its attempts may be uncertain, and its events, its contexts, its header, its
/// definition and the history before it are read in this order.
pub proof fn law_course_of_a_resumption(
    contains_run: Result<bool, RuntimeError>,
    attempts: Result<Vec<RunAttemptState>, RuntimeError>,
    run_session_id: Seq<char>,
)
    ensures
        RecoveryStep::SearchHistory.behind() is InspectAttempts,
        RecoveryStep::InspectAttempts.behind() is ReadEvents,
        RecoveryStep::ReadEvents.behind() is ReadContexts,
        RecoveryStep::ReadContexts.behind() is ReadHeader,
        RecoveryStep::ReadHeader.behind() is ReadDefinition,
        RecoveryStep::ReadDefinition.behind() is ReadHistoryObject,
        RecoveryStep::ReadHistoryObject.behind() is Finished,
        terminal_failure(contains_run, run_session_id) is None <==> contains_run == Ok::<
            bool,
            RuntimeError,
        >(false),
        attempts_failure(attempts, run_session_id) is None <==> attempts is Ok
            && selection::uncertain_count(attempts->Ok_0@) == 0,
{
}

/// A header is that of a run exactly where the flow and both hashes are those of the run's
/// definition.
pub proof fn law_header_is_of_the_definition(header: RecoveryHeader, definition: RunDefinition)
    ensures
        definition_conflict(header, definition) is None <==> {
            &&& definition.flow_definition_id.text@ == header.flow_definition_id.text@
            &&& definition.registry_hash@ == header.registry_hash@
            &&& definition.flow_definition_hash@ == header.flow_definition_hash@
        },
{
}

} // verus!
