//! Reserving a further run of a conversation: which entry it goes on from, what is read
//! back of that entry, and which identifier the run gets.

use crate::contract::{validate_id, Checked};
use crate::contract;
use crate::error::{persisted_state, protocol, push_failure, ErrorModel, RuntimeError};
use crate::error;
use crate::history::model::ConversationEntry;
use crate::runs::attempts::{RunAttemptState, RunLogRecord};
use crate::runs::recovery::{parse_productive_recovery_records, snapshot_lines, ParsedRecord};
use crate::runs::recovery;
use crate::runs::reservation;
use crate::runs::selection::{check_selected_attempts, check_snapshot_hash, conversation_run_definition, expected_snapshot_hash, platform_event_count, selected_entry_recovery_history, SelectedRecovery};
use crate::runs::selection;
use crate::text::{append_text, join2, join3};
use vstd::prelude::*;

verus! {

/// Where reserving a further run stands.
#[derive(Clone, Copy, Debug, PartialEq, Eq, Structural)]
pub enum ContinuationStage {
    /// The directory of the conversation is opened.
    Locate,
    /// The store of the leases is looked at.
    EnsureStore,
    /// The lease of the conversation is acquired.
    AcquireConversation,
    /// The history is read, and an index of it is built.
    ReadHistory,
    /// The attempts of the selected run are read.
    InspectAttempts,
    /// The snapshot of the selected run is read.
    ReadSnapshot,
    /// The object that holds the history so far is read.
    ReadHistoryObject,
    /// The log of the selected run is read.
    ReadDefinition,
    /// The directory of the runs is opened.
    OpenRuns,
    /// It is looked whether the candidate is there.
    Look,
    /// The lease of the candidate is acquired.
    AcquireRun,
    /// It is looked once more, with the lease held.
    LookAgain,
    /// The lease of a candidate that has come to be is released.
    Vacate,
    /// The lease of a candidate is released before a failure is reported.
    Abandon,
    /// The index of the history is taken away.
    CloseHistory,
    /// The lease of the conversation is released before a failure is reported.
    ReleaseConversation,
    /// The candidate is reserved, and its leases are held.
    Reserved,
    /// What went wrong is known.
    Failed,
}

impl ContinuationStage {
    /// Whether the lease of the conversation is held.
    pub open spec fn holds_conversation(self) -> bool {
        self != ContinuationStage::Locate && self != ContinuationStage::EnsureStore && self
            != ContinuationStage::AcquireConversation && self != ContinuationStage::Failed
    }

    /// How far a stage is from the next candidate.
    pub open spec fn rank(self) -> nat {
        match self {
            ContinuationStage::Locate => 16,
            ContinuationStage::EnsureStore => 15,
            ContinuationStage::AcquireConversation => 14,
            ContinuationStage::ReadHistory => 13,
            ContinuationStage::InspectAttempts => 12,
            ContinuationStage::ReadSnapshot => 11,
            ContinuationStage::ReadHistoryObject => 10,
            ContinuationStage::ReadDefinition => 9,
            ContinuationStage::OpenRuns => 8,
            ContinuationStage::Look => 7,
            ContinuationStage::AcquireRun => 6,
            ContinuationStage::LookAgain => 5,
            ContinuationStage::Vacate => 4,
            ContinuationStage::Abandon => 4,
            ContinuationStage::CloseHistory => 3,
            ContinuationStage::ReleaseConversation => 2,
            ContinuationStage::Reserved => 0,
            ContinuationStage::Failed => 0,
        }
    }
}

/// Whether something is there under a name.
pub enum LookReply {
    Present,
    Absent,
    Failed(RuntimeError),
}

/// What a reservation has come to.
#[verifier::ext_equal]
pub struct ContinuationState {
    pub stage: ContinuationStage,
    /// The number of the candidate, counted from one on.
    pub ordinal: nat,
    /// What went wrong, in the order in which it did.
    pub failures: Seq<ErrorModel>,
}

/// What is wrong with a search that is out of candidates.
pub open spec fn exhausted(conversation_id: Seq<char>) -> ErrorModel {
    ErrorModel::Protocol("could not allocate a unique run id for conversation "@ + conversation_id)
}

impl ContinuationState {
    /// The reservation at a stage, with what went wrong on the way there.
    pub open spec fn at(
        self,
        stage: ContinuationStage,
        failure: Option<ErrorModel>,
    ) -> ContinuationState {
        ContinuationState {
            stage,
            ordinal: self.ordinal,
            failures: self.failures + error::optional_failure(failure),
        }
    }

    /// The reservation at a stage, or at closing the history where something went wrong.
    pub open spec fn step(
        self,
        stage: ContinuationStage,
        failure: Option<ErrorModel>,
    ) -> ContinuationState {
        match failure {
            None => self.at(stage, None),
            Some(_) => self.at(ContinuationStage::CloseHistory, failure),
        }
    }

    /// The reservation at its next candidate, where there is one.
    pub open spec fn next_candidate(self, maximum: u64, conversation_id: Seq<char>) -> ContinuationState {
        if self.ordinal < maximum {
            ContinuationState {
                stage: ContinuationStage::Look,
                ordinal: self.ordinal + 1,
                failures: self.failures,
            }
        } else {
            self.at(ContinuationStage::CloseHistory, Some(exhausted(conversation_id)))
        }
    }

    /// The reservation after a stage that came out as given and read nothing.
    pub open spec fn advanced(
        self,
        maximum: u64,
        conversation_id: Seq<char>,
        outcome: Option<ErrorModel>,
    ) -> ContinuationState {
        match self.stage {
            ContinuationStage::Locate => match outcome {
                None => self.at(ContinuationStage::EnsureStore, None),
                Some(_) => self.at(ContinuationStage::Failed, outcome),
            },
            ContinuationStage::EnsureStore => match outcome {
                None => self.at(ContinuationStage::AcquireConversation, None),
                Some(_) => self.at(ContinuationStage::Failed, outcome),
            },
            ContinuationStage::AcquireConversation => match outcome {
                None => self.at(ContinuationStage::ReadHistory, None),
                Some(_) => self.at(ContinuationStage::Failed, outcome),
            },
            ContinuationStage::OpenRuns => match outcome {
                None => self.next_candidate(maximum, conversation_id),
                Some(_) => self.at(ContinuationStage::CloseHistory, outcome),
            },
            ContinuationStage::AcquireRun => match outcome {
                None => self.at(ContinuationStage::LookAgain, None),
                Some(failure) => if reservation::is_active(failure) {
                    self.next_candidate(maximum, conversation_id)
                } else {
                    self.at(ContinuationStage::CloseHistory, outcome)
                },
            },
            ContinuationStage::Vacate => match outcome {
                None => self.next_candidate(maximum, conversation_id),
                Some(_) => self.at(ContinuationStage::CloseHistory, outcome),
            },
            ContinuationStage::Abandon => self.at(ContinuationStage::CloseHistory, outcome),
            ContinuationStage::CloseHistory => if outcome is None && self.failures.len() == 0 {
                self.at(ContinuationStage::Reserved, None)
            } else {
                self.at(ContinuationStage::ReleaseConversation, outcome)
            },
            ContinuationStage::ReleaseConversation => self.at(ContinuationStage::Failed, outcome),
            _ => self,
        }
    }

    /// The reservation after it was looked whether the candidate is there.
    pub open spec fn looked(
        self,
        maximum: u64,
        conversation_id: Seq<char>,
        reply: LookReply,
    ) -> ContinuationState {
        match self.stage {
            ContinuationStage::Look => match reply {
                LookReply::Present => self.next_candidate(maximum, conversation_id),
                LookReply::Absent => self.at(ContinuationStage::AcquireRun, None),
                LookReply::Failed(failure) => self.at(
                    ContinuationStage::CloseHistory,
                    Some(failure@),
                ),
            },
            ContinuationStage::LookAgain => match reply {
                LookReply::Present => self.at(ContinuationStage::Vacate, None),
                LookReply::Absent => self.at(ContinuationStage::CloseHistory, None),
                LookReply::Failed(failure) => self.at(ContinuationStage::Abandon, Some(failure@)),
            },
            _ => self,
        }
    }

    /// Whether what went wrong fits the stage.
    pub open spec fn wf(self, maximum: u64) -> bool {
        &&& self.ordinal <= maximum
        &&& match self.stage {
            ContinuationStage::Abandon => self.failures.len() == 1,
            ContinuationStage::CloseHistory => self.failures.len() <= 2,
            ContinuationStage::ReleaseConversation => 1 <= self.failures.len() <= 3,
            ContinuationStage::Failed => 1 <= self.failures.len() <= 4,
            _ => self.failures.len() == 0,
        }
        &&& match self.stage {
            ContinuationStage::Look => self.ordinal >= 1,
            ContinuationStage::AcquireRun => self.ordinal >= 1,
            ContinuationStage::LookAgain => self.ordinal >= 1,
            ContinuationStage::Vacate => self.ordinal >= 1,
            ContinuationStage::Reserved => self.ordinal >= 1,
            ContinuationStage::CloseHistory => self.failures.len() == 0 ==> self.ordinal >= 1,
            _ => true,
        }
    }
}

/// What is wrong with choosing the entry that a conversation goes on from: the one that
/// is asked for, or the latest.
pub open spec fn continuation_failure(
    conversation_id: Seq<char>,
    from_entry_id: Option<Seq<char>>,
    selected: bool,
    latest: bool,
) -> Option<ErrorModel> {
    match from_entry_id {
        Some(entry_id) => if selected {
            None
        } else {
            Some(
                ErrorModel::PersistedState(
                    "conversation "@ + conversation_id + " has no entry "@ + entry_id,
                ),
            )
        },
        None => if latest {
            None
        } else {
            Some(
                ErrorModel::PersistedState(
                    "conversation "@ + conversation_id
                        + " has no committed entry to continue"@,
                ),
            )
        },
    }
}

/// Chooses the entry that a conversation goes on from.
pub fn continuation_entry(
    conversation_id: &str,
    from_entry_id: &Option<Checked>,
    selected: Option<ConversationEntry>,
    latest: Option<ConversationEntry>,
) -> (result: Result<ConversationEntry, RuntimeError>)
    ensures
        error::failure(result) == continuation_failure(
            conversation_id@,
            selection::optional_text(*from_entry_id),
            selected is Some,
            latest is Some,
        ),
        result matches Ok(entry) ==> if from_entry_id is Some {
            selected == Some(entry)
        } else {
            latest == Some(entry)
        },
{
    match from_entry_id {
        Some(entry_id) => match selected {
            Some(entry) => Ok(entry),
            None => {
                let mut message = join3("conversation ", conversation_id, " has no entry ");
                append_text(&mut message, entry_id.text.as_str());
                Err(persisted_state(message.as_str()))
            },
        },
        None => match latest {
            Some(entry) => Ok(entry),
            None => {
                let message = join3(
                    "conversation ",
                    conversation_id,
                    " has no committed entry to continue",
                );
                Err(persisted_state(message.as_str()))
            },
        },
    }
}

/// What is wrong with the bytes of the snapshot that an entry stands for.
pub open spec fn snapshot_read_failure(
    bytes: Seq<u8>,
    parsed: Seq<ParsedRecord>,
    conversation_id: Seq<char>,
    selected: ConversationEntry,
) -> Option<ErrorModel> {
    error::first_failure(
        selection::snapshot_bytes_failure(selected, bytes),
        error::first_failure(
            recovery::framing_failure(bytes),
            error::first_failure(
                recovery::snapshot_failure(
                    recovery::split_lines(bytes.drop_last()),
                    parsed,
                    parsed.len(),
                ),
                selection::selected_failure(
                    recovery::parsed_records(parsed, parsed.len() as int),
                    conversation_id,
                    selected,
                ),
            ),
        ),
    )
}

/// What the snapshot that an entry stands for says of going on behind it; `parsed` is
/// what each of its lines is read as.
pub fn read_selected_snapshot(
    bytes: &Vec<u8>,
    parsed: Vec<ParsedRecord>,
    conversation_id: &str,
    selected: &ConversationEntry,
) -> (result: Result<SelectedRecovery, RuntimeError>)
    requires
        recovery::framing_failure(bytes@) is None ==> recovery::split_lines(
            bytes@.drop_last(),
        ).len() == parsed@.len(),
    ensures
        error::failure(result) == snapshot_read_failure(
            bytes@,
            parsed@,
            conversation_id@,
            *selected,
        ),
        result matches Ok(found) ==> selection::recovery_of(
            recovery::parsed_records(parsed@, parsed@.len() as int),
            found,
        ),
{
    check_snapshot_hash(selected, bytes.as_slice())?;
    let lines = snapshot_lines(bytes.as_slice())?;
    assert(recovery::lines_view(lines@).len() == lines@.len());
    let records = parse_productive_recovery_records(&lines, parsed)?;
    selected_entry_recovery_history(&records, conversation_id, selected)
}

/// Reserving a further run of a conversation.
pub struct Continuation {
    pub conversation_id: String,
    /// The entry that is asked for.
    pub from_entry_id: Option<Checked>,
    pub ordinal: u64,
    pub maximum: u64,
    pub stage: ContinuationStage,
    pub failures: Vec<RuntimeError>,
    /// The entry that the run goes on from.
    pub selected: Option<ConversationEntry>,
    /// What the snapshot of that entry says.
    pub recovery: Option<SelectedRecovery>,
    pub prior_event_count: usize,
    /// Whether the run of that entry was migrated.
    pub legacy_definition: bool,
}

impl Continuation {
    /// What the reservation has come to.
    pub open spec fn state(self) -> ContinuationState {
        ContinuationState {
            stage: self.stage,
            ordinal: self.ordinal as nat,
            failures: error::failures_view(self.failures@),
        }
    }

    /// Whether what is known fits the stage.
    pub open spec fn wf(self) -> bool {
        &&& self.state().wf(self.maximum)
        &&& match self.stage {
            ContinuationStage::InspectAttempts => self.selected is Some,
            ContinuationStage::ReadSnapshot => self.selected is Some,
            ContinuationStage::ReadHistoryObject => self.selected is Some && self.recovery is Some,
            ContinuationStage::ReadDefinition => self.selected is Some && self.recovery is Some,
            ContinuationStage::Reserved => self.selected is Some && self.recovery is Some,
            _ => true,
        }
        &&& self.state().ordinal >= 1 || self.stage == ContinuationStage::OpenRuns
            ==> self.selected is Some && self.recovery is Some
    }

    /// Whether only what it has come to differs.
    pub open spec fn same_reading(self, other: Continuation) -> bool {
        &&& self.same_request(other)
        &&& self.selected == other.selected
        &&& self.recovery == other.recovery
        &&& self.prior_event_count == other.prior_event_count
        &&& self.legacy_definition == other.legacy_definition
    }

    /// Whether the same was asked for.
    pub open spec fn same_request(self, other: Continuation) -> bool {
        &&& self.conversation_id == other.conversation_id
        &&& self.from_entry_id == other.from_entry_id
        &&& self.maximum == other.maximum
    }

    /// Begins to reserve a further run.
    pub fn reserve_conversation_continuation(
        conversation_id: &Checked,
        from_entry_id: Option<Checked>,
        maximum: u64,
    ) -> (result: Result<Continuation, RuntimeError>)
        ensures
            error::failure(result) == error::first_failure(
                contract::id_failure(conversation_id@, "conversation"@),
                match from_entry_id {
                    Some(entry_id) => contract::id_failure(entry_id@, "conversation entry"@),
                    None => None,
                },
            ),
            result matches Ok(continuation) ==> {
                &&& continuation.wf()
                &&& continuation.conversation_id@ == conversation_id.text@
                &&& continuation.from_entry_id == from_entry_id
                &&& continuation.maximum == maximum
                &&& continuation.state() == (ContinuationState {
                    stage: ContinuationStage::Locate,
                    ordinal: 0,
                    failures: Seq::empty(),
                })
                &&& continuation.selected is None
                &&& continuation.recovery is None
                &&& continuation.prior_event_count == 0
                &&& !continuation.legacy_definition
            },
    {
        validate_id(conversation_id, "conversation")?;
        if let Some(entry_id) = &from_entry_id {
            validate_id(entry_id, "conversation entry")?;
        }
        let failures: Vec<RuntimeError> = Vec::new();
        assert(error::failures_view(failures@) =~= Seq::<ErrorModel>::empty());
        Ok(
            Continuation {
                conversation_id: conversation_id.text.clone(),
                from_entry_id,
                ordinal: 0,
                maximum,
                stage: ContinuationStage::Locate,
                failures,
                selected: None,
                recovery: None,
                prior_event_count: 0,
                legacy_definition: false,
            },
        )
    }

    fn move_to(&mut self, stage: ContinuationStage, outcome: Result<(), RuntimeError>)
        ensures
            final(self).same_reading(*old(self)),
            final(self).state() == old(self).state().at(stage, error::failure(outcome)),
    {
        push_failure(&mut self.failures, outcome);
        self.stage = stage;
    }

    fn step(&mut self, stage: ContinuationStage, outcome: Result<(), RuntimeError>)
        ensures
            final(self).same_reading(*old(self)),
            final(self).state() == old(self).state().step(stage, error::failure(outcome)),
    {
        match outcome {
            Ok(()) => self.move_to(stage, Ok(())),
            Err(error) => self.move_to(ContinuationStage::CloseHistory, Err(error)),
        }
    }

    fn next_candidate(&mut self)
        ensures
            final(self).same_reading(*old(self)),
            final(self).state() == old(self).state().next_candidate(
                old(self).maximum,
                old(self).conversation_id@,
            ),
    {
        if self.ordinal < self.maximum {
            self.ordinal = self.ordinal + 1;
            self.stage = ContinuationStage::Look;
        } else {
            let message = join2(
                "could not allocate a unique run id for conversation ",
                self.conversation_id.as_str(),
            );
            self.move_to(ContinuationStage::CloseHistory, Err(protocol(message.as_str())));
        }
    }

    /// Goes on by what came of a stage that reads nothing.
    pub fn advance(&mut self, outcome: Result<(), RuntimeError>)
        requires
            old(self).wf(),
        ensures
            final(self).wf(),
            final(self).same_reading(*old(self)),
            final(self).state() == old(self).state().advanced(
                old(self).maximum,
                old(self).conversation_id@,
                error::failure(outcome),
            ),
    {
        let succeeded = outcome.is_ok();
        let active = match &outcome {
            Err(RuntimeError::ActiveSession(_)) => true,
            _ => false,
        };
        assert(error::failures_view(self.failures@).len() == self.failures@.len());
        match self.stage {
            ContinuationStage::Locate => if succeeded {
                self.move_to(ContinuationStage::EnsureStore, outcome)
            } else {
                self.move_to(ContinuationStage::Failed, outcome)
            },
            ContinuationStage::EnsureStore => if succeeded {
                self.move_to(ContinuationStage::AcquireConversation, outcome)
            } else {
                self.move_to(ContinuationStage::Failed, outcome)
            },
            ContinuationStage::AcquireConversation => if succeeded {
                self.move_to(ContinuationStage::ReadHistory, outcome)
            } else {
                self.move_to(ContinuationStage::Failed, outcome)
            },
            ContinuationStage::OpenRuns => if succeeded {
                self.next_candidate()
            } else {
                self.move_to(ContinuationStage::CloseHistory, outcome)
            },
            ContinuationStage::AcquireRun => if succeeded {
                self.move_to(ContinuationStage::LookAgain, outcome)
            } else if active {
                self.next_candidate()
            } else {
                self.move_to(ContinuationStage::CloseHistory, outcome)
            },
            ContinuationStage::Vacate => if succeeded {
                self.next_candidate()
            } else {
                self.move_to(ContinuationStage::CloseHistory, outcome)
            },
            ContinuationStage::Abandon => self.move_to(ContinuationStage::CloseHistory, outcome),
            ContinuationStage::CloseHistory => if succeeded && self.failures.len() == 0 {
                self.move_to(ContinuationStage::Reserved, outcome)
            } else {
                self.move_to(ContinuationStage::ReleaseConversation, outcome)
            },
            ContinuationStage::ReleaseConversation => self.move_to(
                ContinuationStage::Failed,
                outcome,
            ),
            _ => {},
        }
    }

    /// Goes on by the entries that the history holds: the one that is asked for and the
    /// latest. Without an index of the history there is none to take away.
    pub fn history_read(
        &mut self,
        found: Result<(Option<ConversationEntry>, Option<ConversationEntry>), RuntimeError>,
    )
        requires
            old(self).wf(),
            old(self).stage == ContinuationStage::ReadHistory,
        ensures
            final(self).wf(),
            final(self).same_request(*old(self)),
            final(self).state() == (match found {
                Err(failure) => old(self).state().at(
                    ContinuationStage::ReleaseConversation,
                    Some(failure@),
                ),
                Ok((selected, latest)) => old(self).state().step(
                    ContinuationStage::InspectAttempts,
                    continuation_failure(
                        old(self).conversation_id@,
                        selection::optional_text(old(self).from_entry_id),
                        selected is Some,
                        latest is Some,
                    ),
                ),
            }),
            final(self).recovery == old(self).recovery,
            final(self).prior_event_count == old(self).prior_event_count,
            final(self).legacy_definition == old(self).legacy_definition,
            final(self).stage != ContinuationStage::InspectAttempts ==> final(self).selected == old(
                self,
            ).selected,
            final(self).stage == ContinuationStage::InspectAttempts ==> final(self).selected == (
            if old(self).from_entry_id is Some {
                found->Ok_0.0
            } else {
                found->Ok_0.1
            }),
    {
        assert(error::failures_view(self.failures@).len() == self.failures@.len());
        match found {
            Err(error) => self.move_to(ContinuationStage::ReleaseConversation, Err(error)),
            Ok((selected, latest)) => {
                match continuation_entry(
                    self.conversation_id.as_str(),
                    &self.from_entry_id,
                    selected,
                    latest,
                ) {
                    Ok(entry) => {
                        self.selected = Some(entry);
                        self.step(ContinuationStage::InspectAttempts, Ok(()));
                    },
                    Err(error) => self.step(ContinuationStage::InspectAttempts, Err(error)),
                }
            },
        }
    }

    fn judge_attempts(
        selected: &ConversationEntry,
        attempts: Result<Vec<RunAttemptState>, RuntimeError>,
    ) -> (result: Result<(), RuntimeError>)
        ensures
            error::failure(result) == Continuation::attempts_failure(*selected, attempts),
    {
        let attempts = attempts?;
        check_selected_attempts(selected, &attempts)?;
        expected_snapshot_hash(selected)?;
        Ok(())
    }

    /// What is wrong with the attempts of the run that is gone on from.
    pub open spec fn attempts_failure(
        selected: ConversationEntry,
        attempts: Result<Vec<RunAttemptState>, RuntimeError>,
    ) -> Option<ErrorModel> {
        match attempts {
            Err(failure) => Some(failure@),
            Ok(attempts) => error::first_failure(
                selection::uncertain_failure(
                    "selected conversation run "@,
                    selected.run_session_id.text@,
                    selection::uncertain_count(attempts@),
                ),
                selection::snapshot_hash_failure(selected),
            ),
        }
    }

    /// Goes on by the attempts of the run that is gone on from.
    pub fn attempts_inspected(&mut self, attempts: Result<Vec<RunAttemptState>, RuntimeError>)
        requires
            old(self).wf(),
            old(self).stage == ContinuationStage::InspectAttempts,
        ensures
            final(self).wf(),
            final(self).same_reading(*old(self)),
            final(self).state() == old(self).state().step(
                ContinuationStage::ReadSnapshot,
                Continuation::attempts_failure(old(self).selected->0, attempts),
            ),
    {
        assert(error::failures_view(self.failures@).len() == self.failures@.len());
        let outcome = match &self.selected {
            Some(selected) => Self::judge_attempts(selected, attempts),
            None => Ok(()),
        };
        self.step(ContinuationStage::ReadSnapshot, outcome);
    }

    /// Goes on by the snapshot of the run that is gone on from; `parsed` is what each of
    /// its lines is read as.
    pub fn snapshot_read(
        &mut self,
        bytes: Result<Vec<u8>, RuntimeError>,
        parsed: Vec<ParsedRecord>,
    )
        requires
            old(self).wf(),
            old(self).stage == ContinuationStage::ReadSnapshot,
            bytes is Ok && recovery::framing_failure(bytes->Ok_0@) is None
                ==> recovery::split_lines(bytes->Ok_0@.drop_last()).len() == parsed@.len(),
        ensures
            final(self).wf(),
            final(self).same_request(*old(self)),
            final(self).selected == old(self).selected,
            final(self).state() == old(self).state().step(
                ContinuationStage::ReadHistoryObject,
                match bytes {
                    Err(failure) => Some(failure@),
                    Ok(bytes) => snapshot_read_failure(
                        bytes@,
                        parsed@,
                        old(self).conversation_id@,
                        old(self).selected->0,
                    ),
                },
            ),
            final(self).prior_event_count == old(self).prior_event_count,
            final(self).legacy_definition == old(self).legacy_definition,
            final(self).stage != ContinuationStage::ReadHistoryObject ==> final(self).recovery
                == old(self).recovery,
            final(self).stage == ContinuationStage::ReadHistoryObject ==> selection::recovery_of(
                recovery::parsed_records(parsed@, parsed@.len() as int),
                final(self).recovery->0,
            ),
    {
        assert(error::failures_view(self.failures@).len() == self.failures@.len());
        let outcome = match &self.selected {
            Some(selected) => match bytes {
                Ok(bytes) => read_selected_snapshot(
                    &bytes,
                    parsed,
                    self.conversation_id.as_str(),
                    selected,
                ),
                Err(error) => Err(error),
            },
            None => {
                return ;
            },
        };
        match outcome {
            Ok(found) => {
                self.recovery = Some(found);
                self.step(ContinuationStage::ReadHistoryObject, Ok(()));
            },
            Err(error) => self.step(ContinuationStage::ReadHistoryObject, Err(error)),
        }
    }

    /// Goes on by what came of reading the object that holds the history so far, and by
    /// whether its bytes are a history.
    pub fn object_read(
        &mut self,
        read: Result<(), RuntimeError>,
        history: Result<(), RuntimeError>,
    )
        requires
            old(self).wf(),
            old(self).stage == ContinuationStage::ReadHistoryObject,
        ensures
            final(self).wf(),
            final(self).same_request(*old(self)),
            final(self).selected == old(self).selected,
            final(self).recovery == old(self).recovery,
            final(self).state() == old(self).state().step(
                ContinuationStage::ReadDefinition,
                error::first_failure(
                    error::failure(read),
                    error::first_failure(
                        selection::event_count_failure(
                            old(self).recovery->0.cumulative_event_count,
                        ),
                        error::failure(history),
                    ),
                ),
            ),
            final(self).legacy_definition == old(self).legacy_definition,
            final(self).prior_event_count == old(self).prior_event_count
                || final(self).prior_event_count == old(self).recovery->0.cumulative_event_count,
            final(self).stage == ContinuationStage::ReadDefinition
                ==> final(self).prior_event_count == final(self).recovery->0.cumulative_event_count,
    {
        assert(error::failures_view(self.failures@).len() == self.failures@.len());
        let count: u64 = match &self.recovery {
            Some(recovery) => recovery.cumulative_event_count,
            None => 0,
        };
        match read {
            Err(error) => self.step(ContinuationStage::ReadDefinition, Err(error)),
            Ok(()) => match platform_event_count(count) {
                Err(error) => self.step(ContinuationStage::ReadDefinition, Err(error)),
                Ok(events) => {
                    self.prior_event_count = events;
                    self.step(ContinuationStage::ReadDefinition, history);
                },
            },
        }
    }

    /// Goes on by the log of the run that is gone on from.
    pub fn definition_read(&mut self, records: Result<Vec<RunLogRecord>, RuntimeError>)
        requires
            old(self).wf(),
            old(self).stage == ContinuationStage::ReadDefinition,
        ensures
            final(self).wf(),
            final(self).same_request(*old(self)),
            final(self).selected == old(self).selected,
            final(self).recovery == old(self).recovery,
            final(self).prior_event_count == old(self).prior_event_count,
            final(self).state() == old(self).state().step(
                ContinuationStage::OpenRuns,
                match records {
                    Err(failure) => Some(failure@),
                    Ok(records) => selection::run_definition_failure(
                        records@,
                        old(self).selected->0.run_session_id.text@,
                        old(self).selected,
                    ),
                },
            ),
            final(self).stage != ContinuationStage::OpenRuns ==> final(self).legacy_definition
                == old(self).legacy_definition,
            final(self).stage == ContinuationStage::OpenRuns ==> selection::legacy_definition(
                records->Ok_0@[0]->definition,
                old(self).selected->0.run_session_id.text@,
                old(self).selected,
            ) == Some(final(self).legacy_definition),
    {
        assert(error::failures_view(self.failures@).len() == self.failures@.len());
        let outcome = match &self.selected {
            Some(selected) => match &records {
                Ok(records) => match conversation_run_definition(
                    records,
                    selected.run_session_id.text.as_str(),
                    &self.selected,
                ) {
                    Ok(found) => Ok(found.legacy_definition),
                    Err(error) => Err(error),
                },
                Err(_) => Ok(false),
            },
            None => {
                return ;
            },
        };
        match records {
            Err(error) => self.step(ContinuationStage::OpenRuns, Err(error)),
            Ok(_) => match outcome {
                Ok(legacy) => {
                    self.legacy_definition = legacy;
                    self.step(ContinuationStage::OpenRuns, Ok(()));
                },
                Err(error) => self.step(ContinuationStage::OpenRuns, Err(error)),
            },
        }
    }

    /// Goes on by whether the candidate is there.
    pub fn looked(&mut self, reply: LookReply)
        requires
            old(self).wf(),
            old(self).stage == ContinuationStage::Look || old(self).stage
                == ContinuationStage::LookAgain,
        ensures
            final(self).wf(),
            final(self).same_reading(*old(self)),
            final(self).state() == old(self).state().looked(
                old(self).maximum,
                old(self).conversation_id@,
                reply,
            ),
    {
        assert(error::failures_view(self.failures@).len() == self.failures@.len());
        if self.stage == ContinuationStage::Look {
            match reply {
                LookReply::Present => self.next_candidate(),
                LookReply::Absent => self.move_to(ContinuationStage::AcquireRun, Ok(())),
                LookReply::Failed(error) => self.move_to(
                    ContinuationStage::CloseHistory,
                    Err(error),
                ),
            }
        } else {
            match reply {
                LookReply::Present => self.move_to(ContinuationStage::Vacate, Ok(())),
                LookReply::Absent => self.move_to(ContinuationStage::CloseHistory, Ok(())),
                LookReply::Failed(error) => self.move_to(ContinuationStage::Abandon, Err(error)),
            }
        }
    }
}

/// The way to a reserved run leads through looking for its candidate while its lease is
/// held, and through finding that it is not there: what is closed without a failure is
/// the history behind such a look, or nothing was reserved.
pub proof fn law_reserved_run_is_absent(
    state: ContinuationState,
    maximum: u64,
    conversation_id: Seq<char>,
    outcome: Option<ErrorModel>,
    reply: LookReply,
)
    requires
        state.wf(maximum),
    ensures
        state.stage != ContinuationStage::Reserved && state.advanced(
            maximum,
            conversation_id,
            outcome,
        ).stage == ContinuationStage::Reserved ==> state.stage == ContinuationStage::CloseHistory
            && state.failures.len() == 0 && outcome is None,
        ({
            let next = state.advanced(maximum, conversation_id, outcome);
            next.stage == ContinuationStage::CloseHistory && state.stage
                != ContinuationStage::CloseHistory ==> next.failures.len() > 0 || state.stage
                == ContinuationStage::LookAgain
        }),
        ({
            let next = state.looked(maximum, conversation_id, reply);
            next.stage == ContinuationStage::CloseHistory && state.stage
                != ContinuationStage::CloseHistory && next.failures.len() == 0 ==> state.stage
                == ContinuationStage::LookAgain && reply is Absent
        }),
        state.stage == ContinuationStage::LookAgain ==> state.looked(
            maximum,
            conversation_id,
            reply,
        ).ordinal == state.ordinal,
{
}

/// The lease of the conversation is gained by acquiring it alone and given up by
/// releasing it alone, and where the reservation fails it is not held.
pub proof fn law_continuation_lease(
    state: ContinuationState,
    maximum: u64,
    conversation_id: Seq<char>,
    outcome: Option<ErrorModel>,
    reply: LookReply,
)
    requires
        state.wf(maximum),
    ensures
        state.advanced(maximum, conversation_id, outcome).stage.holds_conversation() == ((
        state.stage.holds_conversation() && state.stage != ContinuationStage::ReleaseConversation)
            || (state.stage == ContinuationStage::AcquireConversation && outcome is None)),
        state.looked(maximum, conversation_id, reply).stage.holds_conversation()
            == state.stage.holds_conversation(),
        !ContinuationStage::Failed.holds_conversation(),
{
}

/// The reservation ends: every stage leads closer to the next candidate, and no candidate
/// is tried twice.
pub proof fn law_continuation_ends(
    state: ContinuationState,
    maximum: u64,
    conversation_id: Seq<char>,
    outcome: Option<ErrorModel>,
    reply: LookReply,
)
    requires
        state.wf(maximum),
        state.stage != ContinuationStage::Reserved,
        state.stage != ContinuationStage::Failed,
    ensures
        ({
            let next = if state.stage == ContinuationStage::Look || state.stage
                == ContinuationStage::LookAgain {
                state.looked(maximum, conversation_id, reply)
            } else {
                state.advanced(maximum, conversation_id, outcome)
            };
            ||| next == state && (state.stage == ContinuationStage::ReadHistory || state.stage
                == ContinuationStage::InspectAttempts || state.stage
                == ContinuationStage::ReadSnapshot || state.stage
                == ContinuationStage::ReadHistoryObject || state.stage
                == ContinuationStage::ReadDefinition)
            ||| maximum - next.ordinal < maximum - state.ordinal
            ||| next.ordinal == state.ordinal && next.stage.rank() < state.stage.rank()
        }),
        state.step(ContinuationStage::OpenRuns, outcome).stage.rank()
            <= ContinuationStage::OpenRuns.rank(),
{
}

/// A run is continued step by step: the conversation is located and taken, and once its runs
/// are open, candidates are tried one after the other. One that is there or in use is passed
/// over; one that is absent is taken, looked at again, and kept where it still is absent. What
/// was taken is given back on any failure.
pub proof fn law_course_of_a_continuation(
    state: ContinuationState,
    maximum: u64,
    conversation_id: Seq<char>,
    outcome: Option<ErrorModel>,
    reply: LookReply,
)
    requires
        state.wf(maximum),
    ensures
        ({
            let next = state.advanced(maximum, conversation_id, outcome);
            let done = outcome is None;
            &&& state.stage == ContinuationStage::Locate && done ==> next.stage
                == ContinuationStage::EnsureStore
            &&& state.stage == ContinuationStage::EnsureStore && done ==> next.stage
                == ContinuationStage::AcquireConversation
            &&& state.stage == ContinuationStage::AcquireConversation && done ==> next.stage
                == ContinuationStage::ReadHistory
            &&& (state.stage == ContinuationStage::Locate || state.stage
                == ContinuationStage::EnsureStore || state.stage
                == ContinuationStage::AcquireConversation) && !done ==> next.stage
                == ContinuationStage::Failed && next.failures == seq![outcome->0]
            &&& state.stage == ContinuationStage::AcquireRun && done ==> next.stage
                == ContinuationStage::LookAgain
            &&& state.stage == ContinuationStage::AcquireRun && !done && !(outcome->0
                is ActiveSession) ==> next.stage == ContinuationStage::CloseHistory
                && next.failures == seq![outcome->0]
            &&& {
                ||| state.stage == ContinuationStage::OpenRuns && done
                ||| state.stage == ContinuationStage::Vacate && done
                ||| state.stage == ContinuationStage::AcquireRun && !done && outcome->0
                    is ActiveSession
            } && state.ordinal < maximum ==> next.stage == ContinuationStage::Look
                && next.ordinal == state.ordinal + 1 && next.failures.len() == 0
            &&& state.stage == ContinuationStage::CloseHistory && done && state.failures.len() == 0
                ==> next.stage == ContinuationStage::Reserved && next.ordinal == state.ordinal
            &&& state.stage == ContinuationStage::ReleaseConversation ==> next.stage
                == ContinuationStage::Failed && next.failures.take(state.failures.len() as int)
                == state.failures
        }),
        ({
            let next = state.looked(maximum, conversation_id, reply);
            &&& state.stage == ContinuationStage::Look && reply is Absent ==> next.stage
                == ContinuationStage::AcquireRun && next.ordinal == state.ordinal
            &&& state.stage == ContinuationStage::Look && reply is Present && state.ordinal
                < maximum ==> next.stage == ContinuationStage::Look && next.ordinal
                == state.ordinal + 1
            &&& state.stage == ContinuationStage::LookAgain && reply is Absent ==> next.stage
                == ContinuationStage::CloseHistory && next.failures.len() == 0
            &&& state.stage == ContinuationStage::LookAgain && reply is Present ==> next.stage
                == ContinuationStage::Vacate
        }),
{
    assert(Seq::<ErrorModel>::empty() + seq![outcome->0] =~= seq![outcome->0]);
    if state.failures.len() == 0 {
        assert(state.failures =~= Seq::<ErrorModel>::empty());
    }
    let next = state.advanced(maximum, conversation_id, outcome);
    assert(state.stage == ContinuationStage::ReleaseConversation ==> next.failures.take(
        state.failures.len() as int,
    ) =~= state.failures);
}

/// A conversation is continued exactly where the entry asked for is in it, or, with none asked
/// for, where it has a latest one.
pub proof fn law_continued_entry_is_there(
    conversation_id: Seq<char>,
    from_entry_id: Option<Seq<char>>,
    selected: bool,
    latest: bool,
)
    ensures
        continuation_failure(conversation_id, from_entry_id, selected, latest) is None <==> (
        if from_entry_id is Some {
            selected
        } else {
            latest
        }),
{
}

} // verus!
