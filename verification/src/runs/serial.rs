//! Writing events one after the other: what is answered to each event of a batch, and
//! what a failure leaves for the events behind it.

use crate::error::{protocol, ErrorModel, RuntimeError};
use crate::error;
use crate::runs::writer::AppendFailure;
use vstd::prelude::*;

verus! {

/// What is answered to an event.
pub enum EventOutcome {
    Appended,
    /// It was appended, and something went wrong all the same.
    AppendedThenFailed(RuntimeError),
    Failed(RuntimeError),
    /// It was not written because another failed before it.
    Discarded,
}

/// What is answered to an event, by its contents.
pub enum OutcomeModel {
    Appended,
    AppendedThenFailed(ErrorModel),
    Failed(ErrorModel),
    Discarded,
}

impl View for EventOutcome {
    type V = OutcomeModel;

    open spec fn view(&self) -> OutcomeModel {
        match *self {
            EventOutcome::Appended => OutcomeModel::Appended,
            EventOutcome::AppendedThenFailed(error) => OutcomeModel::AppendedThenFailed(error@),
            EventOutcome::Failed(error) => OutcomeModel::Failed(error@),
            EventOutcome::Discarded => OutcomeModel::Discarded,
        }
    }
}

/// Answers by their contents.
pub open spec fn outcomes_view(outcomes: Seq<EventOutcome>) -> Seq<OutcomeModel> {
    outcomes.map_values(|outcome: EventOutcome| outcome@)
}

/// The state of writing.
pub struct ConversationWriterBackend {
    /// What went wrong and has not been reported.
    pub pending_error: Option<RuntimeError>,
    pub stopped: bool,
    /// Whether something was written that is not durable yet.
    pub dirty: bool,
}

/// The state of writing, by its contents.
pub struct BackendModel {
    pub pending_error: Option<ErrorModel>,
    pub stopped: bool,
    pub dirty: bool,
}

/// An optional error by its contents.
pub open spec fn pending_view(error: Option<RuntimeError>) -> Option<ErrorModel> {
    match error {
        Some(error) => Some(error@),
        None => None,
    }
}

impl View for ConversationWriterBackend {
    type V = BackendModel;

    open spec fn view(&self) -> BackendModel {
        BackendModel {
            pending_error: pending_view(self.pending_error),
            stopped: self.stopped,
            dirty: self.dirty,
        }
    }
}

/// The answers to events that are all rejected: the first gets the error.
pub open spec fn rejected(count: nat, error: ErrorModel) -> Seq<OutcomeModel> {
    Seq::new(
        count,
        |k: int|
            if k == 0 {
                OutcomeModel::Failed(error)
            } else {
                OutcomeModel::Discarded
            },
    )
}

/// The answers to events that were all appended.
pub open spec fn appended(count: nat) -> Seq<OutcomeModel> {
    Seq::new(count, |k: int| OutcomeModel::Appended)
}

/// What a batch comes to.
pub struct BatchModel {
    pub outcomes: Seq<OutcomeModel>,
    pub after: BackendModel,
}

/// What a batch comes to of which appending failed.
pub open spec fn failed_batch(
    before: BackendModel,
    count: nat,
    error: ErrorModel,
    committed: Option<usize>,
) -> BatchModel {
    match committed {
        None => BatchModel {
            outcomes: rejected(count, error),
            after: BackendModel { stopped: true, ..before },
        },
        Some(committed) => if committed > count {
            BatchModel {
                outcomes: rejected(
                    count,
                    ErrorModel::Protocol(
                        "conversation appender reported an invalid committed prefix"@,
                    ),
                ),
                after: BackendModel { stopped: true, ..before },
            }
        } else {
            BatchModel {
                outcomes: appended(committed as nat) + rejected(
                    (count - committed) as nat,
                    error,
                ),
                after: BackendModel {
                    pending_error: if committed == count {
                        Some(error)
                    } else {
                        None
                    },
                    stopped: true,
                    dirty: before.dirty || committed > 0,
                },
            }
        },
    }
}

/// What a batch comes to.
pub open spec fn batch(
    before: BackendModel,
    count: nat,
    validated: Option<ErrorModel>,
    append: Result<(), AppendFailure>,
) -> BatchModel {
    if count == 0 {
        BatchModel { outcomes: Seq::empty(), after: before }
    } else if before.pending_error is Some {
        BatchModel {
            outcomes: rejected(count, before.pending_error->0),
            after: BackendModel { pending_error: None, stopped: true, ..before },
        }
    } else if validated is Some {
        BatchModel {
            outcomes: rejected(count, validated->0),
            after: BackendModel { stopped: true, ..before },
        }
    } else {
        match append {
            Ok(_) => BatchModel {
                outcomes: appended(count),
                after: BackendModel { dirty: true, ..before },
            },
            Err(failure) => failed_batch(before, count, failure.error@, failure.committed_events),
        }
    }
}

/// What one event comes to that is checked, appended and made durable.
pub open spec fn semantic(
    validated: Option<ErrorModel>,
    pairing: Option<ErrorModel>,
    contexts: Option<ErrorModel>,
    append: Result<(), AppendFailure>,
    checkpoint: bool,
    synced: Option<ErrorModel>,
) -> OutcomeModel {
    if validated is Some {
        OutcomeModel::Failed(validated->0)
    } else if pairing is Some {
        OutcomeModel::Failed(pairing->0)
    } else if contexts is Some {
        OutcomeModel::Failed(contexts->0)
    } else {
        match append {
            Err(failure) => if failure.committed_events == Some(1usize) {
                OutcomeModel::AppendedThenFailed(failure.error@)
            } else {
                OutcomeModel::Failed(failure.error@)
            },
            Ok(_) => if checkpoint && synced is Some {
                OutcomeModel::AppendedThenFailed(synced->0)
            } else {
                OutcomeModel::Appended
            },
        }
    }
}

/// The state behind one event.
pub open spec fn behind_event(before: BackendModel, outcome: OutcomeModel, checkpoint: bool) -> BackendModel {
    BackendModel {
        stopped: before.stopped || outcome !is Appended,
        dirty: if outcome is Appended || outcome is AppendedThenFailed {
            !checkpoint
        } else {
            before.dirty
        },
        ..before
    }
}

fn reject_into(outcomes: &mut Vec<EventOutcome>, count: usize, error: RuntimeError)
    ensures
        outcomes_view(final(outcomes)@) == outcomes_view(old(outcomes)@) + rejected(
            count as nat,
            error@,
        ),
{
    let ghost before = outcomes_view(outcomes@);
    let ghost model = error@;
    if count == 0 {
        assert(outcomes_view(outcomes@) =~= before + rejected(0, model));
        return ;
    }
    outcomes.push(EventOutcome::Failed(error));
    assert(outcomes_view(outcomes@) =~= before + rejected(1, model));
    let mut done: usize = 1;
    while done < count
        invariant
            1 <= done <= count,
            outcomes_view(outcomes@) == before + rejected(done as nat, model),
        decreases count - done,
    {
        let ghost prior = outcomes_view(outcomes@);
        outcomes.push(EventOutcome::Discarded);
        done = done + 1;
        assert(outcomes_view(outcomes@) =~= prior.push(OutcomeModel::Discarded));
        assert(outcomes_view(outcomes@) =~= before + rejected(done as nat, model));
    }
}

fn append_into(outcomes: &mut Vec<EventOutcome>, count: usize)
    ensures
        outcomes_view(final(outcomes)@) == outcomes_view(old(outcomes)@) + appended(count as nat),
{
    let ghost before = outcomes_view(outcomes@);
    let mut done: usize = 0;
    assert(outcomes_view(outcomes@) =~= before + appended(0));
    while done < count
        invariant
            done <= count,
            outcomes_view(outcomes@) == before + appended(done as nat),
        decreases count - done,
    {
        let ghost prior = outcomes_view(outcomes@);
        outcomes.push(EventOutcome::Appended);
        done = done + 1;
        assert(outcomes_view(outcomes@) =~= prior.push(OutcomeModel::Appended));
        assert(outcomes_view(outcomes@) =~= before + appended(done as nat));
    }
}

impl ConversationWriterBackend {
    /// A writer that has written nothing.
    pub fn start() -> (backend: ConversationWriterBackend)
        ensures
            backend@ == (BackendModel { pending_error: None, stopped: false, dirty: false }),
    {
        ConversationWriterBackend { pending_error: None, stopped: false, dirty: false }
    }

    /// Whether events are taken in batches.
    pub fn can_batch(&self) -> (can: bool)
        ensures
            can == !self@.stopped,
    {
        !self.stopped
    }

    /// Whether something went wrong that the next event is told.
    pub fn has_pending_error(&self) -> (has: bool)
        ensures
            has == (self@.pending_error is Some),
    {
        self.pending_error.is_some()
    }

    /// Answers the events of a batch, given whether they are sound and what came of
    /// appending them. Neither has a bearing where an error is pending, and the latter
    /// none where they are not sound.
    pub fn commit_batch(
        &mut self,
        count: usize,
        validated: Result<(), RuntimeError>,
        append: Result<(), AppendFailure>,
    ) -> (outcomes: Vec<EventOutcome>)
        ensures
            ({
                let model = batch(old(self)@, count as nat, error::failure(validated), append);
                &&& outcomes_view(outcomes@) == model.outcomes
                &&& final(self)@ == model.after
            }),
    {
        let mut outcomes: Vec<EventOutcome> = Vec::new();
        let ghost empty = outcomes_view(outcomes@);
        assert(empty =~= Seq::<OutcomeModel>::empty());
        if count == 0 {
            return outcomes;
        }
        if let Some(error) = self.pending_error.take() {
            let ghost model = error@;
            reject_into(&mut outcomes, count, error);
            assert(outcomes_view(outcomes@) =~= rejected(count as nat, model));
            self.stopped = true;
            return outcomes;
        }
        if let Err(error) = validated {
            let ghost model = error@;
            reject_into(&mut outcomes, count, error);
            assert(outcomes_view(outcomes@) =~= rejected(count as nat, model));
            self.stopped = true;
            return outcomes;
        }
        match append {
            Ok(()) => {
                self.dirty = true;
                append_into(&mut outcomes, count);
                assert(outcomes_view(outcomes@) =~= appended(count as nat));
            },
            Err(failure) => {
                let ghost model = failure.error@;
                self.stopped = true;
                match failure.committed_events {
                    None => {
                        reject_into(&mut outcomes, count, failure.error);
                        assert(outcomes_view(outcomes@) =~= rejected(count as nat, model));
                    },
                    Some(committed) => {
                        if committed > count {
                            let invalid = protocol(
                                "conversation appender reported an invalid committed prefix",
                            );
                            let ghost other = invalid@;
                            reject_into(&mut outcomes, count, invalid);
                            assert(outcomes_view(outcomes@) =~= rejected(count as nat, other));
                        } else {
                            if committed > 0 {
                                self.dirty = true;
                            }
                            append_into(&mut outcomes, committed);
                            assert(outcomes_view(outcomes@) =~= appended(committed as nat));
                            if committed == count {
                                self.pending_error = Some(failure.error);
                                assert(outcomes_view(outcomes@) =~= appended(committed as nat)
                                    + rejected(0, model));
                            } else {
                                reject_into(&mut outcomes, count - committed, failure.error);
                            }
                        }
                    },
                }
            },
        }
        outcomes
    }

    /// Answers one event, given what came of each step that was reached: checking it,
    /// storing its context, appending it, and making it durable where it is a
    /// checkpoint.
    pub fn commit(
        &mut self,
        validated: Result<(), RuntimeError>,
        pairing: Result<(), RuntimeError>,
        contexts: Result<(), RuntimeError>,
        append: Result<(), AppendFailure>,
        checkpoint: bool,
        synced: Result<(), RuntimeError>,
    ) -> (outcome: EventOutcome)
        ensures
            old(self)@.stopped ==> outcome@ is Discarded && final(self)@ == old(self)@,
            !old(self)@.stopped && old(self)@.pending_error is Some ==> {
                &&& outcome@ == OutcomeModel::Failed(old(self)@.pending_error->0)
                &&& final(self)@ == (BackendModel {
                    pending_error: None,
                    stopped: true,
                    ..old(self)@
                })
            },
            !old(self)@.stopped && old(self)@.pending_error is None ==> {
                &&& outcome@ == semantic(
                    error::failure(validated),
                    error::failure(pairing),
                    error::failure(contexts),
                    append,
                    checkpoint,
                    error::failure(synced),
                )
                &&& final(self)@ == behind_event(old(self)@, outcome@, checkpoint)
            },
    {
        if self.stopped {
            return EventOutcome::Discarded;
        }
        if let Some(error) = self.pending_error.take() {
            self.stopped = true;
            return EventOutcome::Failed(error);
        }
        if let Err(error) = validated {
            self.stopped = true;
            return EventOutcome::Failed(error);
        }
        if let Err(error) = pairing {
            self.stopped = true;
            return EventOutcome::Failed(error);
        }
        if let Err(error) = contexts {
            self.stopped = true;
            return EventOutcome::Failed(error);
        }
        let append_error = match append {
            Ok(()) => None,
            Err(failure) => {
                let committed = match failure.committed_events {
                    Some(count) => count == 1,
                    None => false,
                };
                if !committed {
                    self.stopped = true;
                    return EventOutcome::Failed(failure.error);
                }
                Some(failure.error)
            },
        };
        self.dirty = !checkpoint;
        let error = match append_error {
            Some(error) => Some(error),
            None => {
                if checkpoint {
                    match synced {
                        Ok(()) => None,
                        Err(error) => Some(error),
                    }
                } else {
                    None
                }
            },
        };
        match error {
            None => EventOutcome::Appended,
            Some(error) => {
                self.stopped = true;
                EventOutcome::AppendedThenFailed(error)
            },
        }
    }

    /// Whether what was written is made durable now, where it is due.
    pub fn wants_sync(&self, due: bool) -> (wants: bool)
        ensures
            wants == (due && !self@.stopped && self@.pending_error is None),
    {
        due && !self.stopped && self.pending_error.is_none()
    }

    /// Keeps what came of making durable what was due.
    pub fn tick(&mut self, due: bool, synced: Result<(), RuntimeError>)
        ensures
            final(self)@ == (if due && !old(self)@.stopped && old(self)@.pending_error is None {
                BackendModel { pending_error: error::failure(synced), dirty: false, ..old(self)@ }
            } else {
                old(self)@
            }),
    {
        if self.wants_sync(due) {
            self.pending_error = match synced {
                Ok(()) => None,
                Err(error) => Some(error),
            };
            self.dirty = false;
        }
    }

    /// Ends the writing: gives what went wrong and was not reported, and what came of
    /// making the streams durable.
    pub fn shutdown(&mut self, synced: Result<(), RuntimeError>) -> (failures: Vec<RuntimeError>)
        ensures
            error::failures_view(failures@) == error::optional_failure(old(self)@.pending_error)
                + error::optional_failure(error::failure(synced)),
            final(self)@ == (BackendModel { pending_error: None, dirty: false, ..old(self)@ }),
    {
        let mut failures: Vec<RuntimeError> = Vec::new();
        let ghost pending = self@.pending_error;
        if let Some(error) = self.pending_error.take() {
            failures.push(error);
        }
        assert(error::failures_view(failures@) =~= error::optional_failure(pending));
        if let Err(error) = synced {
            failures.push(error);
        }
        assert(error::failures_view(failures@) =~= error::optional_failure(pending) + error::optional_failure(
            error::failure(synced),
        ));
        self.dirty = false;
        failures
    }
}

/// Each event of a batch is answered, those that were appended come first, and no event
/// is answered as appended that the appender did not commit.
pub proof fn law_batch_answers(
    before: BackendModel,
    count: nat,
    validated: Option<ErrorModel>,
    append: Result<(), AppendFailure>,
    i: int,
    j: int,
)
    requires
        0 <= i < j < count,
    ensures
        batch(before, count, validated, append).outcomes.len() == count,
        batch(before, count, validated, append).outcomes[j] is Appended ==> batch(
            before,
            count,
            validated,
            append,
        ).outcomes[i] is Appended,
        batch(before, count, validated, append).outcomes[j] is Appended ==> append is Ok || j
            < append->Err_0.committed_events->0,
{
}

/// Writing that has stopped stays so, whatever comes of a batch or of an event.
pub proof fn law_stopped_writing_stays(
    before: BackendModel,
    count: nat,
    validated: Option<ErrorModel>,
    append: Result<(), AppendFailure>,
    outcome: OutcomeModel,
    checkpoint: bool,
)
    requires
        before.stopped,
    ensures
        batch(before, count, validated, append).after.stopped,
        behind_event(before, outcome, checkpoint).stopped,
{
}

/// A batch is answered event by event. With a failure pending, or where the batch is not
/// valid, the first is refused with that failure and the others are discarded. Where all were
/// appended, all are answered so. Where appending failed, exactly those that were committed
/// are, the next is refused with the failure, and the others are discarded; and writing stops.
pub proof fn law_each_event_of_a_batch_is_answered(
    before: BackendModel,
    count: nat,
    validated: Option<ErrorModel>,
    append: Result<(), AppendFailure>,
    i: int,
)
    requires
        0 <= i < count,
    ensures
        ({
            let answered = batch(before, count, validated, append);
            let outcome = answered.outcomes[i];
            &&& answered.outcomes.len() == count
            &&& before.pending_error is Some ==> {
                &&& i == 0 ==> outcome == OutcomeModel::Failed(before.pending_error->0)
                &&& i > 0 ==> outcome is Discarded
                &&& answered.after.pending_error is None
                &&& answered.after.stopped
                &&& answered.after.dirty == before.dirty
            }
            &&& before.pending_error is None && validated is Some ==> {
                &&& i == 0 ==> outcome == OutcomeModel::Failed(validated->0)
                &&& i > 0 ==> outcome is Discarded
                &&& answered.after.stopped
                &&& answered.after.dirty == before.dirty
            }
            &&& before.pending_error is None && validated is None && append is Ok ==> {
                &&& outcome is Appended
                &&& answered.after.dirty
                &&& answered.after.stopped == before.stopped
                &&& answered.after.pending_error is None
            }
            &&& before.pending_error is None && validated is None && append is Err ==> {
                let failure = append->Err_0;
                &&& answered.after.stopped
                &&& failure.committed_events is None ==> {
                    &&& i == 0 ==> outcome == OutcomeModel::Failed(failure.error@)
                    &&& i > 0 ==> outcome is Discarded
                    &&& answered.after.dirty == before.dirty
                }
                &&& failure.committed_events is Some && failure.committed_events->0 <= count ==> {
                    let committed = failure.committed_events->0;
                    &&& i < committed ==> outcome is Appended
                    &&& i == committed ==> outcome == OutcomeModel::Failed(failure.error@)
                    &&& i > committed ==> outcome is Discarded
                    &&& answered.after.dirty <==> before.dirty || committed > 0
                    &&& committed == count ==> answered.after.pending_error == Some(failure.error@)
                }
                &&& failure.committed_events is Some && failure.committed_events->0 > count ==> {
                    &&& outcome !is Appended
                    &&& answered.after.dirty == before.dirty
                }
            }
        }),
{
}

/// An event is appended exactly where it is valid, its contexts are, and it could be appended
/// and, at a checkpoint, made durable. One that was written before something failed is
/// answered as appended and then failed, with that failure.
pub proof fn law_event_is_answered(
    validated: Option<ErrorModel>,
    pairing: Option<ErrorModel>,
    contexts: Option<ErrorModel>,
    append: Result<(), AppendFailure>,
    checkpoint: bool,
    synced: Option<ErrorModel>,
)
    ensures
        ({
            let outcome = semantic(validated, pairing, contexts, append, checkpoint, synced);
            let valid = validated is None && pairing is None && contexts is None;
            &&& outcome is Appended <==> valid && append is Ok && (checkpoint ==> synced is None)
            &&& outcome is AppendedThenFailed <==> valid && (append is Ok && checkpoint && synced
                is Some || append is Err && append->Err_0.committed_events is Some
                && append->Err_0.committed_events->0 == 1)
            &&& outcome !is Discarded
            &&& validated is Some ==> outcome == OutcomeModel::Failed(validated->0)
        }),
{
}

} // verus!
