//! Reserving a new conversation: which identifier it gets, and which leases are held
//! while it is looked for.

use crate::contract::{validate_id, Checked};
use crate::contract;
use crate::error::{protocol, push_failure, ErrorModel, RuntimeError};
use crate::error;
use crate::text::join2;
use vstd::prelude::*;

verus! {

/// Where looking for an identifier stands.
#[derive(Clone, Copy, Debug, PartialEq, Eq, Structural)]
pub enum CandidateStage {
    /// The directories of the runtime are made.
    EnsureRoots,
    /// The store of the leases is looked at.
    EnsureStore,
    /// The lease of the candidate's conversation is acquired.
    AcquireConversation,
    /// The lease of the candidate's run is acquired.
    AcquireRun,
    /// The lease of the conversation is released, for want of that of the run.
    GiveUp,
    /// What was never published under the candidate's name is taken away.
    Reclaim,
    /// What is there under the candidate's name is looked at.
    Inspect,
    /// The lease of the run of a candidate that is taken is released.
    VacateRun,
    /// The lease of the conversation of a candidate that is taken is released.
    VacateConversation,
    /// The lease of the run is released before a failure is reported.
    AbandonRun,
    /// The lease of the conversation is released before a failure is reported.
    AbandonConversation,
    /// The candidate is reserved, and its leases are held.
    Reserved,
    /// What went wrong is known.
    Failed,
}

impl CandidateStage {
    /// Whether the lease of the candidate's conversation is held.
    pub open spec fn holds_conversation(self) -> bool {
        match self {
            CandidateStage::AcquireRun => true,
            CandidateStage::GiveUp => true,
            CandidateStage::VacateConversation => true,
            CandidateStage::AbandonConversation => true,
            _ => self.holds_run(),
        }
    }

    /// Whether the lease of the candidate's run is held.
    pub open spec fn holds_run(self) -> bool {
        match self {
            CandidateStage::Reclaim => true,
            CandidateStage::Inspect => true,
            CandidateStage::VacateRun => true,
            CandidateStage::AbandonRun => true,
            CandidateStage::Reserved => true,
            _ => false,
        }
    }

    /// How far a stage is from the next candidate.
    pub open spec fn rank(self) -> nat {
        match self {
            CandidateStage::EnsureRoots => 9,
            CandidateStage::EnsureStore => 8,
            CandidateStage::AcquireConversation => 7,
            CandidateStage::AcquireRun => 6,
            CandidateStage::Reclaim => 5,
            CandidateStage::Inspect => 4,
            CandidateStage::VacateRun => 3,
            CandidateStage::AbandonRun => 3,
            CandidateStage::GiveUp => 2,
            CandidateStage::VacateConversation => 2,
            CandidateStage::AbandonConversation => 2,
            CandidateStage::Reserved => 0,
            CandidateStage::Failed => 0,
        }
    }
}

/// Whether a lease was not acquired because another process holds it.
pub open spec fn is_active(failure: ErrorModel) -> bool {
    failure is ActiveSession
}

/// What a search has come to.
#[verifier::ext_equal]
pub struct CandidateState {
    pub stage: CandidateStage,
    /// The number of the candidate, counted from one on.
    pub ordinal: nat,
    /// What went wrong, in the order in which it did.
    pub failures: Seq<ErrorModel>,
}

/// What is wrong with a search that is out of candidates.
pub open spec fn exhausted(base_id: Seq<char>) -> ErrorModel {
    ErrorModel::Protocol("could not allocate a unique conversation id for "@ + base_id)
}

impl CandidateState {
    /// The search at a stage, with what went wrong on the way there.
    pub open spec fn at(self, stage: CandidateStage, failure: Option<ErrorModel>) -> CandidateState {
        CandidateState {
            stage,
            ordinal: self.ordinal,
            failures: self.failures + error::optional_failure(failure),
        }
    }

    /// The search at its next candidate, where there is one.
    pub open spec fn next_candidate(self, maximum: u64, base_id: Seq<char>) -> CandidateState {
        if self.ordinal < maximum {
            CandidateState {
                stage: CandidateStage::AcquireConversation,
                ordinal: self.ordinal + 1,
                failures: Seq::empty(),
            }
        } else {
            CandidateState {
                stage: CandidateStage::Failed,
                ordinal: self.ordinal,
                failures: seq![exhausted(base_id)],
            }
        }
    }

    /// The search after a stage that came out as given.
    pub open spec fn advanced(
        self,
        maximum: u64,
        base_id: Seq<char>,
        outcome: Option<ErrorModel>,
    ) -> CandidateState {
        match self.stage {
            CandidateStage::EnsureRoots => match outcome {
                None => self.at(CandidateStage::EnsureStore, None),
                Some(_) => self.at(CandidateStage::Failed, outcome),
            },
            CandidateStage::EnsureStore => match outcome {
                None => self.next_candidate(maximum, base_id),
                Some(_) => self.at(CandidateStage::Failed, outcome),
            },
            CandidateStage::AcquireConversation => match outcome {
                None => self.at(CandidateStage::AcquireRun, None),
                Some(failure) => if is_active(failure) {
                    self.next_candidate(maximum, base_id)
                } else {
                    self.at(CandidateStage::Failed, outcome)
                },
            },
            CandidateStage::AcquireRun => match outcome {
                None => self.at(CandidateStage::Reclaim, None),
                Some(_) => self.at(CandidateStage::GiveUp, outcome),
            },
            CandidateStage::GiveUp => if outcome is None && is_active(self.failures.last()) {
                self.next_candidate(maximum, base_id)
            } else {
                self.at(CandidateStage::Failed, outcome)
            },
            CandidateStage::Reclaim => match outcome {
                None => self.at(CandidateStage::Inspect, None),
                Some(_) => self.at(CandidateStage::AbandonRun, outcome),
            },
            CandidateStage::Inspect => match outcome {
                None => self.at(CandidateStage::Reserved, None),
                Some(_) => self.at(CandidateStage::AbandonRun, outcome),
            },
            CandidateStage::VacateRun => self.at(CandidateStage::VacateConversation, outcome),
            CandidateStage::VacateConversation => if outcome is None && self.failures.len() == 0 {
                self.next_candidate(maximum, base_id)
            } else {
                self.at(CandidateStage::Failed, outcome)
            },
            CandidateStage::AbandonRun => self.at(CandidateStage::AbandonConversation, outcome),
            CandidateStage::AbandonConversation => self.at(CandidateStage::Failed, outcome),
            CandidateStage::Reserved => self,
            CandidateStage::Failed => self,
        }
    }

    /// Whether what went wrong fits the stage.
    pub open spec fn wf(self, maximum: u64) -> bool {
        &&& self.ordinal <= maximum
        &&& match self.stage {
            CandidateStage::EnsureRoots => self.ordinal == 0 && self.failures.len() == 0,
            CandidateStage::EnsureStore => self.ordinal == 0 && self.failures.len() == 0,
            CandidateStage::AcquireConversation => self.failures.len() == 0,
            CandidateStage::AcquireRun => self.failures.len() == 0,
            CandidateStage::GiveUp => self.failures.len() == 1,
            CandidateStage::Reclaim => self.failures.len() == 0,
            CandidateStage::Inspect => self.failures.len() == 0,
            CandidateStage::VacateRun => self.failures.len() == 0,
            CandidateStage::VacateConversation => self.failures.len() <= 1,
            CandidateStage::AbandonRun => self.failures.len() == 1,
            CandidateStage::AbandonConversation => 1 <= self.failures.len() <= 2,
            CandidateStage::Reserved => self.failures.len() == 0 && self.ordinal >= 1,
            CandidateStage::Failed => 1 <= self.failures.len() <= 3,
        }
        &&& self.stage != CandidateStage::EnsureRoots && self.stage != CandidateStage::EnsureStore
            && self.stage != CandidateStage::Failed ==> self.ordinal >= 1
    }
}

/// Looking for an identifier that no other conversation has. The first candidate is
/// the wanted identifier itself.
pub struct CandidateSearch {
    pub base_id: String,
    pub ordinal: u64,
    pub maximum: u64,
    pub stage: CandidateStage,
    pub failures: Vec<RuntimeError>,
}

impl CandidateSearch {
    /// What the search has come to.
    pub open spec fn state(self) -> CandidateState {
        CandidateState {
            stage: self.stage,
            ordinal: self.ordinal as nat,
            failures: error::failures_view(self.failures@),
        }
    }

    /// Whether what went wrong fits the stage.
    pub open spec fn wf(self) -> bool {
        self.state().wf(self.maximum)
    }

    /// Begins to look for an identifier.
    pub fn reserve_new_conversation_run(base_id: &Checked, maximum: u64) -> (result: Result<
        CandidateSearch,
        RuntimeError,
    >)
        ensures
            error::failure(result) == contract::id_failure(base_id@, "conversation"@),
            result matches Ok(search) ==> {
                &&& search.wf()
                &&& search.base_id@ == base_id.text@
                &&& search.maximum == maximum
                &&& search.state() == (CandidateState {
                    stage: CandidateStage::EnsureRoots,
                    ordinal: 0,
                    failures: Seq::empty(),
                })
            },
    {
        validate_id(base_id, "conversation")?;
        let failures: Vec<RuntimeError> = Vec::new();
        assert(error::failures_view(failures@) =~= Seq::<ErrorModel>::empty());
        Ok(
            CandidateSearch {
                base_id: base_id.text.clone(),
                ordinal: 0,
                maximum,
                stage: CandidateStage::EnsureRoots,
                failures,
            },
        )
    }

    fn move_to(&mut self, stage: CandidateStage, outcome: Result<(), RuntimeError>)
        ensures
            final(self).base_id == old(self).base_id,
            final(self).maximum == old(self).maximum,
            final(self).state() == old(self).state().at(stage, error::failure(outcome)),
    {
        push_failure(&mut self.failures, outcome);
        self.stage = stage;
    }

    fn next_candidate(&mut self)
        ensures
            final(self).base_id == old(self).base_id,
            final(self).maximum == old(self).maximum,
            final(self).state() == old(self).state().next_candidate(
                old(self).maximum,
                old(self).base_id@,
            ),
    {
        self.failures = Vec::new();
        if self.ordinal < self.maximum {
            self.ordinal = self.ordinal + 1;
            self.stage = CandidateStage::AcquireConversation;
            assert(error::failures_view(self.failures@) =~= Seq::<ErrorModel>::empty());
        } else {
            let message = join2(
                "could not allocate a unique conversation id for ",
                self.base_id.as_str(),
            );
            self.failures.push(protocol(message.as_str()));
            self.stage = CandidateStage::Failed;
            assert(error::failures_view(self.failures@) =~= seq![exhausted(self.base_id@)]);
        }
    }

    /// Goes on by what came of the stage.
    pub fn advance(&mut self, outcome: Result<(), RuntimeError>)
        requires
            old(self).wf(),
            old(self).stage != CandidateStage::Inspect,
        ensures
            final(self).wf(),
            final(self).base_id == old(self).base_id,
            final(self).maximum == old(self).maximum,
            final(self).state() == old(self).state().advanced(
                old(self).maximum,
                old(self).base_id@,
                error::failure(outcome),
            ),
    {
        let succeeded = outcome.is_ok();
        let active = match &outcome {
            Err(RuntimeError::ActiveSession(_)) => true,
            _ => false,
        };
        assert(error::failures_view(self.failures@).len() == self.failures@.len());
        match self.stage {
            CandidateStage::EnsureRoots => if succeeded {
                self.move_to(CandidateStage::EnsureStore, outcome)
            } else {
                self.move_to(CandidateStage::Failed, outcome)
            },
            CandidateStage::EnsureStore => if succeeded {
                self.next_candidate()
            } else {
                self.move_to(CandidateStage::Failed, outcome)
            },
            CandidateStage::AcquireConversation => if succeeded {
                self.move_to(CandidateStage::AcquireRun, outcome)
            } else if active {
                self.next_candidate()
            } else {
                self.move_to(CandidateStage::Failed, outcome)
            },
            CandidateStage::AcquireRun => if succeeded {
                self.move_to(CandidateStage::Reclaim, outcome)
            } else {
                self.move_to(CandidateStage::GiveUp, outcome)
            },
            CandidateStage::GiveUp => {
                let waiting = match &self.failures[0] {
                    RuntimeError::ActiveSession(_) => true,
                    _ => false,
                };
                assert(error::failures_view(self.failures@).last() == self.failures@[0]@);
                if succeeded && waiting {
                    self.next_candidate()
                } else {
                    self.move_to(CandidateStage::Failed, outcome)
                }
            },
            CandidateStage::Reclaim => if succeeded {
                self.move_to(CandidateStage::Inspect, outcome)
            } else {
                self.move_to(CandidateStage::AbandonRun, outcome)
            },
            CandidateStage::Inspect => {},
            CandidateStage::VacateRun => self.move_to(CandidateStage::VacateConversation, outcome),
            CandidateStage::VacateConversation => if succeeded && self.failures.len() == 0 {
                self.next_candidate()
            } else {
                self.move_to(CandidateStage::Failed, outcome)
            },
            CandidateStage::AbandonRun => self.move_to(
                CandidateStage::AbandonConversation,
                outcome,
            ),
            CandidateStage::AbandonConversation => self.move_to(CandidateStage::Failed, outcome),
            CandidateStage::Reserved => {},
            CandidateStage::Failed => {},
        }
    }

    /// Goes on by whether the candidate is taken. Its leases are held in either case.
    pub fn inspected(&mut self, occupied: Result<bool, RuntimeError>)
        requires
            old(self).wf(),
            old(self).stage == CandidateStage::Inspect,
        ensures
            final(self).wf(),
            final(self).base_id == old(self).base_id,
            final(self).maximum == old(self).maximum,
            final(self).state() == (match occupied {
                Ok(true) => old(self).state().at(CandidateStage::VacateRun, None),
                _ => old(self).state().advanced(
                    old(self).maximum,
                    old(self).base_id@,
                    error::failure(occupied),
                ),
            }),
    {
        assert(error::failures_view(self.failures@).len() == self.failures@.len());
        match occupied {
            Ok(true) => self.move_to(CandidateStage::VacateRun, Ok(())),
            Ok(false) => self.move_to(CandidateStage::Reserved, Ok(())),
            Err(error) => self.move_to(CandidateStage::AbandonRun, Err(error)),
        }
    }
}

/// The leases of a candidate are gained by acquiring them alone and lost by releasing
/// them alone, whether or not the release succeeds: at the next candidate, and where the
/// search fails, none is held.
pub proof fn law_candidate_leases(
    state: CandidateState,
    maximum: u64,
    base_id: Seq<char>,
    outcome: Option<ErrorModel>,
)
    requires
        state.wf(maximum),
    ensures
        ({
            let stage = state.stage;
            let next = state.advanced(maximum, base_id, outcome).stage;
            &&& next.holds_run() ==> next.holds_conversation()
            &&& next.holds_conversation() == ((stage.holds_conversation() && stage
                != CandidateStage::GiveUp && stage != CandidateStage::VacateConversation && stage
                != CandidateStage::AbandonConversation) || (stage
                == CandidateStage::AcquireConversation && outcome is None))
            &&& next.holds_run() == ((stage.holds_run() && stage != CandidateStage::VacateRun
                && stage != CandidateStage::AbandonRun) || (stage == CandidateStage::AcquireRun
                && outcome is None))
            &&& next == CandidateStage::Failed ==> !next.holds_conversation()
        }),
{
}

/// A candidate is reserved only where it was looked at while both of its leases were
/// held and was not taken.
pub proof fn law_reserved_candidate_was_free(
    state: CandidateState,
    maximum: u64,
    base_id: Seq<char>,
    outcome: Option<ErrorModel>,
)
    requires
        state.stage != CandidateStage::Reserved,
        state.advanced(maximum, base_id, outcome).stage == CandidateStage::Reserved,
    ensures
        state.stage == CandidateStage::Inspect,
        state.stage.holds_conversation(),
        state.stage.holds_run(),
        outcome is None,
        state.advanced(maximum, base_id, outcome).ordinal == state.ordinal,
{
}

/// The search ends: every stage leads closer to the next candidate, and no candidate is
/// tried twice.
pub proof fn law_search_ends(
    state: CandidateState,
    maximum: u64,
    base_id: Seq<char>,
    outcome: Option<ErrorModel>,
)
    requires
        state.wf(maximum),
        state.stage != CandidateStage::Reserved,
        state.stage != CandidateStage::Failed,
    ensures
        ({
            let next = state.advanced(maximum, base_id, outcome);
            ||| maximum - next.ordinal < maximum - state.ordinal
            ||| next.ordinal == state.ordinal && next.stage.rank() < state.stage.rank()
        }),
        state.advanced(maximum, base_id, outcome).wf(maximum),
{
}

/// Candidates are tried one after the other. The next is tried exactly where the one before
/// is in use: its conversation, its run once the conversation is given back, or what was found
/// in it once both are. Any other failure ends the search with that failure.
pub proof fn law_used_candidates_are_passed_over(
    state: CandidateState,
    maximum: u64,
    base_id: Seq<char>,
    outcome: Option<ErrorModel>,
)
    requires
        state.wf(maximum),
    ensures
        ({
            let next = state.advanced(maximum, base_id, outcome);
            let goes_on = {
                ||| state.stage == CandidateStage::EnsureStore && outcome is None
                ||| state.stage == CandidateStage::AcquireConversation && outcome is Some
                    && outcome->0 is ActiveSession
                ||| state.stage == CandidateStage::GiveUp && outcome is None
                    && state.failures[0] is ActiveSession
                ||| state.stage == CandidateStage::VacateConversation && outcome is None
                    && state.failures.len() == 0
            };
            &&& goes_on && state.ordinal < maximum ==> {
                &&& next.stage == CandidateStage::AcquireConversation
                &&& next.ordinal == state.ordinal + 1
                &&& next.failures.len() == 0
            }
            &&& goes_on && state.ordinal == maximum ==> {
                &&& next.stage == CandidateStage::Failed
                &&& next.failures == seq![
                    ErrorModel::Protocol(
                        "could not allocate a unique conversation id for "@ + base_id,
                    ),
                ]
            }
            &&& !goes_on ==> next.ordinal == state.ordinal && next.stage
                != CandidateStage::AcquireConversation || next == state
            &&& state.stage == CandidateStage::AcquireConversation && outcome is Some
                && !(outcome->0 is ActiveSession) ==> next.stage == CandidateStage::Failed
                && next.failures == seq![outcome->0]
            &&& state.stage == CandidateStage::AcquireConversation && outcome is None
                ==> next.stage == CandidateStage::AcquireRun
            &&& state.stage == CandidateStage::AcquireRun && outcome is None ==> next.stage
                == CandidateStage::Reclaim
            &&& state.stage == CandidateStage::AcquireRun && outcome is Some ==> next.stage
                == CandidateStage::GiveUp && next.failures == seq![outcome->0]
            &&& state.stage == CandidateStage::Reclaim && outcome is None ==> next.stage
                == CandidateStage::Inspect
            &&& state.stage == CandidateStage::Inspect && outcome is None ==> next.stage
                == CandidateStage::Reserved
        }),
{
    assert(Seq::<ErrorModel>::empty() + seq![outcome->0] =~= seq![outcome->0]);
    if state.failures.len() == 0 {
        assert(state.failures =~= Seq::<ErrorModel>::empty());
    }
}

} // verus!
