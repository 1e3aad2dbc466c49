//! Holding a run: the lease of its conversation first, then its own, and both given
//! back when the work is done.

use crate::contract::{validate_id, Checked};
use crate::contract;
use crate::error::{push_failure, ErrorModel, RuntimeError};
use crate::error;
use vstd::prelude::*;

verus! {

/// Where holding the two leases of a run stands: that of its conversation and its
/// own.
#[derive(Clone, Copy, Debug, PartialEq, Eq, Structural)]
pub enum OwnershipStage {
    /// The directory of the run is opened.
    Locate,
    /// The store of the leases is looked at.
    EnsureStore,
    AcquireConversation,
    AcquireRun,
    Operating,
    ReleaseRun,
    ReleaseConversation,
    /// Both leases are kept for later.
    Kept,
    /// No lease is held any more.
    Released,
}

/// Working on a run while its leases are held.
pub struct ConversationRunOwnership {
    pub stage: OwnershipStage,
    /// Whether the leases are kept when the work is done.
    pub keep: bool,
    /// What went wrong, in the order in which it did.
    pub failures: Vec<RuntimeError>,
}

impl OwnershipStage {
    /// Whether the lease of the conversation is held.
    pub open spec fn holds_conversation(self) -> bool {
        match self {
            OwnershipStage::AcquireRun => true,
            OwnershipStage::ReleaseConversation => true,
            _ => self.holds_run(),
        }
    }

    /// Whether the lease of the run is held.
    pub open spec fn holds_run(self) -> bool {
        self is Operating || self is ReleaseRun || self is Kept
    }

    /// The stage after this one.
    pub open spec fn next(self, keep: bool, succeeded: bool) -> OwnershipStage {
        match self {
            OwnershipStage::Locate => if succeeded {
                OwnershipStage::EnsureStore
            } else {
                OwnershipStage::Released
            },
            OwnershipStage::EnsureStore => if succeeded {
                OwnershipStage::AcquireConversation
            } else {
                OwnershipStage::Released
            },
            OwnershipStage::AcquireConversation => if succeeded {
                OwnershipStage::AcquireRun
            } else {
                OwnershipStage::Released
            },
            OwnershipStage::AcquireRun => if succeeded {
                OwnershipStage::Operating
            } else {
                OwnershipStage::ReleaseConversation
            },
            OwnershipStage::Operating => if succeeded && keep {
                OwnershipStage::Kept
            } else {
                OwnershipStage::ReleaseRun
            },
            OwnershipStage::ReleaseRun => OwnershipStage::ReleaseConversation,
            OwnershipStage::ReleaseConversation => OwnershipStage::Released,
            OwnershipStage::Kept => OwnershipStage::ReleaseRun,
            OwnershipStage::Released => OwnershipStage::Released,
        }
    }

    /// How far a stage is from the end.
    pub open spec fn rank(self) -> nat {
        match self {
            OwnershipStage::Locate => 8,
            OwnershipStage::EnsureStore => 7,
            OwnershipStage::AcquireConversation => 6,
            OwnershipStage::AcquireRun => 5,
            OwnershipStage::Operating => 4,
            OwnershipStage::Kept => 3,
            OwnershipStage::ReleaseRun => 2,
            OwnershipStage::ReleaseConversation => 1,
            OwnershipStage::Released => 0,
        }
    }
}

/// What is wrong with the identifiers of a run that is to be worked on.
pub open spec fn run_ids_failure(conversation_id: Checked, run_session_id: Checked) -> Option<
    ErrorModel,
> {
    error::first_failure(
        contract::id_failure(conversation_id@, "conversation"@),
        contract::id_failure(run_session_id@, "run session"@),
    )
}

/// Begins to work on a run: nothing is held, and nothing went wrong.
pub fn with_conversation_run_ownership(
    conversation_id: &Checked,
    run_session_id: &Checked,
    keep: bool,
) -> (result: Result<ConversationRunOwnership, RuntimeError>)
    ensures
        error::failure(result) == run_ids_failure(*conversation_id, *run_session_id),
        result matches Ok(ownership) ==> {
            &&& ownership.stage == OwnershipStage::Locate
            &&& ownership.keep == keep
            &&& ownership.failures@.len() == 0
        },
{
    validate_id(conversation_id, "conversation")?;
    validate_id(run_session_id, "run session")?;
    Ok(
        ConversationRunOwnership {
            stage: OwnershipStage::Locate,
            keep,
            failures: Vec::new(),
        },
    )
}

impl ConversationRunOwnership {
    /// Goes on by what came of the stage. What is kept is released when it is needed no
    /// more.
    pub fn advance(&mut self, outcome: Result<(), RuntimeError>)
        ensures
            final(self).keep == old(self).keep,
            final(self).stage == old(self).stage.next(old(self).keep, outcome is Ok),
            final(self).failures@.len() == old(self).failures@.len() + (if outcome is Err {
                1nat
            } else {
                0nat
            }),
            error::failures_view(final(self).failures@) == error::failures_view(
                old(self).failures@,
            ) + error::optional_failure(error::failure(outcome)),
    {
        let succeeded = outcome.is_ok();
        push_failure(&mut self.failures, outcome);
        self.stage = match self.stage {
            OwnershipStage::Locate => if succeeded {
                OwnershipStage::EnsureStore
            } else {
                OwnershipStage::Released
            },
            OwnershipStage::EnsureStore => if succeeded {
                OwnershipStage::AcquireConversation
            } else {
                OwnershipStage::Released
            },
            OwnershipStage::AcquireConversation => if succeeded {
                OwnershipStage::AcquireRun
            } else {
                OwnershipStage::Released
            },
            OwnershipStage::AcquireRun => if succeeded {
                OwnershipStage::Operating
            } else {
                OwnershipStage::ReleaseConversation
            },
            OwnershipStage::Operating => if succeeded && self.keep {
                OwnershipStage::Kept
            } else {
                OwnershipStage::ReleaseRun
            },
            OwnershipStage::ReleaseRun => OwnershipStage::ReleaseConversation,
            OwnershipStage::ReleaseConversation => OwnershipStage::Released,
            OwnershipStage::Kept => OwnershipStage::ReleaseRun,
            OwnershipStage::Released => OwnershipStage::Released,
        };
    }
}

/// The lease of a run is held only while that of its conversation is. A lease is gained
/// by acquiring it alone and lost by releasing it alone, whether or not the release
/// succeeds, so that at the end none is held; and every stage comes closer to the end.
pub proof fn law_leases_are_given_back(stage: OwnershipStage, keep: bool, succeeded: bool)
    ensures
        stage.holds_run() ==> stage.holds_conversation(),
        stage.next(keep, succeeded).holds_conversation() == ((stage.holds_conversation()
            && stage != OwnershipStage::ReleaseConversation) || (stage
            == OwnershipStage::AcquireConversation && succeeded)),
        stage.next(keep, succeeded).holds_run() == ((stage.holds_run() && stage
            != OwnershipStage::ReleaseRun) || (stage == OwnershipStage::AcquireRun && succeeded)),
        stage.next(keep, succeeded) == OwnershipStage::Released ==> !stage.next(
            keep,
            succeeded,
        ).holds_conversation(),
        stage != OwnershipStage::Released ==> stage.next(keep, succeeded).rank() < stage.rank(),
{
}

/// A run is owned step by step: located, its store ensured, its conversation taken, then the
/// run itself. What is kept is kept only where its operation succeeded and it was to be kept;
/// otherwise the run is given back, then the conversation.
pub proof fn law_course_of_an_ownership(stage: OwnershipStage, keep: bool, succeeded: bool)
    ensures
        ({
            let next = stage.next(keep, succeeded);
            &&& stage is Locate ==> next == (if succeeded {
                OwnershipStage::EnsureStore
            } else {
                OwnershipStage::Released
            })
            &&& stage is EnsureStore ==> next == (if succeeded {
                OwnershipStage::AcquireConversation
            } else {
                OwnershipStage::Released
            })
            &&& stage is AcquireConversation && succeeded ==> next is AcquireRun
            &&& stage is AcquireRun && succeeded ==> next is Operating
            &&& stage is AcquireRun && !succeeded ==> next is ReleaseConversation
            &&& next is Kept <==> stage is Operating && succeeded && keep
            &&& stage is Operating && !(succeeded && keep) ==> next is ReleaseRun
            &&& stage is Kept ==> next is ReleaseRun
            &&& stage is ReleaseRun ==> next is ReleaseConversation
            &&& stage is ReleaseConversation ==> next is Released
        }),
{
}

} // verus!
