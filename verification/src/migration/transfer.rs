//! Moving a session: what is done in what order, and what an interrupted move goes on
//! with.

use crate::contract::{validate_id, Checked};
use crate::contract;
use crate::error::{protocol, usage, ErrorModel, RuntimeError};
use crate::error;
use crate::lifecycle::reclamation::{anchored_real_file_present, RealFile};
use crate::lifecycle::reclamation;
use crate::text::{join2, quoted_text};
use crate::text;
use vstd::prelude::*;

verus! {

/// What is done next to move a session.
#[derive(Clone, Copy, Debug, PartialEq, Eq, Structural)]
pub enum MigrationAction {
    /// Accept the transaction that was found.
    ValidateTransaction,
    /// Take away the stage that an interrupted move left.
    RemoveStaging,
    BuildPlan,
    /// Hold the plan against the transaction that was found.
    CompareManifest,
    /// Write down that the session is about to be moved.
    RecordTransaction,
    Publish,
    /// Open the conversation that was published.
    FindTarget,
    /// See that no later session of the former layout stands beside the conversation.
    LookForSources,
    ValidateTarget,
    RemoveMarker,
    RetireSources,
    ClearTransaction,
    Done,
}

/// A session that is being moved.
pub struct LegacyMigration {
    /// Whether a transaction was found.
    pub transaction: bool,
    /// Whether the conversation was found.
    pub target: bool,
    pub action: MigrationAction,
}

/// The first action, by what is found.
pub open spec fn first_action(transaction: bool, target: bool) -> MigrationAction {
    if transaction {
        MigrationAction::ValidateTransaction
    } else if target {
        MigrationAction::LookForSources
    } else {
        MigrationAction::BuildPlan
    }
}

/// The action behind one that succeeded.
pub open spec fn following(action: MigrationAction, transaction: bool, target: bool) -> MigrationAction {
    match action {
        MigrationAction::ValidateTransaction => if target {
            MigrationAction::ValidateTarget
        } else {
            MigrationAction::RemoveStaging
        },
        MigrationAction::RemoveStaging => MigrationAction::BuildPlan,
        MigrationAction::BuildPlan => if transaction {
            MigrationAction::CompareManifest
        } else {
            MigrationAction::RecordTransaction
        },
        MigrationAction::CompareManifest => MigrationAction::Publish,
        MigrationAction::RecordTransaction => MigrationAction::Publish,
        MigrationAction::Publish => MigrationAction::FindTarget,
        MigrationAction::FindTarget => MigrationAction::ValidateTarget,
        MigrationAction::LookForSources => MigrationAction::ValidateTarget,
        MigrationAction::ValidateTarget => if !transaction && target {
            MigrationAction::Done
        } else {
            MigrationAction::RemoveMarker
        },
        MigrationAction::RemoveMarker => MigrationAction::RetireSources,
        MigrationAction::RetireSources => MigrationAction::ClearTransaction,
        MigrationAction::ClearTransaction => MigrationAction::Done,
        MigrationAction::Done => MigrationAction::Done,
    }
}

/// What came of an action.
pub enum MigrationReply {
    Done,
    /// What was looked for is there, or what was compared differs.
    Unexpected,
    Failed(RuntimeError),
}

/// What is wrong with what came of an action.
pub open spec fn reply_failure(action: MigrationAction, reply: MigrationReply) -> Option<ErrorModel> {
    match reply {
        MigrationReply::Done => None,
        MigrationReply::Failed(error) => Some(error@),
        MigrationReply::Unexpected => match action {
            MigrationAction::CompareManifest => error::protocol_failure(
                "legacy migration sources changed after the transaction was recorded"@,
            ),
            MigrationAction::FindTarget => error::protocol_failure(
                "published conversation directory disappeared"@,
            ),
            MigrationAction::LookForSources => error::protocol_failure(
                "published conversation conflicts with a later legacy-format bundle"@,
            ),
            _ => None,
        },
    }
}

impl LegacyMigration {
    /// A session that is about to be moved, or of which moving was interrupted.
    pub fn migrate_legacy_session_locked(transaction: bool, target: bool) -> (migration: LegacyMigration)
        ensures
            migration.transaction == transaction,
            migration.target == target,
            migration.action == first_action(transaction, target),
    {
        LegacyMigration {
            transaction,
            target,
            action: if transaction {
                MigrationAction::ValidateTransaction
            } else if target {
                MigrationAction::LookForSources
            } else {
                MigrationAction::BuildPlan
            },
        }
    }

    /// Goes on by what came of the action.
    pub fn advance(&mut self, reply: MigrationReply) -> (result: Result<(), RuntimeError>)
        ensures
            final(self).transaction == old(self).transaction,
            final(self).target == old(self).target,
            error::failure(result) == reply_failure(old(self).action, reply),
            final(self).action == (if result is Err {
                old(self).action
            } else {
                following(old(self).action, old(self).transaction, old(self).target)
            }),
    {
        match reply {
            MigrationReply::Done => {},
            MigrationReply::Failed(error) => {
                return Err(error);
            },
            MigrationReply::Unexpected => match self.action {
                MigrationAction::CompareManifest => {
                    return Err(
                        protocol(
                            "legacy migration sources changed after the transaction was recorded",
                        ),
                    );
                },
                MigrationAction::FindTarget => {
                    return Err(protocol("published conversation directory disappeared"));
                },
                MigrationAction::LookForSources => {
                    return Err(
                        protocol(
                            "published conversation conflicts with a later legacy-format bundle",
                        ),
                    );
                },
                _ => {},
            },
        }
        self.action = match self.action {
            MigrationAction::ValidateTransaction => {
                if self.target {
                    MigrationAction::ValidateTarget
                } else {
                    MigrationAction::RemoveStaging
                }
            },
            MigrationAction::RemoveStaging => MigrationAction::BuildPlan,
            MigrationAction::BuildPlan => {
                if self.transaction {
                    MigrationAction::CompareManifest
                } else {
                    MigrationAction::RecordTransaction
                }
            },
            MigrationAction::CompareManifest => MigrationAction::Publish,
            MigrationAction::RecordTransaction => MigrationAction::Publish,
            MigrationAction::Publish => MigrationAction::FindTarget,
            MigrationAction::FindTarget => MigrationAction::ValidateTarget,
            MigrationAction::LookForSources => MigrationAction::ValidateTarget,
            MigrationAction::ValidateTarget => {
                if !self.transaction && self.target {
                    MigrationAction::Done
                } else {
                    MigrationAction::RemoveMarker
                }
            },
            MigrationAction::RemoveMarker => MigrationAction::RetireSources,
            MigrationAction::RetireSources => MigrationAction::ClearTransaction,
            MigrationAction::ClearTransaction => MigrationAction::Done,
            MigrationAction::Done => MigrationAction::Done,
        };
        Ok(())
    }
}

/// Nothing of a session goes before all of it has come over: its sources are retired only
/// behind the marker, which is removed only behind the conversation that was accepted;
/// and what was written down of the move is cleared only behind the sources.
pub proof fn law_sources_go_last(action: MigrationAction, transaction: bool, target: bool)
    requires
        action !is Done,
    ensures
        following(action, transaction, target) is RetireSources ==> action is RemoveMarker,
        following(action, transaction, target) is RemoveMarker ==> action is ValidateTarget && (
        transaction || !target),
        following(action, transaction, target) is ClearTransaction ==> action is RetireSources,
        following(action, transaction, target) is Publish ==> action is RecordTransaction || action
            is CompareManifest,
        first_action(transaction, target) !is RetireSources,
        first_action(transaction, target) !is RemoveMarker,
        first_action(transaction, target) !is ClearTransaction,
        first_action(transaction, target) !is Publish,
{
}

/// The order of the actions.
pub open spec fn migration_rank(action: MigrationAction) -> int {
    match action {
        MigrationAction::ValidateTransaction => 0,
        MigrationAction::RemoveStaging => 1,
        MigrationAction::BuildPlan => 2,
        MigrationAction::CompareManifest => 3,
        MigrationAction::RecordTransaction => 3,
        MigrationAction::Publish => 4,
        MigrationAction::FindTarget => 5,
        MigrationAction::LookForSources => 5,
        MigrationAction::ValidateTarget => 6,
        MigrationAction::RemoveMarker => 7,
        MigrationAction::RetireSources => 8,
        MigrationAction::ClearTransaction => 9,
        MigrationAction::Done => 10,
    }
}

/// Moving a session goes on until it is done.
pub proof fn law_migration_goes_on(action: MigrationAction, transaction: bool, target: bool)
    requires
        action !is Done,
    ensures
        migration_rank(following(action, transaction, target)) > migration_rank(action),
{
}

/// Whether a move was written down.
pub fn legacy_migration_transaction_is_present(found: RealFile) -> (result: Result<
    bool,
    RuntimeError,
>)
    ensures
        error::failure(result) == reclamation::real_file_failure(found, "migration transaction"@),
        result matches Ok(present) ==> present == (found is File),
{
    anchored_real_file_present(found, "migration transaction")
}

/// Whether there is anything to move: a move that was written down, or a session.
pub fn legacy_migration_is_present(
    transaction: Result<bool, RuntimeError>,
    source: Result<bool, RuntimeError>,
) -> (result: Result<bool, RuntimeError>)
    ensures
        error::failure(result) == (match transaction {
            Err(error) => Some(error@),
            Ok(present) => if present {
                None
            } else {
                error::failure(source)
            },
        }),
        result matches Ok(present) ==> present == (transaction->Ok_0 || source->Ok_0),
{
    if transaction? {
        return Ok(true);
    }
    source
}

/// How a session of the former layout is read.
#[derive(Clone, Copy, Debug, PartialEq, Eq, Structural)]
pub enum Compatibility {
    /// There is none.
    Absent,
    /// It is read where it lies.
    Available,
    /// It has been moved in part: that is finished first.
    Migrate,
}

/// What is wrong with reading a session of the former layout.
pub open spec fn compatibility_failure(
    session_id: Checked,
    source: Result<bool, RuntimeError>,
    target: Result<bool, RuntimeError>,
    transaction: Result<bool, RuntimeError>,
) -> Option<ErrorModel> {
    if !session_id.valid {
        error::usage_failure("invalid session_id "@ + text::quoted(session_id.text@))
    } else {
        match source {
            Err(error) => Some(error@),
            Ok(source) => if !source {
                None
            } else {
                match target {
                    Err(error) => Some(error@),
                    Ok(target) => if target {
                        None
                    } else {
                        error::failure(transaction)
                    },
                }
            },
        }
    }
}

/// How a session of the former layout is read: where it lies, as long as nothing of it
/// was moved.
pub fn legacy_flat_compatibility_is_available(
    session_id: &Checked,
    source: Result<bool, RuntimeError>,
    target: Result<bool, RuntimeError>,
    transaction: Result<bool, RuntimeError>,
) -> (result: Result<Compatibility, RuntimeError>)
    ensures
        error::failure(result) == compatibility_failure(*session_id, source, target, transaction),
        result matches Ok(compatibility) ==> compatibility == (if !source->Ok_0 {
            Compatibility::Absent
        } else if target->Ok_0 || transaction->Ok_0 {
            Compatibility::Migrate
        } else {
            Compatibility::Available
        }),
{
    if !session_id.valid {
        let words = quoted_text(session_id.text.as_str());
        let message = join2("invalid session_id ", words.as_str());
        return Err(usage(message.as_str()));
    }
    if !source? {
        return Ok(Compatibility::Absent);
    }
    if target? {
        return Ok(Compatibility::Migrate);
    }
    if transaction? {
        return Ok(Compatibility::Migrate);
    }
    Ok(Compatibility::Available)
}

/// Whether a session of the former layout has ended, by whether its last event ends it;
/// nothing where it cannot be read where it lies.
pub fn legacy_session_is_terminal(compatibility: Compatibility, last_ends_session: Option<bool>) -> (terminal:
    Option<bool>)
    ensures
        terminal == (if compatibility != Compatibility::Available {
            None
        } else {
            Some(last_ends_session == Some(true))
        }),
{
    if compatibility != Compatibility::Available {
        return None;
    }
    match last_ends_session {
        Some(ends) => Some(ends),
        None => Some(false),
    }
}

/// Where holding the leases of a move stands.
#[derive(Clone, Copy, Debug, PartialEq, Eq, Structural)]
pub enum LeaseStage {
    AcquireLegacy,
    AcquireConversation,
    AcquireRun,
    Operate,
    ReleaseRun,
    ReleaseConversation,
    ReleaseLegacy,
    Done,
}

/// The leases of a move: of the session, of the conversation and of the run.
pub struct MigrationLeases {
    pub stage: LeaseStage,
    pub legacy: bool,
    pub conversation: bool,
    pub run: bool,
    /// What went wrong, in order.
    pub failures: Vec<RuntimeError>,
}

/// The leases, without what went wrong.
pub struct LeasesModel {
    pub stage: LeaseStage,
    pub legacy: bool,
    pub conversation: bool,
    pub run: bool,
}

/// The leases behind a stage.
pub open spec fn leases_behind(leases: LeasesModel, failed: bool) -> LeasesModel {
    match leases.stage {
        LeaseStage::AcquireLegacy => if failed {
            LeasesModel { stage: LeaseStage::Done, ..leases }
        } else {
            LeasesModel { stage: LeaseStage::AcquireConversation, legacy: true, ..leases }
        },
        LeaseStage::AcquireConversation => if failed {
            LeasesModel { stage: LeaseStage::ReleaseLegacy, ..leases }
        } else {
            LeasesModel { stage: LeaseStage::AcquireRun, conversation: true, ..leases }
        },
        LeaseStage::AcquireRun => if failed {
            LeasesModel { stage: LeaseStage::ReleaseConversation, ..leases }
        } else {
            LeasesModel { stage: LeaseStage::Operate, run: true, ..leases }
        },
        LeaseStage::Operate => LeasesModel { stage: LeaseStage::ReleaseRun, ..leases },
        LeaseStage::ReleaseRun => LeasesModel {
            stage: LeaseStage::ReleaseConversation,
            run: false,
            ..leases
        },
        LeaseStage::ReleaseConversation => LeasesModel {
            stage: LeaseStage::ReleaseLegacy,
            conversation: false,
            ..leases
        },
        LeaseStage::ReleaseLegacy => LeasesModel { stage: LeaseStage::Done, legacy: false, ..leases },
        LeaseStage::Done => leases,
    }
}

/// Whether the leases are held that a stage needs, and no others.
pub open spec fn leases_sound(leases: LeasesModel) -> bool {
    let (legacy, conversation, run) = match leases.stage {
        LeaseStage::AcquireLegacy => (false, false, false),
        LeaseStage::AcquireConversation => (true, false, false),
        LeaseStage::AcquireRun => (true, true, false),
        LeaseStage::Operate => (true, true, true),
        LeaseStage::ReleaseRun => (true, true, true),
        LeaseStage::ReleaseConversation => (true, true, false),
        LeaseStage::ReleaseLegacy => (true, false, false),
        LeaseStage::Done => (false, false, false),
    };
    leases.legacy == legacy && leases.conversation == conversation && leases.run == run
}

/// Whatever goes wrong, a move holds all its leases while it works and none when it is
/// done.
pub proof fn law_migration_leases(leases: LeasesModel, failed: bool)
    requires
        leases_sound(leases),
    ensures
        leases_sound(leases_behind(leases, failed)),
{
}

impl MigrationLeases {
    /// The leases, without what went wrong.
    pub open spec fn model(self) -> LeasesModel {
        LeasesModel {
            stage: self.stage,
            legacy: self.legacy,
            conversation: self.conversation,
            run: self.run,
        }
    }

    /// No lease, for a session whose identifier is accepted.
    pub fn migrate_legacy_session(session_id: &Checked) -> (result: Result<
        MigrationLeases,
        RuntimeError,
    >)
        ensures
            error::failure(result) == contract::id_failure(session_id@, "legacy session"@),
            result matches Ok(leases) ==> {
                &&& leases.stage is AcquireLegacy
                &&& !leases.legacy && !leases.conversation && !leases.run
                &&& leases_sound(leases.model())
                &&& leases.failures@.len() == 0
            },
    {
        validate_id(session_id, "legacy session")?;
        Ok(
            MigrationLeases {
                stage: LeaseStage::AcquireLegacy,
                legacy: false,
                conversation: false,
                run: false,
                failures: Vec::new(),
            },
        )
    }

    /// Goes on by what came of the stage.
    pub fn advance(&mut self, outcome: Result<(), RuntimeError>)
        requires
            leases_sound(old(self).model()),
            old(self).stage !is Done,
        ensures
            leases_sound(final(self).model()),
            final(self).model() == leases_behind(old(self).model(), outcome is Err),
            error::failures_view(final(self).failures@) == error::failures_view(old(self).failures@)
                + error::optional_failure(error::failure(outcome)),
    {
        let ghost before = error::failures_view(self.failures@);
        proof {
            law_migration_leases(self.model(), outcome is Err);
        }
        let failed = outcome.is_err();
        if let Err(error) = outcome {
            self.failures.push(error);
        }
        assert(error::failures_view(self.failures@) =~= before + error::optional_failure(error::failure(outcome)));
        match self.stage {
            LeaseStage::AcquireLegacy => {
                if failed {
                    self.stage = LeaseStage::Done;
                } else {
                    self.legacy = true;
                    self.stage = LeaseStage::AcquireConversation;
                }
            },
            LeaseStage::AcquireConversation => {
                if failed {
                    self.stage = LeaseStage::ReleaseLegacy;
                } else {
                    self.conversation = true;
                    self.stage = LeaseStage::AcquireRun;
                }
            },
            LeaseStage::AcquireRun => {
                if failed {
                    self.stage = LeaseStage::ReleaseConversation;
                } else {
                    self.run = true;
                    self.stage = LeaseStage::Operate;
                }
            },
            LeaseStage::Operate => {
                self.stage = LeaseStage::ReleaseRun;
            },
            LeaseStage::ReleaseRun => {
                self.run = false;
                self.stage = LeaseStage::ReleaseConversation;
            },
            LeaseStage::ReleaseConversation => {
                self.conversation = false;
                self.stage = LeaseStage::ReleaseLegacy;
            },
            LeaseStage::ReleaseLegacy => {
                self.legacy = false;
                self.stage = LeaseStage::Done;
            },
            LeaseStage::Done => {},
        }
    }
}

/// The course of a migration is that of what was found. A session of which nothing was
/// migrated is planned, recorded, published, looked at again, and its sources retired. One
/// whose migration was recorded is taken up where it stopped: without its target its stage is
/// removed and its sources must be those recorded; with its target that is validated at once.
/// One that was migrated before is only validated, and must have left no sources.
pub proof fn law_course_of_a_migration()
    ensures
        ({
            let first = first_action(false, false);
            let next = |action: MigrationAction| following(action, false, false);
            &&& first is BuildPlan
            &&& next(first) is RecordTransaction
            &&& next(next(first)) is Publish
            &&& next(next(next(first))) is FindTarget
            &&& next(next(next(next(first)))) is ValidateTarget
            &&& next(next(next(next(next(first))))) is RemoveMarker
            &&& next(next(next(next(next(next(first)))))) is RetireSources
            &&& next(next(next(next(next(next(next(first))))))) is ClearTransaction
            &&& next(next(next(next(next(next(next(next(first)))))))) is Done
        }),
        ({
            let first = first_action(true, false);
            let next = |action: MigrationAction| following(action, true, false);
            &&& first is ValidateTransaction
            &&& next(first) is RemoveStaging
            &&& next(next(first)) is BuildPlan
            &&& next(next(next(first))) is CompareManifest
            &&& next(next(next(next(first)))) is Publish
            &&& next(next(next(next(next(first))))) is FindTarget
            &&& next(next(next(next(next(next(first)))))) is ValidateTarget
            &&& next(next(next(next(next(next(next(first))))))) is RemoveMarker
            &&& next(next(next(next(next(next(next(next(first)))))))) is RetireSources
            &&& next(next(next(next(next(next(next(next(next(first))))))))) is ClearTransaction
            &&& next(next(next(next(next(next(next(next(next(next(first)))))))))) is Done
        }),
        ({
            let first = first_action(true, true);
            let next = |action: MigrationAction| following(action, true, true);
            &&& first is ValidateTransaction
            &&& next(first) is ValidateTarget
            &&& next(next(first)) is RemoveMarker
            &&& next(next(next(first))) is RetireSources
            &&& next(next(next(next(first)))) is ClearTransaction
            &&& next(next(next(next(next(first))))) is Done
        }),
        ({
            let first = first_action(false, true);
            let next = |action: MigrationAction| following(action, false, true);
            &&& first is LookForSources
            &&& next(first) is ValidateTarget
            &&& next(next(first)) is Done
        }),
{
}

/// A migration takes the session, the conversation and the run in this order before it works,
/// and gives back what it took in the other order, whatever happens.
pub proof fn law_course_of_the_leases(leases: LeasesModel, failed: bool)
    requires
        leases_sound(leases),
    ensures
        ({
            let next = leases_behind(leases, failed);
            &&& leases.stage is AcquireLegacy ==> (if failed {
                next.stage is Done && !next.legacy
            } else {
                next.stage is AcquireConversation && next.legacy
            })
            &&& leases.stage is AcquireConversation ==> (if failed {
                next.stage is ReleaseLegacy && !next.conversation
            } else {
                next.stage is AcquireRun && next.conversation
            })
            &&& leases.stage is AcquireRun ==> (if failed {
                next.stage is ReleaseConversation && !next.run
            } else {
                next.stage is Operate && next.run
            })
            &&& leases.stage is Operate ==> next.stage is ReleaseRun
            &&& leases.stage is ReleaseRun ==> next.stage is ReleaseConversation && !next.run
            &&& leases.stage is ReleaseConversation ==> next.stage is ReleaseLegacy
                && !next.conversation
            &&& leases.stage is ReleaseLegacy ==> next.stage is Done && !next.legacy
            &&& next.stage is Operate ==> next.legacy && next.conversation && next.run
            &&& next.stage is Done ==> !next.legacy && !next.conversation && !next.run
        }),
{
}

} // verus!
