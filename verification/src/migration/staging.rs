//! Publishing the stage of a session that is being moved, and taking away one that moving
//! left behind.

use crate::contract::DirectoryIdentity;
use crate::error::{protocol, ErrorModel, RuntimeError};
use crate::error;
use crate::migration::stage::{check_staging_identity, check_staging_marker};
use crate::migration::stage;
use crate::status::run_mutation;
use vstd::prelude::*;

verus! {

/// What is to be done next to publish a stage.
#[derive(Clone, Copy, Debug, PartialEq, Eq, Structural)]
pub enum PublishStage {
    /// See that nothing has the name of the stage.
    Look,
    Create,
    Open,
    /// Put everything into it.
    Populate,
    /// Give it the name of the conversation.
    Rename,
    /// Make the directory of the sessions durable.
    Sync,
    Done,
}

/// The stage behind another one.
pub open spec fn next_publish(stage: PublishStage) -> PublishStage {
    match stage {
        PublishStage::Look => PublishStage::Create,
        PublishStage::Create => PublishStage::Open,
        PublishStage::Open => PublishStage::Populate,
        PublishStage::Populate => PublishStage::Rename,
        PublishStage::Rename => PublishStage::Sync,
        PublishStage::Sync => PublishStage::Done,
        PublishStage::Done => PublishStage::Done,
    }
}

/// What is wrong with how a stage came out; `there` is whether what was looked for or
/// opened is there.
pub open spec fn publish_failure(stage: PublishStage, outcome: Result<bool, RuntimeError>) -> Option<
    ErrorModel,
> {
    match outcome {
        Err(error) => Some(error@),
        Ok(there) => match stage {
            PublishStage::Look => if there {
                error::protocol_failure("legacy migration staging path already exists"@)
            } else {
                None
            },
            PublishStage::Open => if !there {
                error::protocol_failure("legacy migration staging directory disappeared"@)
            } else {
                None
            },
            _ => None,
        },
    }
}

/// Publishing a stage: what is to be done next.
pub fn publish_migration_stage(stage: PublishStage, outcome: Result<bool, RuntimeError>) -> (result:
    Result<PublishStage, RuntimeError>)
    ensures
        error::failure(result) == publish_failure(stage, outcome),
        result matches Ok(next) ==> next == next_publish(stage),
{
    let there = outcome?;
    match stage {
        PublishStage::Look => {
            if there {
                return Err(protocol("legacy migration staging path already exists"));
            }
            Ok(PublishStage::Create)
        },
        PublishStage::Create => Ok(PublishStage::Open),
        PublishStage::Open => {
            if !there {
                return Err(protocol("legacy migration staging directory disappeared"));
            }
            Ok(PublishStage::Populate)
        },
        PublishStage::Populate => Ok(PublishStage::Rename),
        PublishStage::Rename => Ok(PublishStage::Sync),
        PublishStage::Sync => Ok(PublishStage::Done),
        PublishStage::Done => Ok(PublishStage::Done),
    }
}

/// What is to be done next to take away a stage that was left behind.
#[derive(Clone, Copy, Debug, PartialEq, Eq, Structural)]
pub enum RemovalStage {
    /// Open it, where it is there, and read its identity.
    Find,
    /// See that it is such a stage.
    Validate,
    /// Take away everything but the marker.
    RemoveOthers,
    /// Read the marker.
    ReadMarker,
    /// Take the marker away.
    RemoveMarker,
    /// Make the stage durable.
    SyncStage,
    /// Open it again, and read its identity.
    Rebind,
    /// Take it away.
    RemoveDirectory,
    /// Make the directory of the sessions durable.
    SyncSessions,
    Done,
}

/// How a stage of taking away came out.
pub enum RemovalOutcome {
    Done,
    /// What was opened, where it is there.
    Opened(Option<DirectoryIdentity>),
    /// Whether the marker is there.
    Validated(bool),
    Marker(String),
}

/// Whether an outcome is one of a stage.
pub open spec fn outcome_fits(stage: RemovalStage, outcome: RemovalOutcome) -> bool {
    match stage {
        RemovalStage::Find | RemovalStage::Rebind => outcome is Opened,
        RemovalStage::Validate => outcome is Validated,
        RemovalStage::ReadMarker => outcome is Marker,
        _ => outcome is Done,
    }
}

/// A stage that is being taken away.
pub struct StagingRemoval {
    pub stage: RemovalStage,
    pub identity: Option<DirectoryIdentity>,
    pub marker: bool,
}

/// What is wrong with how a stage of taking away came out.
pub open spec fn removal_failure(
    removal: StagingRemoval,
    outcome: Result<RemovalOutcome, RuntimeError>,
    staging_identity: Seq<char>,
) -> Option<ErrorModel> {
    match outcome {
        Err(error) => Some(error@),
        Ok(outcome) => match (removal.stage, outcome) {
            (RemovalStage::ReadMarker, RemovalOutcome::Marker(text)) => stage::marker_text_failure(
                Ok(text),
                staging_identity,
            ),
            (RemovalStage::Rebind, RemovalOutcome::Opened(current)) => run_mutation::going_failure(
                current,
                removal.identity->0,
                "legacy migration staging directory disappeared"@,
                "legacy migration staging directory identity changed during cleanup"@,
            ),
            _ => None,
        },
    }
}

/// What is to be done behind a stage.
pub open spec fn behind_removal(stage: RemovalStage, outcome: RemovalOutcome, marker: bool) -> RemovalStage {
    match stage {
        RemovalStage::Find => if outcome == RemovalOutcome::Opened(None) {
            RemovalStage::Done
        } else {
            RemovalStage::Validate
        },
        RemovalStage::Validate => RemovalStage::RemoveOthers,
        RemovalStage::RemoveOthers => if marker {
            RemovalStage::ReadMarker
        } else {
            RemovalStage::Rebind
        },
        RemovalStage::ReadMarker => RemovalStage::RemoveMarker,
        RemovalStage::RemoveMarker => RemovalStage::SyncStage,
        RemovalStage::SyncStage => RemovalStage::Rebind,
        RemovalStage::Rebind => RemovalStage::RemoveDirectory,
        RemovalStage::RemoveDirectory => RemovalStage::SyncSessions,
        RemovalStage::SyncSessions => RemovalStage::Done,
        RemovalStage::Done => RemovalStage::Done,
    }
}

/// How many stages are left at most.
pub open spec fn removal_rank(stage: RemovalStage) -> int {
    match stage {
        RemovalStage::Find => 9,
        RemovalStage::Validate => 8,
        RemovalStage::RemoveOthers => 7,
        RemovalStage::ReadMarker => 6,
        RemovalStage::RemoveMarker => 5,
        RemovalStage::SyncStage => 4,
        RemovalStage::Rebind => 3,
        RemovalStage::RemoveDirectory => 2,
        RemovalStage::SyncSessions => 1,
        RemovalStage::Done => 0,
    }
}

impl StagingRemoval {
    /// The identity of the stage is known once it was found.
    pub open spec fn wf(self) -> bool {
        !(self.stage is Find) && !(self.stage is Done) ==> self.identity is Some
    }

    /// A stage of which nothing is taken away.
    pub fn remove_recoverable_staging() -> (removal: StagingRemoval)
        ensures
            removal.wf(),
            removal.stage is Find,
            removal.identity is None,
            !removal.marker,
    {
        StagingRemoval { stage: RemovalStage::Find, identity: None, marker: false }
    }

    /// Goes on by how the stage came out: the marker goes after everything else, and only
    /// where it is the one that the transaction names; and the directory goes only where
    /// it is the one that was emptied.
    pub fn advance(
        &mut self,
        outcome: Result<RemovalOutcome, RuntimeError>,
        staging_identity: &str,
    ) -> (result: Result<(), RuntimeError>)
        requires
            old(self).wf(),
            outcome matches Ok(outcome) ==> outcome_fits(old(self).stage, outcome),
        ensures
            final(self).wf(),
            error::failure(result) == removal_failure(*old(self), outcome, staging_identity@),
            result is Ok ==> {
                &&& final(self).marker == (match outcome->Ok_0 {
                    RemovalOutcome::Validated(marker) => marker,
                    _ => old(self).marker,
                })
                &&& final(self).identity == (match (old(self).stage, outcome->Ok_0) {
                    (RemovalStage::Find, RemovalOutcome::Opened(found)) => found,
                    _ => old(self).identity,
                })
                &&& final(self).stage == behind_removal(
                    old(self).stage,
                    outcome->Ok_0,
                    final(self).marker,
                )
            },
            result is Err ==> *final(self) == *old(self),
    {
        match outcome? {
            RemovalOutcome::Opened(current) => {
                match self.stage {
                    RemovalStage::Find => {
                        self.identity = current;
                        self.stage = if current.is_some() {
                            RemovalStage::Validate
                        } else {
                            RemovalStage::Done
                        };
                    },
                    _ => {
                        match self.identity {
                            Some(expected) => {
                                check_staging_identity(current, expected)?;
                            },
                            None => {},
                        }
                        self.stage = RemovalStage::RemoveDirectory;
                    },
                }
            },
            RemovalOutcome::Validated(marker) => {
                self.marker = marker;
                self.stage = RemovalStage::RemoveOthers;
            },
            RemovalOutcome::Marker(text) => {
                check_staging_marker(Ok(text), staging_identity)?;
                self.stage = RemovalStage::RemoveMarker;
            },
            RemovalOutcome::Done => {
                self.stage = match self.stage {
                    RemovalStage::RemoveOthers => {
                        if self.marker {
                            RemovalStage::ReadMarker
                        } else {
                            RemovalStage::Rebind
                        }
                    },
                    RemovalStage::RemoveMarker => RemovalStage::SyncStage,
                    RemovalStage::SyncStage => RemovalStage::Rebind,
                    RemovalStage::RemoveDirectory => RemovalStage::SyncSessions,
                    RemovalStage::SyncSessions => RemovalStage::Done,
                    _ => RemovalStage::Done,
                };
            },
        }
        Ok(())
    }
}

/// Taking a stage away comes to an end, and its marker goes only once everything else has.
pub proof fn law_staging_removal_goes_on(stage: RemovalStage, outcome: RemovalOutcome, marker: bool)
    requires
        stage !is Done,
    ensures
        removal_rank(behind_removal(stage, outcome, marker)) < removal_rank(stage),
        behind_removal(stage, outcome, marker) is RemoveMarker ==> stage is ReadMarker,
        behind_removal(stage, outcome, marker) is ReadMarker ==> stage is RemoveOthers && marker,
{
}

/// A stage is published in one order: it must not be there, is created, opened, populated,
/// renamed and made durable.
pub proof fn law_stage_is_published_in_order(there: bool)
    ensures
        next_publish(PublishStage::Look) is Create,
        next_publish(PublishStage::Create) is Open,
        next_publish(PublishStage::Open) is Populate,
        next_publish(PublishStage::Populate) is Rename,
        next_publish(PublishStage::Rename) is Sync,
        next_publish(PublishStage::Sync) is Done,
        publish_failure(PublishStage::Look, Ok(there)) is None <==> !there,
        publish_failure(PublishStage::Open, Ok(there)) is None <==> there,
{
}

/// A stage is removed in one order: found, validated, emptied but for its marker, the marker
/// read, removed and made durable, and the directory, which must be the same, removed too. One
/// that is not there needs no removal.
pub proof fn law_stage_is_removed_in_order(
    outcome: RemovalOutcome,
    identity: DirectoryIdentity,
    marker: bool,
)
    ensures
        behind_removal(RemovalStage::Find, RemovalOutcome::Opened(None), marker) is Done,
        behind_removal(RemovalStage::Find, RemovalOutcome::Opened(Some(identity)), marker)
            is Validate,
        behind_removal(RemovalStage::Validate, outcome, marker) is RemoveOthers,
        behind_removal(RemovalStage::RemoveOthers, outcome, true) is ReadMarker,
        behind_removal(RemovalStage::RemoveOthers, outcome, false) is Rebind,
        behind_removal(RemovalStage::ReadMarker, outcome, marker) is RemoveMarker,
        behind_removal(RemovalStage::RemoveMarker, outcome, marker) is SyncStage,
        behind_removal(RemovalStage::SyncStage, outcome, marker) is Rebind,
        behind_removal(RemovalStage::Rebind, outcome, marker) is RemoveDirectory,
        behind_removal(RemovalStage::RemoveDirectory, outcome, marker) is SyncSessions,
        behind_removal(RemovalStage::SyncSessions, outcome, marker) is Done,
{
}

} // verus!
