//! Making a run: in a directory of its own that is published whole, so that whatever
//! happens, the run is there with all it holds or can be taken away again.

use crate::contract::{validate_hash, validate_id, Checked, DirectoryIdentity, CONVERSATION_HISTORY_LEAF, CONVERSATION_RUNS_DIR, CONVERSATION_STATUS_LEAF, RUN_LOG_RECORD_SCHEMA_V1};
use crate::contract;
use crate::digest::sha256_hex;
use crate::digest;
use crate::error::{protocol, usage, ErrorModel, RuntimeError};
use crate::error;
use crate::lifecycle::recovery;
use crate::listing::{reversed, ListedName};
use crate::runs::attempts::{RunDefinition, RunLogRecord};
use crate::status::run_mutation;
use crate::status::summary::MAX_CONVERSATION_STATUS_SUMMARY_BYTES;
use crate::stream::framing::LINE_FEED;
use crate::text::{append_text, join3, same_text};
use crate::text;
use vstd::prelude::*;
use vstd::utf8::*;

verus! {

/// What a run is to be made of.
pub struct CreationRequest {
    pub conversation_id: Checked,
    pub run_session_id: Checked,
    /// A block identifier.
    pub flow_definition_id: Checked,
    pub registry_hash: String,
    pub flow_definition_hash: String,
    pub productive_model: Option<ProductiveModel>,
    pub unpublished_productive_run: bool,
}

/// The model that a run asks, and how much of a context it takes.
pub struct ProductiveModel {
    pub model: String,
    pub profile_id: String,
    pub context_limit: usize,
    pub output_reserve: usize,
    pub safety_margin: usize,
}

/// What is wrong with what a run is to be made of.
pub open spec fn request_failure(request: CreationRequest) -> Option<ErrorModel> {
    error::first_failure(
        contract::id_failure(request.conversation_id@, "conversation"@),
        error::first_failure(
            contract::id_failure(request.run_session_id@, "run session"@),
            if !request.flow_definition_id.valid {
                error::protocol_failure("Flow definition id is invalid"@)
            } else {
                error::first_failure(
                    contract::hash_failure(request.registry_hash@, "registry hash"@),
                    contract::hash_failure(request.flow_definition_hash@, "Flow definition hash"@),
                )
            },
        ),
    )
}

/// Accepts what a run is to be made of.
pub fn check_creation_request(request: &CreationRequest) -> (result: Result<(), RuntimeError>)
    ensures
        error::failure(result) == request_failure(*request),
{
    validate_id(&request.conversation_id, "conversation")?;
    validate_id(&request.run_session_id, "run session")?;
    if !request.flow_definition_id.valid {
        return Err(protocol("Flow definition id is invalid"));
    }
    validate_hash(request.registry_hash.as_str(), "registry hash")?;
    validate_hash(request.flow_definition_hash.as_str(), "Flow definition hash")
}

/// What the identity of a stage is taken over: all that the run is made of, with a
/// zero character between each two parts.
pub open spec fn staging_content(request: CreationRequest) -> Seq<char> {
    request.conversation_id.text@ + "\0"@ + request.run_session_id.text@ + "\0"@
        + request.flow_definition_id.text@ + "\0"@ + request.registry_hash@ + "\0"@
        + request.flow_definition_hash@ + "\0"@ + (if request.unpublished_productive_run {
        "true"@
    } else {
        "false"@
    }) + "\0"@ + "flow-run-creation-stage-v0"@
}

/// The identity of the stage of a run.
pub fn staging_identity(request: &CreationRequest) -> (identity: String)
    ensures
        identity@ == digest::digest_text(encode_utf8(staging_content(*request))),
{
    let mut content = request.conversation_id.text.clone();
    append_text(&mut content, "\0");
    append_text(&mut content, request.run_session_id.text.as_str());
    append_text(&mut content, "\0");
    append_text(&mut content, request.flow_definition_id.text.as_str());
    append_text(&mut content, "\0");
    append_text(&mut content, request.registry_hash.as_str());
    append_text(&mut content, "\0");
    append_text(&mut content, request.flow_definition_hash.as_str());
    append_text(&mut content, "\0");
    let unpublished = if request.unpublished_productive_run {
        "true"
    } else {
        "false"
    };
    append_text(&mut content, unpublished);
    append_text(&mut content, "\0");
    append_text(&mut content, "flow-run-creation-stage-v0");
    assert(content@ =~= staging_content(*request));
    sha256_hex(content.as_str().as_bytes())
}

/// The record with which the log of a run begins.
pub fn creation_definition(request: &CreationRequest) -> (record: RunLogRecord)
    ensures
        record matches RunLogRecord::Definition { schema, definition } && {
            &&& schema@ == RUN_LOG_RECORD_SCHEMA_V1@
            &&& definition.flow_definition_id == request.flow_definition_id
            &&& definition.registry_hash@ == request.registry_hash@
            &&& definition.flow_definition_hash@ == request.flow_definition_hash@
            &&& definition.legacy_session_id is None
            &&& definition.legacy_source_manifest is None
            &&& match request.productive_model {
                None => definition.model is None && definition.model_profile_id is None
                    && definition.model_context_limit is None && definition.output_reserve is None
                    && definition.safety_margin is None,
                Some(model) => text::optional_view(definition.model) == Some(model.model@)
                    && text::optional_view(definition.model_profile_id) == Some(model.profile_id@)
                    && definition.model_context_limit == Some(model.context_limit)
                    && definition.output_reserve == Some(model.output_reserve)
                    && definition.safety_margin == Some(model.safety_margin),
            }
        },
{
    let (model, model_profile_id, model_context_limit, output_reserve, safety_margin) =
        match &request.productive_model {
        None => (None, None, None, None, None),
        Some(model) => (
            Some(model.model.clone()),
            Some(model.profile_id.clone()),
            Some(model.context_limit),
            Some(model.output_reserve),
            Some(model.safety_margin),
        ),
    };
    RunLogRecord::Definition {
        schema: RUN_LOG_RECORD_SCHEMA_V1.to_owned(),
        definition: RunDefinition {
            flow_definition_id: request.flow_definition_id.clone(),
            registry_hash: request.registry_hash.clone(),
            flow_definition_hash: request.flow_definition_hash.clone(),
            model,
            model_profile_id,
            model_context_limit,
            output_reserve,
            safety_margin,
            legacy_session_id: None,
            legacy_source_manifest: None,
        },
    }
}

/// The digest of the log of a run that holds its definition alone, given the canonical
/// form of the definition.
pub fn definition_digest(canonical: &str) -> (digest: String)
    ensures
        digest@ == digest::digest_text(encode_utf8(canonical@).push(LINE_FEED)),
{
    let mut bytes = vstd::slice::slice_to_vec(canonical.as_bytes());
    bytes.push(LINE_FEED);
    sha256_hex(bytes.as_slice())
}

/// What is done next to make a run, or to take it away again.
#[derive(Clone, Copy, Debug, PartialEq, Eq, Structural)]
pub enum CreationAction {
    /// Put the marker of its own into the new conversation.
    PrepareMarker,
    CreateHistory,
    CreateSummary,
    SyncConversation,
    /// Open the history of the conversation that is there.
    OpenHistory,
    RecoverStatus,
    ReadSummary,
    OpenRuns,
    LookForRun,
    LookForStage,
    /// Take away an empty stage of which nothing was written down.
    RemoveStage,
    MakeStage,
    /// Open the stage and take its identity.
    AnchorStage,
    CreateStageMarker,
    SyncStageMarker,
    /// Write down that the run is about to be made.
    RecordTransaction,
    CreateObjects,
    CreateEvents,
    CreateContexts,
    CreateLock,
    CreateLog,
    CreateUnpublishedMarker,
    SyncStage,
    /// See that the stage is still the one that was made.
    CheckStage,
    PublishStage,
    SyncRuns,
    SyncSessions,
    FinishTransaction,
    ClearMarker,
    /// Take away the run, under its own name where it was published.
    CleanRun { published: bool },
    RecoverAfterFailure,
    CleanConversation,
    Done,
}

/// Whether an action is part of taking away a run that could not be made.
pub open spec fn is_cleaning(action: CreationAction) -> bool {
    action is CleanRun || action is RecoverAfterFailure || action is CleanConversation
        || action is Done
}

/// The order of the actions.
pub open spec fn rank(action: CreationAction) -> int {
    match action {
        CreationAction::PrepareMarker => 0,
        CreationAction::CreateHistory => 1,
        CreationAction::CreateSummary => 2,
        CreationAction::SyncConversation => 3,
        CreationAction::OpenHistory => 0,
        CreationAction::RecoverStatus => 1,
        CreationAction::ReadSummary => 2,
        CreationAction::OpenRuns => 4,
        CreationAction::LookForRun => 5,
        CreationAction::LookForStage => 6,
        CreationAction::RemoveStage => 7,
        CreationAction::MakeStage => 8,
        CreationAction::AnchorStage => 9,
        CreationAction::CreateStageMarker => 10,
        CreationAction::SyncStageMarker => 11,
        CreationAction::RecordTransaction => 12,
        CreationAction::CreateObjects => 13,
        CreationAction::CreateEvents => 14,
        CreationAction::CreateContexts => 15,
        CreationAction::CreateLock => 16,
        CreationAction::CreateLog => 17,
        CreationAction::CreateUnpublishedMarker => 18,
        CreationAction::SyncStage => 19,
        CreationAction::CheckStage => 20,
        CreationAction::PublishStage => 21,
        CreationAction::SyncRuns => 22,
        CreationAction::SyncSessions => 23,
        CreationAction::FinishTransaction => 24,
        CreationAction::ClearMarker => 25,
        CreationAction::CleanRun { .. } => 26,
        CreationAction::RecoverAfterFailure => 27,
        CreationAction::CleanConversation => 28,
        CreationAction::Done => 29,
    }
}

/// What came of an action.
pub enum CreationReply {
    Done,
    /// Something stands under the name that was looked for.
    Found,
    Failed(RuntimeError),
}

/// A run that is being made.
pub struct RunCreation {
    pub conversation_id: String,
    pub run_session_id: String,
    /// Whether the conversation was made for it.
    pub conversation_is_new: bool,
    pub unpublished_productive_run: bool,
    pub action: CreationAction,
    /// What went wrong, in order.
    pub failures: Vec<RuntimeError>,
    /// Whether taking the run away went wrong.
    pub cleanup_failed: bool,
}

/// The action behind one that succeeded.
pub open spec fn following(action: CreationAction, new: bool, unpublished: bool, found: bool) -> CreationAction {
    match action {
        CreationAction::PrepareMarker => CreationAction::CreateHistory,
        CreationAction::CreateHistory => CreationAction::CreateSummary,
        CreationAction::CreateSummary => CreationAction::SyncConversation,
        CreationAction::SyncConversation => CreationAction::OpenRuns,
        CreationAction::OpenHistory => CreationAction::RecoverStatus,
        CreationAction::RecoverStatus => CreationAction::ReadSummary,
        CreationAction::ReadSummary => CreationAction::OpenRuns,
        CreationAction::OpenRuns => CreationAction::LookForRun,
        CreationAction::LookForRun => CreationAction::LookForStage,
        CreationAction::LookForStage => if found {
            CreationAction::RemoveStage
        } else {
            CreationAction::MakeStage
        },
        CreationAction::RemoveStage => CreationAction::MakeStage,
        CreationAction::MakeStage => CreationAction::AnchorStage,
        CreationAction::AnchorStage => CreationAction::CreateStageMarker,
        CreationAction::CreateStageMarker => CreationAction::SyncStageMarker,
        CreationAction::SyncStageMarker => CreationAction::RecordTransaction,
        CreationAction::RecordTransaction => CreationAction::CreateObjects,
        CreationAction::CreateObjects => CreationAction::CreateEvents,
        CreationAction::CreateEvents => CreationAction::CreateContexts,
        CreationAction::CreateContexts => CreationAction::CreateLock,
        CreationAction::CreateLock => CreationAction::CreateLog,
        CreationAction::CreateLog => if unpublished {
            CreationAction::CreateUnpublishedMarker
        } else {
            CreationAction::SyncStage
        },
        CreationAction::CreateUnpublishedMarker => CreationAction::SyncStage,
        CreationAction::SyncStage => CreationAction::CheckStage,
        CreationAction::CheckStage => CreationAction::PublishStage,
        CreationAction::PublishStage => CreationAction::SyncRuns,
        CreationAction::SyncRuns => if new {
            CreationAction::SyncSessions
        } else {
            CreationAction::FinishTransaction
        },
        CreationAction::SyncSessions => CreationAction::FinishTransaction,
        CreationAction::FinishTransaction => if new {
            CreationAction::ClearMarker
        } else {
            CreationAction::Done
        },
        CreationAction::ClearMarker => CreationAction::Done,
        CreationAction::CleanRun { .. } => CreationAction::RecoverAfterFailure,
        CreationAction::RecoverAfterFailure => if new {
            CreationAction::CleanConversation
        } else {
            CreationAction::Done
        },
        CreationAction::CleanConversation => CreationAction::Done,
        CreationAction::Done => CreationAction::Done,
    }
}

/// The action behind one that failed, none of them cleaning: what was begun is taken
/// away.
pub open spec fn cleaning(action: CreationAction, new: bool) -> CreationAction {
    if rank(action) > rank(CreationAction::AnchorStage) {
        CreationAction::CleanRun { published: rank(action) > rank(CreationAction::PublishStage) }
    } else if new {
        CreationAction::CleanConversation
    } else {
        CreationAction::Done
    }
}

/// The action behind one, by what came of it.
pub open spec fn next_creation_action(
    action: CreationAction,
    new: bool,
    unpublished: bool,
    cleanup_failed: bool,
    reply: CreationReply,
) -> CreationAction {
    let failed = reply is Failed || (action is LookForRun && reply is Found);
    if action is RecoverAfterFailure && (failed || cleanup_failed) {
        CreationAction::Done
    } else if failed && !is_cleaning(action) {
        cleaning(action, new)
    } else {
        following(action, new, unpublished, reply is Found)
    }
}

/// What went wrong with an action, by what came of it.
pub open spec fn action_failure(creation: RunCreation, reply: CreationReply) -> Option<ErrorModel> {
    match reply {
        CreationReply::Failed(error) => if creation.action is Done {
            None
        } else {
            Some(error@)
        },
        CreationReply::Found => if creation.action is LookForRun {
            error::usage_failure(
                "run session "@ + creation.run_session_id@ + " already exists in conversation "@
                    + creation.conversation_id@,
            )
        } else {
            None
        },
        CreationReply::Done => None,
    }
}

fn action_behind_success(action: CreationAction, new: bool, unpublished: bool, found: bool) -> (next:
    CreationAction)
    ensures
        next == following(action, new, unpublished, found),
{
    match action {
        CreationAction::PrepareMarker => CreationAction::CreateHistory,
        CreationAction::CreateHistory => CreationAction::CreateSummary,
        CreationAction::CreateSummary => CreationAction::SyncConversation,
        CreationAction::SyncConversation => CreationAction::OpenRuns,
        CreationAction::OpenHistory => CreationAction::RecoverStatus,
        CreationAction::RecoverStatus => CreationAction::ReadSummary,
        CreationAction::ReadSummary => CreationAction::OpenRuns,
        CreationAction::OpenRuns => CreationAction::LookForRun,
        CreationAction::LookForRun => CreationAction::LookForStage,
        CreationAction::LookForStage => {
            if found {
                CreationAction::RemoveStage
            } else {
                CreationAction::MakeStage
            }
        },
        CreationAction::RemoveStage => CreationAction::MakeStage,
        CreationAction::MakeStage => CreationAction::AnchorStage,
        CreationAction::AnchorStage => CreationAction::CreateStageMarker,
        CreationAction::CreateStageMarker => CreationAction::SyncStageMarker,
        CreationAction::SyncStageMarker => CreationAction::RecordTransaction,
        CreationAction::RecordTransaction => CreationAction::CreateObjects,
        CreationAction::CreateObjects => CreationAction::CreateEvents,
        CreationAction::CreateEvents => CreationAction::CreateContexts,
        CreationAction::CreateContexts => CreationAction::CreateLock,
        CreationAction::CreateLock => CreationAction::CreateLog,
        CreationAction::CreateLog => {
            if unpublished {
                CreationAction::CreateUnpublishedMarker
            } else {
                CreationAction::SyncStage
            }
        },
        CreationAction::CreateUnpublishedMarker => CreationAction::SyncStage,
        CreationAction::SyncStage => CreationAction::CheckStage,
        CreationAction::CheckStage => CreationAction::PublishStage,
        CreationAction::PublishStage => CreationAction::SyncRuns,
        CreationAction::SyncRuns => {
            if new {
                CreationAction::SyncSessions
            } else {
                CreationAction::FinishTransaction
            }
        },
        CreationAction::SyncSessions => CreationAction::FinishTransaction,
        CreationAction::FinishTransaction => {
            if new {
                CreationAction::ClearMarker
            } else {
                CreationAction::Done
            }
        },
        CreationAction::ClearMarker => CreationAction::Done,
        CreationAction::CleanRun { .. } => CreationAction::RecoverAfterFailure,
        CreationAction::RecoverAfterFailure => {
            if new {
                CreationAction::CleanConversation
            } else {
                CreationAction::Done
            }
        },
        CreationAction::CleanConversation => CreationAction::Done,
        CreationAction::Done => CreationAction::Done,
    }
}

fn action_behind_failure(action: CreationAction, new: bool) -> (next: CreationAction)
    requires
        !is_cleaning(action),
    ensures
        next == cleaning(action, new),
{
    let (anchored, published): (bool, bool) = match action {
        CreationAction::SyncRuns
        | CreationAction::SyncSessions
        | CreationAction::FinishTransaction
        | CreationAction::ClearMarker => (true, true),
        CreationAction::CreateStageMarker
        | CreationAction::SyncStageMarker
        | CreationAction::RecordTransaction
        | CreationAction::CreateObjects
        | CreationAction::CreateEvents
        | CreationAction::CreateContexts
        | CreationAction::CreateLock
        | CreationAction::CreateLog
        | CreationAction::CreateUnpublishedMarker
        | CreationAction::SyncStage
        | CreationAction::CheckStage
        | CreationAction::PublishStage => (true, false),
        _ => (false, false),
    };
    if anchored {
        CreationAction::CleanRun { published }
    } else if new {
        CreationAction::CleanConversation
    } else {
        CreationAction::Done
    }
}

impl RunCreation {
    /// A run of which nothing has been made but its conversation. What it is to be made of
    /// is checked before anything is made.
    pub fn create_conversation_run_with_publication_marker(
        request: &CreationRequest,
        conversation_is_new: bool,
    ) -> (result: Result<RunCreation, RuntimeError>)
        ensures
            error::failure(result) == request_failure(*request),
            result matches Ok(creation) ==> {
                &&& creation.conversation_id@ == request.conversation_id.text@
                &&& creation.run_session_id@ == request.run_session_id.text@
                &&& creation.conversation_is_new == conversation_is_new
                &&& creation.unpublished_productive_run == request.unpublished_productive_run
                &&& creation.action == (if conversation_is_new {
                    CreationAction::PrepareMarker
                } else {
                    CreationAction::OpenHistory
                })
                &&& creation.failures@.len() == 0
                &&& !creation.cleanup_failed
                &&& creation.sound()
            },
    {
        check_creation_request(request)?;
        Ok(RunCreation {
            conversation_id: request.conversation_id.text.clone(),
            run_session_id: request.run_session_id.text.clone(),
            conversation_is_new,
            unpublished_productive_run: request.unpublished_productive_run,
            action: if conversation_is_new {
                CreationAction::PrepareMarker
            } else {
                CreationAction::OpenHistory
            },
            failures: Vec::new(),
            cleanup_failed: false,
        })
    }

    /// Nothing has gone wrong as long as the run is being made, and something has when it
    /// is being taken away.
    pub open spec fn sound(self) -> bool {
        &&& !is_cleaning(self.action) ==> self.failures@.len() == 0
        &&& is_cleaning(self.action) && self.action !is Done ==> self.failures@.len() > 0
        &&& self.action is CleanConversation ==> self.conversation_is_new && !self.cleanup_failed
        &&& self.action is ClearMarker ==> self.conversation_is_new
        &&& self.cleanup_failed ==> self.failures@.len() > 0
        &&& !is_cleaning(self.action) || self.action is CleanRun ==> !self.cleanup_failed
    }

    /// Goes on by what came of the action.
    pub fn advance(&mut self, reply: CreationReply)
        requires
            old(self).sound(),
        ensures
            final(self).sound(),
            final(self).conversation_id == old(self).conversation_id,
            final(self).run_session_id == old(self).run_session_id,
            final(self).conversation_is_new == old(self).conversation_is_new,
            final(self).unpublished_productive_run == old(self).unpublished_productive_run,
            final(self).action == next_creation_action(
                old(self).action,
                old(self).conversation_is_new,
                old(self).unpublished_productive_run,
                old(self).cleanup_failed,
                reply,
            ),
            final(self).cleanup_failed == (old(self).cleanup_failed || (is_cleaning(
                old(self).action,
            ) && old(self).action !is Done && reply is Failed)),
            error::failures_view(final(self).failures@) == (match action_failure(*old(self), reply) {
                Some(error) => error::failures_view(old(self).failures@).push(error),
                None => error::failures_view(old(self).failures@),
            }),
    {
        let ghost before = error::failures_view(self.failures@);
        let action = self.action;
        let new = self.conversation_is_new;
        let unpublished = self.unpublished_productive_run;
        let cleaning = matches!(
            action,
            CreationAction::CleanRun { .. } | CreationAction::RecoverAfterFailure
                | CreationAction::CleanConversation
        );
        if matches!(action, CreationAction::Done) {
            return ;
        }
        let (error, found) = match reply {
            CreationReply::Done => (None, false),
            CreationReply::Found => {
                if matches!(action, CreationAction::LookForRun) {
                    let mut message = join3(
                        "run session ",
                        self.run_session_id.as_str(),
                        " already exists in conversation ",
                    );
                    append_text(&mut message, self.conversation_id.as_str());
                    (Some(usage(message.as_str())), true)
                } else {
                    (None, true)
                }
            },
            CreationReply::Failed(error) => (Some(error), false),
        };
        let failed = error.is_some();
        if let Some(error) = error {
            let ghost model = error@;
            self.failures.push(error);
            assert(error::failures_view(self.failures@) =~= before.push(model));
        }
        if cleaning && failed {
            self.cleanup_failed = true;
        }
        self.action = if matches!(action, CreationAction::RecoverAfterFailure)
            && self.cleanup_failed {
            CreationAction::Done
        } else if failed && !cleaning {
            action_behind_failure(action, new)
        } else {
            action_behind_success(action, new, unpublished, found)
        };
    }
}

/// Making a run goes on until it is done: whatever comes of an action, a later one
/// follows.
pub proof fn law_creation_goes_on(
    action: CreationAction,
    new: bool,
    unpublished: bool,
    cleanup_failed: bool,
    reply: CreationReply,
)
    requires
        action !is Done,
    ensures
        rank(
            next_creation_action(action, new, unpublished, cleanup_failed, reply),
        ) > rank(action),
{
}

/// A run is made only when all of it was: nothing has gone wrong at the end exactly when
/// the last action succeeded, and then its transaction is finished and, in a new
/// conversation, the marker is gone.
pub proof fn law_creation_succeeds_at_the_end(creation: RunCreation, reply: CreationReply)
    requires
        creation.sound(),
        creation.action !is Done,
        next_creation_action(
            creation.action,
            creation.conversation_is_new,
            creation.unpublished_productive_run,
            creation.cleanup_failed,
            reply,
        ) is Done,
        creation.failures@.len() == 0,
        action_failure(creation, reply) is None,
    ensures
        if creation.conversation_is_new {
            creation.action is ClearMarker
        } else {
            creation.action is FinishTransaction
        },
{
}

/// A run that was begun and could not be made is taken away: under its own name where it
/// was published, under its staging name where it was not; what was written down of it
/// is ended, and a conversation that was made for it goes where all that went well.
pub proof fn law_failed_run_is_taken_away(
    action: CreationAction,
    new: bool,
    unpublished: bool,
    error: RuntimeError,
)
    requires
        !is_cleaning(action),
        rank(action) > rank(CreationAction::AnchorStage),
    ensures
        ({
            let failed = CreationReply::Failed(error);
            let clean = next_creation_action(action, new, unpublished, false, failed);
            let recover = next_creation_action(clean, new, unpublished, false, CreationReply::Done);
            let last = next_creation_action(recover, new, unpublished, false, CreationReply::Done);
            &&& clean == CreationAction::CleanRun {
                published: rank(action) > rank(CreationAction::PublishStage),
            }
            &&& recover is RecoverAfterFailure
            &&& new ==> last is CleanConversation
            &&& !new ==> last is Done
            &&& next_creation_action(clean, new, unpublished, false, failed) is RecoverAfterFailure
            &&& next_creation_action(recover, new, unpublished, true, CreationReply::Done) is Done
        }),
{
}

/// Accepts the stage of a run that is about to be published: it is the one that was
/// made.
pub fn check_stage_for_publication(
    current: Option<DirectoryIdentity>,
    expected: DirectoryIdentity,
) -> (result: Result<(), RuntimeError>)
    ensures
        error::failure(result) == run_mutation::going_failure(
            current,
            expected,
            "run-creation staging artifact disappeared before publication"@,
            "run-creation staging artifact identity changed before publication"@,
        ),
{
    match current {
        None => Err(protocol("run-creation staging artifact disappeared before publication")),
        Some(identity) => {
            if identity != expected {
                return Err(
                    protocol("run-creation staging artifact identity changed before publication"),
                );
            }
            Ok(())
        },
    }
}

/// What is wrong with a run that is about to be taken away.
pub open spec fn partial_run_failure(
    run_session_id: Seq<char>,
    current: Option<DirectoryIdentity>,
    expected: DirectoryIdentity,
) -> Option<ErrorModel> {
    if current != Some(expected) {
        error::protocol_failure(
            "partial run "@ + run_session_id + " identity changed before cleanup"@,
        )
    } else {
        None
    }
}

/// Accepts a run that is about to be taken away: it is the one that was made.
pub fn cleanup_partial_conversation_run(
    run_session_id: &str,
    current: Option<DirectoryIdentity>,
    expected: DirectoryIdentity,
) -> (result: Result<(), RuntimeError>)
    ensures
        error::failure(result) == partial_run_failure(run_session_id@, current, expected),
{
    let same = match current {
        Some(identity) => identity == expected,
        None => false,
    };
    if !same {
        let message = join3("partial run ", run_session_id, " identity changed before cleanup");
        return Err(protocol(message.as_str()));
    }
    Ok(())
}

/// Where taking away a new conversation stands.
#[derive(Clone, Copy, Debug, PartialEq, Eq, Structural)]
pub enum CleanupStage {
    CheckIdentity,
    CheckEntries,
    LookAtHistory,
    RemoveHistory,
    LookAtSummary,
    RemoveSummary,
    LookAtRuns,
    RemoveRuns,
    LookAtMarker,
    Sync { marker: bool },
    RemoveMarker,
    CheckAgain,
    Remove,
    SyncSessions,
    Done,
}

/// A new conversation that is taken away.
pub struct ConversationCleanup {
    pub conversation_id: String,
    pub expected: DirectoryIdentity,
    pub marker: String,
    pub stage: CleanupStage,
}

/// What is found under the name of a file.
pub enum FileLook {
    Missing,
    File { length: u64 },
    Failed(RuntimeError),
}

/// What is found under the name of the runs.
pub enum RunsLook {
    Missing,
    Empty,
    Filled,
    Failed(RuntimeError),
}

/// A message about a new conversation.
pub open spec fn about_conversation(conversation_id: Seq<char>, what: Seq<char>) -> Option<
    ErrorModel,
> {
    error::protocol_failure("new conversation "@ + conversation_id + what)
}

/// Whether a name belongs to a new conversation.
pub open spec fn is_own_leaf(name: Seq<char>, marker: Seq<char>) -> bool {
    name == CONVERSATION_HISTORY_LEAF@ || name == CONVERSATION_RUNS_DIR@ || name
        == CONVERSATION_STATUS_LEAF@ || name == marker
}

/// What is wrong with what a new conversation holds, from one of its names on.
pub open spec fn own_entries_failure(
    listed: Seq<ListedName>,
    from: int,
    conversation_id: Seq<char>,
    marker: Seq<char>,
) -> Option<ErrorModel>
    decreases listed.len() - from,
{
    if from < 0 || from >= listed.len() {
        None
    } else {
        error::first_failure(
            match listed[from] {
                ListedName::Failed(error) => Some(error@),
                ListedName::NotText => about_conversation(
                    conversation_id,
                    " gained foreign content before cleanup"@,
                ),
                ListedName::Name(name) => if is_own_leaf(name@, marker) {
                    None
                } else {
                    about_conversation(conversation_id, " gained foreign content before cleanup"@)
                },
            },
            own_entries_failure(listed, from + 1, conversation_id, marker),
        )
    }
}

/// What is wrong with a file of a new conversation.
pub open spec fn own_file_failure(
    found: FileLook,
    stage: CleanupStage,
    conversation_id: Seq<char>,
) -> Option<ErrorModel> {
    match found {
        FileLook::Missing => None,
        FileLook::Failed(error) => Some(error@),
        FileLook::File { length } => match stage {
            CleanupStage::LookAtHistory => if length != 0 {
                about_conversation(conversation_id, " history is not empty before cleanup"@)
            } else {
                None
            },
            CleanupStage::LookAtSummary => if length > MAX_CONVERSATION_STATUS_SUMMARY_BYTES {
                about_conversation(
                    conversation_id,
                    " status summary is oversized before cleanup"@,
                )
            } else {
                None
            },
            _ => if length != 0 {
                about_conversation(
                    conversation_id,
                    " lifecycle marker is not empty before cleanup"@,
                )
            } else {
                None
            },
        },
    }
}

/// The stage behind looking at a file.
pub open spec fn behind_file(found: FileLook, stage: CleanupStage) -> CleanupStage {
    match stage {
        CleanupStage::LookAtHistory => if found is File {
            CleanupStage::RemoveHistory
        } else {
            CleanupStage::LookAtSummary
        },
        CleanupStage::LookAtSummary => if found is File {
            CleanupStage::RemoveSummary
        } else {
            CleanupStage::LookAtRuns
        },
        _ => CleanupStage::Sync { marker: found is File },
    }
}

/// The stage behind a removal or a sync.
pub open spec fn behind_removal(stage: CleanupStage) -> CleanupStage {
    match stage {
        CleanupStage::RemoveHistory => CleanupStage::LookAtSummary,
        CleanupStage::RemoveSummary => CleanupStage::LookAtRuns,
        CleanupStage::RemoveRuns => CleanupStage::LookAtMarker,
        CleanupStage::Sync { marker } => if marker {
            CleanupStage::RemoveMarker
        } else {
            CleanupStage::CheckAgain
        },
        CleanupStage::RemoveMarker => CleanupStage::CheckAgain,
        CleanupStage::Remove => CleanupStage::SyncSessions,
        CleanupStage::SyncSessions => CleanupStage::Done,
        other => other,
    }
}

/// Whether something is removed or made durable at a stage.
pub open spec fn is_removal(stage: CleanupStage) -> bool {
    stage is RemoveHistory || stage is RemoveSummary || stage is RemoveRuns || stage is Sync
        || stage is RemoveMarker || stage is Remove || stage is SyncSessions
}

impl ConversationCleanup {
    /// The same conversation at another stage.
    pub open spec fn at(self, stage: CleanupStage) -> ConversationCleanup {
        ConversationCleanup { stage, ..self }
    }

    /// A new conversation of which nothing has been taken away.
    pub fn cleanup_new_empty_conversation(conversation_id: &str, expected: DirectoryIdentity) -> (cleanup:
        ConversationCleanup)
        ensures
            cleanup.conversation_id@ == conversation_id@,
            cleanup.expected == expected,
            cleanup.marker@ == recovery::lifecycle_marker(expected),
            cleanup.stage is CheckIdentity,
    {
        ConversationCleanup {
            conversation_id: conversation_id.to_owned(),
            expected,
            marker: crate::contract::conversation_lifecycle_identity_marker_name(expected),
            stage: CleanupStage::CheckIdentity,
        }
    }

    fn complaint(&self, what: &str) -> (error: RuntimeError)
        ensures
            Some(error@) == about_conversation(self.conversation_id@, what@),
    {
        let message = join3("new conversation ", self.conversation_id.as_str(), what);
        protocol(message.as_str())
    }

    /// Goes on where the conversation is the one that was made.
    pub fn identified(&mut self, current: Option<DirectoryIdentity>) -> (result: Result<
        (),
        RuntimeError,
    >)
        requires
            old(self).stage is CheckIdentity || old(self).stage is CheckAgain,
        ensures
            error::failure(result) == (if current != Some(old(self).expected) {
                about_conversation(
                    old(self).conversation_id@,
                    " identity changed before cleanup"@,
                )
            } else {
                None
            }),
            *final(self) == (if result is Err {
                *old(self)
            } else if old(self).stage is CheckIdentity {
                old(self).at(CleanupStage::CheckEntries)
            } else {
                old(self).at(CleanupStage::Remove)
            }),
    {
        let same = match current {
            Some(identity) => identity == self.expected,
            None => false,
        };
        if !same {
            return Err(self.complaint(" identity changed before cleanup"));
        }
        self.stage = match self.stage {
            CleanupStage::CheckIdentity => CleanupStage::CheckEntries,
            _ => CleanupStage::Remove,
        };
        Ok(())
    }

    fn check_entry(&self, entry: ListedName) -> (result: Result<(), RuntimeError>)
        ensures
            error::failure(result) == (match entry {
                ListedName::Failed(error) => Some(error@),
                ListedName::NotText => about_conversation(
                    self.conversation_id@,
                    " gained foreign content before cleanup"@,
                ),
                ListedName::Name(name) => if is_own_leaf(name@, self.marker@) {
                    None
                } else {
                    about_conversation(
                        self.conversation_id@,
                        " gained foreign content before cleanup"@,
                    )
                },
            }),
    {
        match entry {
            ListedName::Failed(error) => Err(error),
            ListedName::NotText => Err(self.complaint(" gained foreign content before cleanup")),
            ListedName::Name(name) => {
                if !same_text(name.as_str(), CONVERSATION_HISTORY_LEAF) && !same_text(
                    name.as_str(),
                    CONVERSATION_RUNS_DIR,
                ) && !same_text(name.as_str(), CONVERSATION_STATUS_LEAF) && !same_text(
                    name.as_str(),
                    self.marker.as_str(),
                ) {
                    return Err(self.complaint(" gained foreign content before cleanup"));
                }
                Ok(())
            },
        }
    }

    /// Goes on where the conversation holds nothing but its own.
    pub fn entries_listed(&mut self, listed: Vec<ListedName>) -> (result: Result<(), RuntimeError>)
        requires
            old(self).stage is CheckEntries,
        ensures
            error::failure(result) == own_entries_failure(
                listed@,
                0,
                old(self).conversation_id@,
                old(self).marker@,
            ),
            *final(self) == (if result is Err {
                *old(self)
            } else {
                old(self).at(CleanupStage::LookAtHistory)
            }),
    {
        let ghost all = listed@;
        let total: usize = listed.len();
        let mut pending = reversed(listed);
        let mut seen: usize = 0;
        while pending.len() > 0
            invariant
                all == listed@,
                *self == *old(self),
                seen + pending.len() == total,
                total == all.len(),
                own_entries_failure(all, 0, self.conversation_id@, self.marker@)
                    == own_entries_failure(
                    all,
                    seen as int,
                    self.conversation_id@,
                    self.marker@,
                ),
                forall|k: int|
                    0 <= k < pending@.len() ==> #[trigger] pending@[k] == all[all.len() - 1 - k],
            decreases pending@.len(),
        {
            match pending.pop() {
                None => {},
                Some(entry) => {
                    assert(entry == all[seen as int]);
                    self.check_entry(entry)?;
                    seen = seen + 1;
                },
            }
        }
        self.stage = CleanupStage::LookAtHistory;
        Ok(())
    }

    /// Goes on by what is found under the name of a file.
    pub fn looked(&mut self, found: FileLook) -> (result: Result<(), RuntimeError>)
        requires
            old(self).stage is LookAtHistory || old(self).stage is LookAtSummary
                || old(self).stage is LookAtMarker,
        ensures
            error::failure(result) == own_file_failure(
                found,
                old(self).stage,
                old(self).conversation_id@,
            ),
            *final(self) == (if result is Err {
                *old(self)
            } else {
                old(self).at(behind_file(found, old(self).stage))
            }),
    {
        let there = match found {
            FileLook::Missing => false,
            FileLook::Failed(error) => {
                return Err(error);
            },
            FileLook::File { length } => {
                match self.stage {
                    CleanupStage::LookAtHistory => {
                        if length != 0 {
                            return Err(self.complaint(" history is not empty before cleanup"));
                        }
                    },
                    CleanupStage::LookAtSummary => {
                        if length > MAX_CONVERSATION_STATUS_SUMMARY_BYTES as u64 {
                            return Err(
                                self.complaint(" status summary is oversized before cleanup"),
                            );
                        }
                    },
                    _ => {
                        if length != 0 {
                            return Err(
                                self.complaint(" lifecycle marker is not empty before cleanup"),
                            );
                        }
                    },
                }
                true
            },
        };
        self.stage = match self.stage {
            CleanupStage::LookAtHistory => {
                if there {
                    CleanupStage::RemoveHistory
                } else {
                    CleanupStage::LookAtSummary
                }
            },
            CleanupStage::LookAtSummary => {
                if there {
                    CleanupStage::RemoveSummary
                } else {
                    CleanupStage::LookAtRuns
                }
            },
            _ => CleanupStage::Sync { marker: there },
        };
        Ok(())
    }

    /// Goes on by what is found under the name of the runs.
    pub fn looked_at_runs(&mut self, found: RunsLook) -> (result: Result<(), RuntimeError>)
        requires
            old(self).stage is LookAtRuns,
        ensures
            error::failure(result) == (match found {
                RunsLook::Missing => None,
                RunsLook::Empty => None,
                RunsLook::Filled => about_conversation(
                    old(self).conversation_id@,
                    " runs are not empty before cleanup"@,
                ),
                RunsLook::Failed(error) => Some(error@),
            }),
            *final(self) == (if result is Err {
                *old(self)
            } else if found is Empty {
                old(self).at(CleanupStage::RemoveRuns)
            } else {
                old(self).at(CleanupStage::LookAtMarker)
            }),
    {
        match found {
            RunsLook::Missing => {
                self.stage = CleanupStage::LookAtMarker;
                Ok(())
            },
            RunsLook::Empty => {
                self.stage = CleanupStage::RemoveRuns;
                Ok(())
            },
            RunsLook::Filled => Err(self.complaint(" runs are not empty before cleanup")),
            RunsLook::Failed(error) => Err(error),
        }
    }

    /// Goes on when something was removed or made durable.
    pub fn removed(&mut self, outcome: Result<(), RuntimeError>) -> (result: Result<
        (),
        RuntimeError,
    >)
        requires
            is_removal(old(self).stage),
        ensures
            error::failure(result) == error::failure(outcome),
            *final(self) == (if result is Err {
                *old(self)
            } else {
                old(self).at(behind_removal(old(self).stage))
            }),
    {
        outcome?;
        self.stage = match self.stage {
            CleanupStage::RemoveHistory => CleanupStage::LookAtSummary,
            CleanupStage::RemoveSummary => CleanupStage::LookAtRuns,
            CleanupStage::RemoveRuns => CleanupStage::LookAtMarker,
            CleanupStage::Sync { marker } => {
                if marker {
                    CleanupStage::RemoveMarker
                } else {
                    CleanupStage::CheckAgain
                }
            },
            CleanupStage::RemoveMarker => CleanupStage::CheckAgain,
            CleanupStage::Remove => CleanupStage::SyncSessions,
            CleanupStage::SyncSessions => CleanupStage::Done,
            other => other,
        };
        Ok(())
    }
}

/// What is found under one of the names that a conversation would take.
pub enum CandidateLook {
    Missing,
    Found,
    Failed(RuntimeError),
}

/// What is wrong with the names that a conversation would take, from one of them on:
/// what is found first decides.
pub open spec fn occupied_failure(looks: Seq<CandidateLook>, from: int) -> Option<ErrorModel>
    decreases looks.len() - from,
{
    if from < 0 || from >= looks.len() {
        None
    } else {
        match looks[from] {
            CandidateLook::Missing => occupied_failure(looks, from + 1),
            CandidateLook::Found => None,
            CandidateLook::Failed(error) => Some(error@),
        }
    }
}

/// Whether one of the names that a conversation would take is taken.
pub open spec fn is_occupied(looks: Seq<CandidateLook>, from: int) -> bool
    decreases looks.len() - from,
{
    if from < 0 || from >= looks.len() {
        false
    } else {
        match looks[from] {
            CandidateLook::Missing => is_occupied(looks, from + 1),
            _ => true,
        }
    }
}

/// Whether one of the names that a conversation would take is taken: what stands under
/// each, in the order in which they are looked at.
pub fn conversation_candidate_is_occupied(looks: Vec<CandidateLook>) -> (result: Result<
    bool,
    RuntimeError,
>)
    ensures
        error::failure(result) == occupied_failure(looks@, 0),
        result matches Ok(occupied) ==> occupied == is_occupied(looks@, 0),
{
    let ghost all = looks@;
    let total: usize = looks.len();
    let mut pending = reversed(looks);
    let mut seen: usize = 0;
    while pending.len() > 0
        invariant
            all == looks@,
            seen + pending.len() == total,
            total == all.len(),
            occupied_failure(all, 0) == occupied_failure(all, seen as int),
            is_occupied(all, 0) == is_occupied(all, seen as int),
            forall|k: int|
                0 <= k < pending@.len() ==> #[trigger] pending@[k] == all[all.len() - 1 - k],
        decreases pending@.len(),
    {
        match pending.pop() {
            None => {},
            Some(look) => {
                assert(look == all[seen as int]);
                match look {
                    CandidateLook::Missing => {
                        seen = seen + 1;
                    },
                    CandidateLook::Found => {
                        return Ok(true);
                    },
                    CandidateLook::Failed(error) => {
                        return Err(error);
                    },
                }
            },
        }
    }
    Ok(false)
}

/// A run is created in one order, in which nothing is passed over: each action is taken only
/// behind the one that it needs, and only where that one succeeded.
pub proof fn law_creation_keeps_its_order(
    action: CreationAction,
    new: bool,
    unpublished: bool,
    cleanup_failed: bool,
    reply: CreationReply,
)
    requires
        action !is Done,
    ensures
        ({
            let next = next_creation_action(action, new, unpublished, cleanup_failed, reply);
            let failed = reply is Failed;
            &&& next is CreateHistory ==> action is PrepareMarker && !failed
            &&& next is CreateSummary ==> action is CreateHistory && !failed
            &&& next is SyncConversation ==> action is CreateSummary && !failed
            &&& next is RecoverStatus ==> action is OpenHistory && !failed
            &&& next is ReadSummary ==> action is RecoverStatus && !failed
            &&& next is OpenRuns ==> (action is SyncConversation || action is ReadSummary)
                && !failed
            &&& next is LookForRun ==> action is OpenRuns && !failed
            &&& next is LookForStage ==> action is LookForRun && reply is Done
            &&& next is RemoveStage ==> action is LookForStage && reply is Found
            &&& next is MakeStage ==> (action is LookForStage && reply is Done || action
                is RemoveStage) && !failed
            &&& next is AnchorStage ==> action is MakeStage && !failed
            &&& next is CreateStageMarker ==> action is AnchorStage && !failed
            &&& next is SyncStageMarker ==> action is CreateStageMarker && !failed
            &&& next is RecordTransaction ==> action is SyncStageMarker && !failed
            &&& next is CreateObjects ==> action is RecordTransaction && !failed
            &&& next is CreateEvents ==> action is CreateObjects && !failed
            &&& next is CreateContexts ==> action is CreateEvents && !failed
            &&& next is CreateLock ==> action is CreateContexts && !failed
            &&& next is CreateLog ==> action is CreateLock && !failed
            &&& next is CreateUnpublishedMarker ==> action is CreateLog && unpublished && !failed
            &&& next is SyncStage ==> (action is CreateUnpublishedMarker || action is CreateLog
                && !unpublished) && !failed
            &&& next is CheckStage ==> action is SyncStage && !failed
            &&& next is PublishStage ==> action is CheckStage && !failed
            &&& next is SyncRuns ==> action is PublishStage && !failed
            &&& next is SyncSessions ==> action is SyncRuns && new && !failed
            &&& next is FinishTransaction ==> (action is SyncSessions || action is SyncRuns && !new)
                && !failed
            &&& next is ClearMarker ==> action is FinishTransaction && new && !failed
            &&& next is CleanRun ==> failed
            &&& next is RecoverAfterFailure ==> action is CleanRun
            &&& next is Done ==> {
                ||| failed
                ||| action is LookForRun && reply is Found && !new
                ||| action is FinishTransaction && !new
                ||| action is ClearMarker
                ||| action is RecoverAfterFailure
                ||| action is CleanConversation
            }
        }),
{
}

proof fn lemma_own_entries(
    listed: Seq<ListedName>,
    from: int,
    conversation_id: Seq<char>,
    marker: Seq<char>,
)
    requires
        0 <= from <= listed.len(),
    ensures
        own_entries_failure(listed, from, conversation_id, marker) is None <==> forall|k: int|
            from <= k < listed.len() ==> (#[trigger] listed[k]) is Name && is_own_leaf(
                listed[k]->Name_0@,
                marker,
            ),
    decreases listed.len() - from,
{
    if from < listed.len() {
        lemma_own_entries(listed, from + 1, conversation_id, marker);
    }
}

/// A new conversation is taken away only where everything in it is its own: its history, its
/// runs, its summary and its marker.
pub proof fn law_only_its_own_is_taken_away(
    listed: Seq<ListedName>,
    conversation_id: Seq<char>,
    marker: Seq<char>,
)
    ensures
        own_entries_failure(listed, 0, conversation_id, marker) is None <==> forall|k: int|
            0 <= k < listed.len() ==> (#[trigger] listed[k]) is Name && (listed[k]->Name_0@
                == CONVERSATION_HISTORY_LEAF@ || listed[k]->Name_0@ == CONVERSATION_RUNS_DIR@
                || listed[k]->Name_0@ == CONVERSATION_STATUS_LEAF@ || listed[k]->Name_0@ == marker),
{
    lemma_own_entries(listed, 0, conversation_id, marker);
}

/// A conversation is taken away in one order: what is found of its history, its summary and
/// its runs, then its marker once the rest is durable, then the conversation itself.
pub proof fn law_conversation_is_taken_away_in_order(
    found: FileLook,
    stage: CleanupStage,
)
    ensures
        behind_file(found, CleanupStage::LookAtHistory) == (if found is File {
            CleanupStage::RemoveHistory
        } else {
            CleanupStage::LookAtSummary
        }),
        behind_file(found, CleanupStage::LookAtSummary) == (if found is File {
            CleanupStage::RemoveSummary
        } else {
            CleanupStage::LookAtRuns
        }),
        behind_file(found, CleanupStage::LookAtMarker) == (CleanupStage::Sync {
            marker: found is File,
        }),
        is_removal(stage) ==> {
            let next = behind_removal(stage);
            &&& next is LookAtSummary ==> stage is RemoveHistory
            &&& next is LookAtRuns ==> stage is RemoveSummary
            &&& next is LookAtMarker ==> stage is RemoveRuns
            &&& next is RemoveMarker ==> stage == CleanupStage::Sync { marker: true }
            &&& next is CheckAgain ==> stage is RemoveMarker || stage == CleanupStage::Sync {
                marker: false,
            }
            &&& next is SyncSessions ==> stage is Remove
            &&& next is Done ==> stage is SyncSessions
            &&& next !is Remove
        },
{
}

/// Of the names that a conversation would take the first that is not missing decides: found,
/// the conversation is there; failed, that is the failure. With all missing it is not there.
pub proof fn law_first_name_that_is_there_decides(looks: Seq<CandidateLook>, from: int)
    requires
        0 <= from <= looks.len(),
    ensures
        (forall|k: int| from <= k < looks.len() ==> (#[trigger] looks[k]) is Missing)
            ==> occupied_failure(looks, from) is None && !is_occupied(looks, from),
        forall|k: int|
            from <= k < looks.len() && (#[trigger] looks[k]) !is Missing && (forall|j: int|
                from <= j < k ==> (#[trigger] looks[j]) is Missing) ==> {
                &&& is_occupied(looks, from)
                &&& looks[k] is Found ==> occupied_failure(looks, from) is None
                &&& looks[k] is Failed ==> occupied_failure(looks, from) == Some(
                    looks[k]->Failed_0@,
                )
            },
    decreases looks.len() - from,
{
    if from < looks.len() {
        if looks[from] is Missing {
            law_first_name_that_is_there_decides(looks, from + 1);
        }
        assert forall|k: int|
            from <= k < looks.len() && (#[trigger] looks[k]) !is Missing && (forall|j: int|
                from <= j < k ==> (#[trigger] looks[j]) is Missing) implies {
            &&& is_occupied(looks, from)
            &&& looks[k] is Found ==> occupied_failure(looks, from) is None
            &&& looks[k] is Failed ==> occupied_failure(looks, from) == Some(looks[k]->Failed_0@)
        } by {
            if k > from {
                assert(looks[from] is Missing);
            }
        }
    }
}

} // verus!
