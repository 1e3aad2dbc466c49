//! The stage of a session that is moved: what identifies it, what is written into it,
//! and what may be found of it when moving was interrupted.

use crate::contract::{validate_digest, Checked, DirectoryIdentity, CONVERSATION_HISTORY_LEAF, CONVERSATION_RUNS_DIR, CONVERSATION_STATUS_LEAF, MAX_CONVERSATION_RECORD_BYTES, RUN_LOG_LEAF, RUN_LOG_RECORD_SCHEMA_V1, RUN_OBJECTS_DIR, RUN_SESSION_LOCK_LEAF};
use crate::contract;
use crate::digest::{finish_sha256, hasher_new, hasher_update, sha256_hex};
use crate::digest;
use crate::error::{protocol, ErrorModel, RuntimeError};
use crate::error;
use crate::history::model::{ConversationEntry, ConversationEntryType, CONVERSATION_ENTRY_SCHEMA_V0};
use crate::lifecycle::reclamation::{anchored_real_file_present, RealFile};
use crate::lifecycle::reclamation;
use crate::listing::{reversed, ListedName};
use crate::migration::manifest::{legacy_root_entry_id, LegacySourceFile, LegacySourceManifest, SOURCE_MANIFEST_SCHEMA};
use crate::migration::manifest;
use crate::migration::plan::{LegacyDefinition, LegacyMigrationPlan};
use crate::runs::attempts::{RunDefinition, RunLogRecord};
use crate::status::run_mutation;
use crate::status::summary::{ConversationStatusSummary, DocumentForm, SummaryModel, STATUS_SUMMARY_SCHEMA};
use crate::status::transaction::Artifact;
use crate::stream::framing::{CARRIAGE_RETURN, LINE_FEED};
use crate::stream::layout::SegmentLeaf;
use crate::stream::writer::contains_byte;
use crate::stream::writer;
use crate::text::{append_text, join2, join3, same_text};
use crate::text;
use vstd::prelude::*;
use vstd::utf8::*;

verus! {

pub const MAX_MIGRATION_IDENTITY_MARKER_BYTES: u64 = 65;
pub const MIGRATION_IDENTITY_LEAF: &'static str = ".migration-identity";
pub const MIGRATION_IDENTITY_STAGE_LEAF: &'static str = ".migration-identity.staged";
pub const MIGRATION_SCHEMA: &'static str = "flow-session-migration-v0";

/// That a session is being moved, written down before it is.
pub struct MigrationTransaction {
    pub schema: String,
    pub conversation_id: String,
    pub run_session_id: String,
    pub source_manifest: LegacySourceManifest,
    pub staging_name: String,
    pub staging_identity: String,
}

/// The digest of a manifest.
pub open spec fn manifest_digest(canonical: Seq<char>) -> Seq<char> {
    digest::digest_text(encode_utf8(canonical))
}

/// The name of the stage of a session.
pub open spec fn stage_name(session_id: Seq<char>, canonical: Seq<char>) -> Seq<char> {
    ".migration-"@ + session_id + "-"@ + manifest_digest(canonical) + ".staged"@
}

/// The identity of the stage of a session.
pub open spec fn stage_identity(session_id: Seq<char>, canonical: Seq<char>) -> Seq<char> {
    digest::digest_text(
        encode_utf8(
            session_id + "\0"@ + manifest_digest(canonical) + "\0"@ + "flow-migration-stage-v0"@,
        ),
    )
}

/// The name and the identity of the stage of a session.
pub fn canonical_stage_identifiers(session_id: &str, source_manifest: &LegacySourceManifest) -> (identifiers:
    (String, String))
    ensures
        identifiers.0@ == stage_name(session_id@, source_manifest.canonical@),
        identifiers.1@ == stage_identity(session_id@, source_manifest.canonical@),
{
    let hash = sha256_hex(source_manifest.canonical.as_str().as_bytes());
    let mut name = join3(".migration-", session_id, "-");
    append_text(&mut name, hash.as_str());
    append_text(&mut name, ".staged");
    let mut content = join3(session_id, "\0", hash.as_str());
    append_text(&mut content, "\0");
    append_text(&mut content, "flow-migration-stage-v0");
    let identity = sha256_hex(content.as_str().as_bytes());
    (name, identity)
}

/// Whether a transaction names the session that it moves.
pub open spec fn names_session(transaction: MigrationTransaction, session_id: Seq<char>) -> bool {
    &&& transaction.schema@ == MIGRATION_SCHEMA@
    &&& transaction.source_manifest.schema@ == SOURCE_MANIFEST_SCHEMA@
    &&& transaction.conversation_id@ == session_id
    &&& transaction.run_session_id@ == session_id
    &&& transaction.source_manifest.session_id@ == session_id
}

/// What is wrong with a transaction.
pub open spec fn migration_failure(transaction: MigrationTransaction, session_id: Seq<char>) -> Option<
    ErrorModel,
> {
    let canonical = transaction.source_manifest.canonical@;
    if !names_session(transaction, session_id) || transaction.staging_identity@ != stage_identity(
        session_id,
        canonical,
    ) {
        error::protocol_failure("migration transaction identity is invalid"@)
    } else if transaction.staging_name@ != stage_name(session_id, canonical) {
        error::protocol_failure("migration staging name is invalid"@)
    } else {
        None
    }
}

impl MigrationTransaction {
    /// The transaction of a session that is about to be moved.
    pub fn new(session_id: &str, source_manifest: LegacySourceManifest) -> (transaction: Self)
        ensures
            transaction.schema@ == MIGRATION_SCHEMA@,
            transaction.conversation_id@ == session_id@,
            transaction.run_session_id@ == session_id@,
            transaction.source_manifest == source_manifest,
            transaction.staging_name@ == stage_name(session_id@, source_manifest.canonical@),
            transaction.staging_identity@ == stage_identity(
                session_id@,
                source_manifest.canonical@,
            ),
    {
        let (staging_name, staging_identity) = canonical_stage_identifiers(
            session_id,
            &source_manifest,
        );
        MigrationTransaction {
            schema: MIGRATION_SCHEMA.to_owned(),
            conversation_id: session_id.to_owned(),
            run_session_id: session_id.to_owned(),
            source_manifest,
            staging_name,
            staging_identity,
        }
    }
}

/// Accepts a transaction.
pub fn validate_migration_transaction(transaction: &MigrationTransaction, session_id: &str) -> (result:
    Result<(), RuntimeError>)
    ensures
        error::failure(result) == migration_failure(*transaction, session_id@),
{
    if !same_text(transaction.schema.as_str(), MIGRATION_SCHEMA) || !same_text(
        transaction.source_manifest.schema.as_str(),
        SOURCE_MANIFEST_SCHEMA,
    ) || !same_text(transaction.conversation_id.as_str(), session_id) || !same_text(
        transaction.run_session_id.as_str(),
        session_id,
    ) || !same_text(transaction.source_manifest.session_id.as_str(), session_id) {
        return Err(protocol("migration transaction identity is invalid"));
    }
    let (name, identity) = canonical_stage_identifiers(session_id, &transaction.source_manifest);
    if !same_text(transaction.staging_identity.as_str(), identity.as_str()) {
        return Err(protocol("migration transaction identity is invalid"));
    }
    if !same_text(transaction.staging_name.as_str(), name.as_str()) {
        return Err(protocol("migration staging name is invalid"));
    }
    Ok(())
}

/// A transaction that is made for a session, of the manifest of that session, is
/// accepted for it, and for no other session.
pub proof fn law_made_migration_is_accepted(
    transaction: MigrationTransaction,
    session_id: Seq<char>,
    other: Seq<char>,
)
    requires
        names_session(transaction, session_id),
        transaction.staging_name@ == stage_name(
            session_id,
            transaction.source_manifest.canonical@,
        ),
        transaction.staging_identity@ == stage_identity(
            session_id,
            transaction.source_manifest.canonical@,
        ),
    ensures
        migration_failure(transaction, session_id) is None,
        other != session_id ==> migration_failure(transaction, other) is Some,
{
}

/// What is wrong with a transaction that is read.
pub open spec fn read_failure(
    found: Artifact,
    path: Seq<char>,
    text: Result<String, RuntimeError>,
    form: DocumentForm,
) -> Option<ErrorModel> {
    match found {
        Artifact::Missing => None,
        Artifact::Failed(error) => Some(error@),
        Artifact::NotAFile => error::protocol_failure(path + " must be a real migration transaction file"@),
        Artifact::File { length } => if length > MAX_CONVERSATION_RECORD_BYTES {
            error::protocol_failure("migration transaction exceeds its byte limit"@)
        } else {
            match text {
                Err(error) => Some(error@),
                Ok(text) => {
                    let bytes = encode_utf8(text@);
                    if bytes.len() == 0 || bytes.last() != LINE_FEED || writer::holds(
                        bytes,
                        CARRIAGE_RETURN,
                    ) {
                        error::protocol_failure("migration transaction framing is invalid"@)
                    } else {
                        match form {
                            DocumentForm::Invalid(words) => error::protocol_failure(
                                "migration transaction is invalid: "@ + words@,
                            ),
                            DocumentForm::Canonical(canonical) => if canonical@ + "\n"@ != text@ {
                                error::protocol_failure("migration transaction is not canonical JSON"@)
                            } else {
                                None
                            },
                        }
                    }
                },
            }
        },
    }
}

/// Accepts a transaction that is read, and says whether there is one.
pub fn read_migration_transaction(
    found: Artifact,
    path: &str,
    text: Result<String, RuntimeError>,
    form: &DocumentForm,
) -> (result: Result<bool, RuntimeError>)
    ensures
        error::failure(result) == read_failure(found, path@, text, *form),
        result matches Ok(present) ==> present == (found is File),
{
    match found {
        Artifact::Missing => Ok(false),
        Artifact::Failed(error) => Err(error),
        Artifact::NotAFile => {
            let message = join2(path, " must be a real migration transaction file");
            Err(protocol(message.as_str()))
        },
        Artifact::File { length } => {
            if length > MAX_CONVERSATION_RECORD_BYTES as u64 {
                return Err(protocol("migration transaction exceeds its byte limit"));
            }
            let text = text?;
            let bytes = text.as_str().as_bytes();
            if bytes.len() == 0 || bytes[bytes.len() - 1] != LINE_FEED || contains_byte(
                bytes,
                CARRIAGE_RETURN,
            ) {
                return Err(protocol("migration transaction framing is invalid"));
            }
            match form {
                DocumentForm::Invalid(words) => {
                    let message = join2("migration transaction is invalid: ", words.as_str());
                    Err(protocol(message.as_str()))
                },
                DocumentForm::Canonical(canonical) => {
                    let line = join2(canonical.as_str(), "\n");
                    if !same_text(line.as_str(), text.as_str()) {
                        return Err(protocol("migration transaction is not canonical JSON"));
                    }
                    Ok(true)
                },
            }
        },
    }
}

/// The text of a transaction that is written.
pub fn migration_transaction_text(canonical: &str) -> (result: Result<String, RuntimeError>)
    ensures
        error::failure(result) == (if encode_utf8(canonical@).len() > MAX_CONVERSATION_RECORD_BYTES {
            error::protocol_failure("migration transaction exceeds its byte limit"@)
        } else {
            None
        }),
        result matches Ok(text) ==> text@ == canonical@ + "\n"@,
{
    if canonical.as_bytes().len() > MAX_CONVERSATION_RECORD_BYTES {
        return Err(protocol("migration transaction exceeds its byte limit"));
    }
    Ok(join2(canonical, "\n"))
}

/// What is wrong with what is found under the name of a bounded file.
pub open spec fn bounded_file_failure(
    found: Artifact,
    opened: Result<(), RuntimeError>,
    label: Seq<char>,
) -> Option<ErrorModel> {
    match found {
        Artifact::Missing => None,
        Artifact::NotAFile => error::protocol_failure(label + " must be a real file"@),
        Artifact::File { length } => if length > MAX_CONVERSATION_RECORD_BYTES {
            error::protocol_failure(label + " exceeds its byte limit"@)
        } else {
            error::failure(opened)
        },
        Artifact::Failed(error) => Some(error@),
    }
}

/// Whether a bounded file is there, and can be opened.
pub fn bounded_real_file_present(
    found: Artifact,
    opened: Result<(), RuntimeError>,
    label: &str,
) -> (result: Result<bool, RuntimeError>)
    ensures
        error::failure(result) == bounded_file_failure(found, opened, label@),
        result matches Ok(present) ==> present == (found is File),
{
    match found {
        Artifact::Missing => Ok(false),
        Artifact::NotAFile => {
            let message = join2(label, " must be a real file");
            Err(protocol(message.as_str()))
        },
        Artifact::File { length } => {
            if length > MAX_CONVERSATION_RECORD_BYTES as u64 {
                let message = join2(label, " exceeds its byte limit");
                return Err(protocol(message.as_str()));
            }
            opened?;
            Ok(true)
        },
        Artifact::Failed(error) => Err(error),
    }
}

/// What is wrong with a transaction of which the writing was interrupted.
pub open spec fn interrupted_failure(
    staged: Artifact,
    staged_opened: Result<(), RuntimeError>,
    target: Artifact,
    target_opened: Result<(), RuntimeError>,
) -> Option<ErrorModel> {
    error::first_failure(
        bounded_file_failure(staged, staged_opened, "staged migration transaction"@),
        if staged !is File {
            None
        } else {
            error::first_failure(
                bounded_file_failure(target, target_opened, "migration transaction"@),
                if target is File {
                    error::protocol_failure("migration transaction and its staged write both exist"@)
                } else {
                    None
                },
            )
        },
    )
}

/// Whether a transaction of which the writing was interrupted has to be removed.
pub fn recover_migration_transaction_write(
    staged: Artifact,
    staged_opened: Result<(), RuntimeError>,
    target: Artifact,
    target_opened: Result<(), RuntimeError>,
) -> (result: Result<bool, RuntimeError>)
    ensures
        error::failure(result) == interrupted_failure(staged, staged_opened, target, target_opened),
        result matches Ok(remove) ==> remove == (staged is File),
{
    if !bounded_real_file_present(staged, staged_opened, "staged migration transaction")? {
        return Ok(false);
    }
    if bounded_real_file_present(target, target_opened, "migration transaction")? {
        return Err(protocol("migration transaction and its staged write both exist"));
    }
    Ok(true)
}

/// The lines of a log, each with its end.
pub open spec fn log_text(lines: Seq<Seq<char>>) -> Seq<char>
    decreases lines.len(),
{
    if lines.len() == 0 {
        Seq::empty()
    } else {
        log_text(lines.drop_last()) + lines.last() + "\n"@
    }
}

/// Whether lines are all within the limit of a record.
pub open spec fn within_limit(lines: Seq<Seq<char>>) -> bool {
    forall|k: int|
        0 <= k < lines.len() ==> encode_utf8(#[trigger] lines[k]).len()
            <= MAX_CONVERSATION_RECORD_BYTES
}

/// The text of the log of a run that was moved: the canonical forms of its definition
/// and of the records of its tools.
pub fn create_migration_run_log(records: &Vec<String>) -> (result: Result<String, RuntimeError>)
    ensures
        error::failure(result) == (if within_limit(text::texts_view(records@)) {
            None
        } else {
            error::protocol_failure("conversation record exceeds its byte limit"@)
        }),
        result matches Ok(text) ==> text@ == log_text(text::texts_view(records@)),
{
    let ghost all = text::texts_view(records@);
    let mut text = String::new();
    let mut i: usize = 0;
    assert(all.take(0) =~= Seq::<Seq<char>>::empty());
    assert(text@ =~= log_text(all.take(0)));
    while i < records.len()
        invariant
            i <= records.len(),
            all == text::texts_view(records@),
            within_limit(all.take(i as int)),
            text@ == log_text(all.take(i as int)),
        decreases records.len() - i,
    {
        proof {
            assert(all.take(i + 1).drop_last() =~= all.take(i as int));
            assert(all.take(i + 1).last() == records@[i as int]@);
        }
        if records[i].as_str().as_bytes().len() > MAX_CONVERSATION_RECORD_BYTES {
            assert(all[i as int] == records@[i as int]@);
            assert(!within_limit(all));
            return Err(protocol("conversation record exceeds its byte limit"));
        }
        append_text(&mut text, records[i].as_str());
        append_text(&mut text, "\n");
        proof {
            assert forall|k: int| 0 <= k < i + 1 implies encode_utf8(
                #[trigger] all.take(i + 1)[k],
            ).len() <= MAX_CONVERSATION_RECORD_BYTES by {
                if k < i {
                    assert(all.take(i as int)[k] == all[k]);
                }
            }
        }
        i = i + 1;
    }
    assert(all.take(i as int) =~= all);
    Ok(text)
}

/// A file that is copied, and hashed as it is.
pub struct FileCopy {
    pub hasher: sha2::Sha256,
    pub copied: u64,
    pub expected_bytes: u64,
    pub expected_sha256: String,
}

impl FileCopy {
    /// What was copied.
    pub open spec fn content(self) -> Seq<u8> {
        digest::hasher_input(self.hasher)
    }

    /// The bytes that were copied are counted, and are no more than expected.
    pub open spec fn wf(self) -> bool {
        self.copied == self.content().len() && self.copied <= self.expected_bytes
    }

    /// A file of which nothing was copied; it must be as long as expected.
    pub fn copy_anchored_file(length: u64, expected: &LegacySourceFile) -> (result: Result<
        FileCopy,
        RuntimeError,
    >)
        ensures
            error::failure(result) == (if length != expected.bytes {
                error::protocol_failure("legacy source size changed before staging"@)
            } else {
                None
            }),
            result matches Ok(copy) ==> {
                &&& copy.wf()
                &&& copy.content() == Seq::<u8>::empty()
                &&& copy.expected_bytes == expected.bytes
                &&& copy.expected_sha256@ == expected.sha256@
            },
    {
        if length != expected.bytes {
            return Err(protocol("legacy source size changed before staging"));
        }
        Ok(
            FileCopy {
                hasher: hasher_new(),
                copied: 0,
                expected_bytes: expected.bytes,
                expected_sha256: expected.sha256.clone(),
            },
        )
    }

    /// Takes the next bytes of the file, which are written where they are accepted.
    pub fn copy_chunk(&mut self, chunk: &[u8]) -> (result: Result<(), RuntimeError>)
        requires
            old(self).wf(),
        ensures
            final(self).wf(),
            final(self).expected_bytes == old(self).expected_bytes,
            final(self).expected_sha256 == old(self).expected_sha256,
            error::failure(result) == (if old(self).copied + chunk@.len() > u64::MAX {
                error::protocol_failure("legacy source size overflow"@)
            } else if old(self).copied + chunk@.len() > old(self).expected_bytes {
                error::protocol_failure("legacy source grew while staging"@)
            } else {
                None
            }),
            final(self).content() == (if result is Ok {
                old(self).content() + chunk@
            } else {
                old(self).content()
            }),
    {
        match self.copied.checked_add(chunk.len() as u64) {
            None => Err(protocol("legacy source size overflow")),
            Some(copied) => {
                if copied > self.expected_bytes {
                    return Err(protocol("legacy source grew while staging"));
                }
                self.copied = copied;
                hasher_update(&mut self.hasher, chunk);
                Ok(())
            },
        }
    }

    /// Accepts the copy: it is what was expected.
    pub fn finish(self) -> (result: Result<(), RuntimeError>)
        requires
            self.wf(),
        ensures
            error::failure(result) == (if self.content().len() != self.expected_bytes || digest::digest_text(
                self.content(),
            ) != self.expected_sha256@ {
                error::protocol_failure("legacy source changed while staging"@)
            } else {
                None
            }),
    {
        let digest = finish_sha256(self.hasher);
        if self.copied != self.expected_bytes || !same_text(
            digest.as_str(),
            self.expected_sha256.as_str(),
        ) {
            return Err(protocol("legacy source changed while staging"));
        }
        Ok(())
    }
}

/// The record with which the log of a run begins that was moved.
pub fn migration_definition(definition: &LegacyDefinition, transaction: &MigrationTransaction) -> (record:
    RunLogRecord)
    ensures
        record matches RunLogRecord::Definition { schema, definition: written } && {
            &&& schema@ == RUN_LOG_RECORD_SCHEMA_V1@
            &&& written.flow_definition_id == definition.flow_definition_id
            &&& written.registry_hash@ == definition.registry_hash@
            &&& written.flow_definition_hash@ == definition.flow_definition_hash@
            &&& written.model is None
            &&& written.model_profile_id is None
            &&& written.model_context_limit is None
            &&& written.output_reserve is None
            &&& written.safety_margin is None
            &&& text::optional_view(written.legacy_session_id) == Some(transaction.run_session_id@)
            &&& written.legacy_source_manifest matches Some(manifest) && manifest@
                == transaction.source_manifest@ && manifest.canonical@
                == transaction.source_manifest.canonical@
        },
{
    RunLogRecord::Definition {
        schema: RUN_LOG_RECORD_SCHEMA_V1.to_owned(),
        definition: RunDefinition {
            flow_definition_id: definition.flow_definition_id.clone(),
            registry_hash: definition.registry_hash.clone(),
            flow_definition_hash: definition.flow_definition_hash.clone(),
            model: None,
            model_profile_id: None,
            model_context_limit: None,
            output_reserve: None,
            safety_margin: None,
            legacy_session_id: Some(transaction.run_session_id.clone()),
            legacy_source_manifest: Some(transaction.source_manifest.clone()),
        },
    }
}

/// The entry with which the history of a conversation begins that was moved. `valid`
/// says what the grammars of identifiers and timestamps have to say of it.
pub fn migration_root_entry(
    plan: &LegacyMigrationPlan,
    run_session_id: &Checked,
    entry_id_valid: bool,
    timestamp_valid: bool,
) -> (entry: ConversationEntry)
    ensures
        entry.schema@ == CONVERSATION_ENTRY_SCHEMA_V0@,
        entry.entry_id.text@ == manifest::root_entry_id(plan.manifest.canonical@),
        entry.entry_id.valid == entry_id_valid,
        entry.parent_entry_id is None,
        entry.recovery_snapshot_hash is None,
        entry.run_session_id == *run_session_id,
        entry.event_sequence == plan.last_event_sequence,
        entry.entry_type == ConversationEntryType::LegacyRun,
        entry.timestamp.text@ == plan.last_event_timestamp@,
        entry.timestamp.valid == timestamp_valid,
{
    ConversationEntry {
        schema: CONVERSATION_ENTRY_SCHEMA_V0.to_owned(),
        entry_id: Checked { text: legacy_root_entry_id(&plan.manifest), valid: entry_id_valid },
        parent_entry_id: None,
        recovery_snapshot_hash: None,
        run_session_id: run_session_id.clone(),
        event_sequence: plan.last_event_sequence,
        entry_type: ConversationEntryType::LegacyRun,
        timestamp: Checked { text: plan.last_event_timestamp.clone(), valid: timestamp_valid },
    }
}

/// The summary of a conversation that was moved.
pub open spec fn migrated_status(
    conversation_id: Seq<char>,
    entry_id: Seq<char>,
    uncertain: nat,
) -> SummaryModel {
    SummaryModel {
        schema: STATUS_SUMMARY_SCHEMA@,
        conversation_id,
        latest_entry_id: Some(entry_id),
        run_count: 1,
        uncertain_attempts: uncertain as u64,
    }
}

/// The summary of a conversation that was moved.
pub fn migration_status(conversation_id: &Checked, entry_id: &Checked, uncertain_attempts: u64) -> (summary:
    ConversationStatusSummary)
    ensures
        summary@ == migrated_status(
            conversation_id.text@,
            entry_id.text@,
            uncertain_attempts as nat,
        ),
        summary.conversation_id == *conversation_id,
{
    ConversationStatusSummary {
        schema: STATUS_SUMMARY_SCHEMA.to_owned(),
        conversation_id: conversation_id.clone(),
        latest_entry_id: Some(entry_id.clone()),
        run_count: 1,
        uncertain_attempts,
    }
}

/// What is put into a stage next.
#[derive(Clone, Copy, Debug, PartialEq, Eq, Structural)]
pub enum PopulateAction {
    CreateMarker,
    CreateRuns,
    CreateRun,
    CreateObjects,
    CopyEvents { index: usize },
    CopyContexts { index: usize },
    CopyObject { index: usize },
    CreateLock,
    CreateLog,
    CreateHistory,
    CreateStatus,
    SyncObjects,
    SyncRun,
    SyncRuns,
    SyncStage,
    Done,
}

/// How much a stage is to hold.
#[derive(Clone, Copy, Debug, PartialEq, Eq, Structural)]
pub struct StageCounts {
    pub events: usize,
    pub contexts: usize,
    pub objects: usize,
}

/// The first copy of events, or what follows where there is none.
pub open spec fn from_events(counts: StageCounts, index: int) -> PopulateAction {
    if index < counts.events {
        PopulateAction::CopyEvents { index: index as usize }
    } else {
        from_contexts(counts, 0)
    }
}

/// The first copy of contexts, or what follows where there is none.
pub open spec fn from_contexts(counts: StageCounts, index: int) -> PopulateAction {
    if index < counts.contexts {
        PopulateAction::CopyContexts { index: index as usize }
    } else {
        from_objects(counts, 0)
    }
}

/// The first copy of an object, or what follows where there is none.
pub open spec fn from_objects(counts: StageCounts, index: int) -> PopulateAction {
    if index < counts.objects {
        PopulateAction::CopyObject { index: index as usize }
    } else {
        PopulateAction::CreateLock
    }
}

/// What is put into a stage behind something.
pub open spec fn next_populate_action(action: PopulateAction, counts: StageCounts) -> PopulateAction {
    match action {
        PopulateAction::CreateMarker => PopulateAction::CreateRuns,
        PopulateAction::CreateRuns => PopulateAction::CreateRun,
        PopulateAction::CreateRun => PopulateAction::CreateObjects,
        PopulateAction::CreateObjects => from_events(counts, 0),
        PopulateAction::CopyEvents { index } => from_events(counts, index + 1),
        PopulateAction::CopyContexts { index } => from_contexts(counts, index + 1),
        PopulateAction::CopyObject { index } => from_objects(counts, index + 1),
        PopulateAction::CreateLock => PopulateAction::CreateLog,
        PopulateAction::CreateLog => PopulateAction::CreateHistory,
        PopulateAction::CreateHistory => PopulateAction::CreateStatus,
        PopulateAction::CreateStatus => PopulateAction::SyncObjects,
        PopulateAction::SyncObjects => PopulateAction::SyncRun,
        PopulateAction::SyncRun => PopulateAction::SyncRuns,
        PopulateAction::SyncRuns => PopulateAction::SyncStage,
        PopulateAction::SyncStage => PopulateAction::Done,
        PopulateAction::Done => PopulateAction::Done,
    }
}

fn events_from(counts: StageCounts, index: usize) -> (action: PopulateAction)
    ensures
        action == from_events(counts, index as int),
{
    if index < counts.events {
        PopulateAction::CopyEvents { index }
    } else {
        contexts_from(counts, 0)
    }
}

fn contexts_from(counts: StageCounts, index: usize) -> (action: PopulateAction)
    ensures
        action == from_contexts(counts, index as int),
{
    if index < counts.contexts {
        PopulateAction::CopyContexts { index }
    } else {
        objects_from(counts, 0)
    }
}

fn objects_from(counts: StageCounts, index: usize) -> (action: PopulateAction)
    ensures
        action == from_objects(counts, index as int),
{
    if index < counts.objects {
        PopulateAction::CopyObject { index }
    } else {
        PopulateAction::CreateLock
    }
}

/// Whether an action belongs to a stage that is to hold so much.
pub open spec fn belongs(action: PopulateAction, counts: StageCounts) -> bool {
    match action {
        PopulateAction::CopyEvents { index } => index < counts.events,
        PopulateAction::CopyContexts { index } => index < counts.contexts,
        PopulateAction::CopyObject { index } => index < counts.objects,
        _ => true,
    }
}

/// What is put into a stage behind something: the copies, then the log, the history and
/// the summary, and at the end all of it is made durable from the inside out.
pub fn populate_migration_stage(action: PopulateAction, counts: StageCounts) -> (next: PopulateAction)
    requires
        belongs(action, counts),
    ensures
        next == next_populate_action(action, counts),
        belongs(next, counts),
{
    match action {
        PopulateAction::CreateMarker => PopulateAction::CreateRuns,
        PopulateAction::CreateRuns => PopulateAction::CreateRun,
        PopulateAction::CreateRun => PopulateAction::CreateObjects,
        PopulateAction::CreateObjects => events_from(counts, 0),
        PopulateAction::CopyEvents { index } => events_from(counts, index + 1),
        PopulateAction::CopyContexts { index } => contexts_from(counts, index + 1),
        PopulateAction::CopyObject { index } => objects_from(counts, index + 1),
        PopulateAction::CreateLock => PopulateAction::CreateLog,
        PopulateAction::CreateLog => PopulateAction::CreateHistory,
        PopulateAction::CreateHistory => PopulateAction::CreateStatus,
        PopulateAction::CreateStatus => PopulateAction::SyncObjects,
        PopulateAction::SyncObjects => PopulateAction::SyncRun,
        PopulateAction::SyncRun => PopulateAction::SyncRuns,
        PopulateAction::SyncRuns => PopulateAction::SyncStage,
        PopulateAction::SyncStage => PopulateAction::Done,
        PopulateAction::Done => PopulateAction::Done,
    }
}

/// How many actions are left for a stage.
pub open spec fn actions_left(action: PopulateAction, counts: StageCounts) -> int {
    let copies = counts.events + counts.contexts + counts.objects;
    match action {
        PopulateAction::CreateMarker => 12 + copies,
        PopulateAction::CreateRuns => 11 + copies,
        PopulateAction::CreateRun => 10 + copies,
        PopulateAction::CreateObjects => 9 + copies,
        PopulateAction::CopyEvents { index } => 8 + copies - index,
        PopulateAction::CopyContexts { index } => 8 + counts.contexts + counts.objects - index,
        PopulateAction::CopyObject { index } => 8 + counts.objects - index,
        PopulateAction::CreateLock => 8,
        PopulateAction::CreateLog => 7,
        PopulateAction::CreateHistory => 6,
        PopulateAction::CreateStatus => 5,
        PopulateAction::SyncObjects => 4,
        PopulateAction::SyncRun => 3,
        PopulateAction::SyncRuns => 2,
        PopulateAction::SyncStage => 1,
        PopulateAction::Done => 0,
    }
}

/// A stage is filled in as many actions as it has parts: each takes one away, so that
/// every segment and every object is copied, each once.
pub proof fn law_stage_is_filled(action: PopulateAction, counts: StageCounts)
    requires
        belongs(action, counts),
        action !is Done,
    ensures
        actions_left(next_populate_action(action, counts), counts) == actions_left(action, counts)
            - 1,
        actions_left(PopulateAction::CreateMarker, counts) == 12 + counts.events + counts.contexts
            + counts.objects,
{
}

/// A name in the root of a stage, and what checking it gave: how long the file is, or,
/// of the runs, nothing more than that they are accepted.
pub struct StageEntry {
    pub name: ListedName,
    pub checked: Result<u64, RuntimeError>,
}

/// What was found in the root of a stage so far.
#[derive(Clone, Copy, Debug, PartialEq, Eq, Structural)]
pub struct StageRoot {
    pub marker: bool,
    pub staged_marker: bool,
    pub entries: usize,
}

/// Whether a name may stand in the root of a stage.
pub open spec fn is_stage_leaf(leaf: Seq<char>) -> bool {
    leaf == MIGRATION_IDENTITY_LEAF@ || leaf == MIGRATION_IDENTITY_STAGE_LEAF@ || leaf
        == CONVERSATION_HISTORY_LEAF@ || leaf == CONVERSATION_STATUS_LEAF@ || leaf
        == CONVERSATION_RUNS_DIR@
}

/// What is wrong with a name in the root of a stage.
pub open spec fn stage_entry_failure(root: StageRoot, entry: StageEntry) -> Option<ErrorModel> {
    match entry.name {
        ListedName::Failed(error) => Some(error@),
        ListedName::NotText => error::protocol_failure(
            "legacy migration staging entry name must be UTF-8"@,
        ),
        ListedName::Name(leaf) => if root.entries >= 4 || !is_stage_leaf(leaf@) {
            error::protocol_failure("legacy migration staging root contains an unknown entry"@)
        } else {
            match entry.checked {
                Err(error) => Some(error@),
                Ok(bytes) => if leaf@ == MIGRATION_IDENTITY_STAGE_LEAF@ && bytes
                    > MAX_MIGRATION_IDENTITY_MARKER_BYTES {
                    error::protocol_failure("staged migration identity marker exceeds its byte limit"@)
                } else {
                    None
                },
            }
        },
    }
}

/// The root of a stage with one more name.
pub open spec fn with_entry(root: StageRoot, entry: StageEntry) -> StageRoot {
    StageRoot {
        marker: root.marker || entry.name->Name_0@ == MIGRATION_IDENTITY_LEAF@,
        staged_marker: root.staged_marker || entry.name->Name_0@ == MIGRATION_IDENTITY_STAGE_LEAF@,
        entries: (root.entries + 1) as usize,
    }
}

/// The root of a stage with its first names.
pub open spec fn root_of(entries: Seq<StageEntry>, count: int) -> StageRoot
    decreases count,
{
    if count <= 0 {
        StageRoot { marker: false, staged_marker: false, entries: 0 }
    } else {
        with_entry(root_of(entries, count - 1), entries[count - 1])
    }
}

/// What is wrong with the first names in the root of a stage.
pub open spec fn stage_entries_failure(entries: Seq<StageEntry>, count: int) -> Option<ErrorModel>
    decreases count,
{
    if count <= 0 {
        None
    } else {
        error::first_failure(
            stage_entries_failure(entries, count - 1),
            stage_entry_failure(root_of(entries, count - 1), entries[count - 1]),
        )
    }
}

proof fn lemma_stage_fails_early(entries: Seq<StageEntry>, i: int, count: int)
    requires
        0 <= i <= count,
        stage_entries_failure(entries, i) is Some,
    ensures
        stage_entries_failure(entries, count) == stage_entries_failure(entries, i),
    decreases count,
{
    if i < count {
        lemma_stage_fails_early(entries, i, count - 1);
    }
}

/// What is wrong with the root of a stage as a whole.
pub open spec fn root_failure(
    root: StageRoot,
    marker_text: Result<String, RuntimeError>,
    identity: Seq<char>,
) -> Option<ErrorModel> {
    if root.staged_marker {
        if root.marker || root.entries != 1 {
            error::protocol_failure("staged migration identity marker has inconsistent siblings"@)
        } else {
            None
        }
    } else if !root.marker {
        if root.entries == 0 {
            None
        } else {
            error::protocol_failure("markerless legacy migration staging directory must be empty"@)
        }
    } else {
        marker_text_failure(marker_text, identity)
    }
}

/// What is wrong with the marker of a stage.
pub open spec fn marker_text_failure(text: Result<String, RuntimeError>, identity: Seq<char>) -> Option<
    ErrorModel,
> {
    match text {
        Err(error) => Some(error@),
        Ok(text) => if text@ != identity + "\n"@ {
            error::protocol_failure("migration staging identity does not match its transaction"@)
        } else {
            None
        },
    }
}

/// Accepts the marker of a stage: it holds the identity that the transaction names.
pub fn check_staging_marker(text: Result<String, RuntimeError>, staging_identity: &str) -> (result:
    Result<(), RuntimeError>)
    ensures
        error::failure(result) == marker_text_failure(text, staging_identity@),
{
    let text = text?;
    let expected = join2(staging_identity, "\n");
    if !same_text(text.as_str(), expected.as_str()) {
        return Err(protocol("migration staging identity does not match its transaction"));
    }
    Ok(())
}

fn take_stage_entry(root: StageRoot, entry: StageEntry) -> (result: Result<StageRoot, RuntimeError>)
    requires
        root.entries <= 4,
    ensures
        error::failure(result) == stage_entry_failure(root, entry),
        result matches Ok(next) ==> next == with_entry(root, entry) && next.entries <= 4,
{
    match entry.name {
        ListedName::Failed(error) => Err(error),
        ListedName::NotText => Err(protocol("legacy migration staging entry name must be UTF-8")),
        ListedName::Name(leaf) => {
            let marker = same_text(leaf.as_str(), MIGRATION_IDENTITY_LEAF);
            let staged = same_text(leaf.as_str(), MIGRATION_IDENTITY_STAGE_LEAF);
            if root.entries >= 4 || !(marker || staged || same_text(
                leaf.as_str(),
                CONVERSATION_HISTORY_LEAF,
            ) || same_text(leaf.as_str(), CONVERSATION_STATUS_LEAF) || same_text(
                leaf.as_str(),
                CONVERSATION_RUNS_DIR,
            )) {
                return Err(protocol("legacy migration staging root contains an unknown entry"));
            }
            let bytes: u64 = entry.checked?;
            if staged && bytes > MAX_MIGRATION_IDENTITY_MARKER_BYTES {
                return Err(protocol("staged migration identity marker exceeds its byte limit"));
            }
            Ok(
                StageRoot {
                    marker: root.marker || marker,
                    staged_marker: root.staged_marker || staged,
                    entries: root.entries + 1,
                },
            )
        },
    }
}

/// Accepts a stage that moving left behind: with the marker that its transaction names,
/// or before it had one. Says whether the marker is there.
pub fn validate_recoverable_migration_stage(
    entries: Vec<StageEntry>,
    marker_text: Result<String, RuntimeError>,
    staging_identity: &str,
) -> (result: Result<bool, RuntimeError>)
    ensures
        error::failure(result) == error::first_failure(
            stage_entries_failure(entries@, entries@.len() as int),
            root_failure(
                root_of(entries@, entries@.len() as int),
                marker_text,
                staging_identity@,
            ),
        ),
        result matches Ok(marker) ==> marker == root_of(entries@, entries@.len() as int).marker,
{
    let ghost all = entries@;
    let total: usize = entries.len();
    let mut pending = reversed(entries);
    let mut root = StageRoot { marker: false, staged_marker: false, entries: 0 };
    let mut seen: usize = 0;
    while pending.len() > 0
        invariant
            all == entries@,
            seen + pending.len() == total,
            total == all.len(),
            root.entries <= 4,
            root == root_of(all, seen as int),
            stage_entries_failure(all, seen as int) is None,
            forall|k: int|
                0 <= k < pending@.len() ==> #[trigger] pending@[k] == all[all.len() - 1 - k],
        decreases pending@.len(),
    {
        match pending.pop() {
            None => {},
            Some(entry) => {
                assert(entry == all[seen as int]);
                proof {
                    if stage_entry_failure(root, entry) is Some {
                        lemma_stage_fails_early(all, seen + 1, all.len() as int);
                    }
                }
                root = take_stage_entry(root, entry)?;
                seen = seen + 1;
            },
        }
    }
    if root.staged_marker {
        if root.marker || root.entries != 1 {
            return Err(protocol("staged migration identity marker has inconsistent siblings"));
        }
        return Ok(false);
    }
    if !root.marker {
        if root.entries == 0 {
            return Ok(false);
        }
        return Err(protocol("markerless legacy migration staging directory must be empty"));
    }
    check_staging_marker(marker_text, staging_identity)?;
    Ok(true)
}

/// A name among the runs of a stage, and whether the run under it is accepted.
pub struct StagedRun {
    pub name: ListedName,
    pub checked: Result<(), RuntimeError>,
}

/// What is wrong with a name among the runs of a stage.
pub open spec fn staged_run_failure(run: StagedRun, before: int, run_session_id: Seq<char>) -> Option<
    ErrorModel,
> {
    match run.name {
        ListedName::Failed(error) => Some(error@),
        ListedName::NotText => error::protocol_failure("legacy migration staged Run name must be UTF-8"@),
        ListedName::Name(leaf) => if before > 0 || leaf@ != run_session_id {
            error::protocol_failure("legacy migration staging runs contains an unknown entry"@)
        } else {
            error::failure(run.checked)
        },
    }
}

/// What is wrong with the runs of a stage, from one of them on.
pub open spec fn staged_runs_failure(runs: Seq<StagedRun>, from: int, run_session_id: Seq<char>) -> Option<
    ErrorModel,
>
    decreases runs.len() - from,
{
    if from < 0 || from >= runs.len() {
        None
    } else {
        error::first_failure(
            staged_run_failure(runs[from], from, run_session_id),
            staged_runs_failure(runs, from + 1, run_session_id),
        )
    }
}

fn check_staged_run(run: StagedRun, first: bool, run_session_id: &str) -> (result: Result<
    (),
    RuntimeError,
>)
    ensures
        error::failure(result) == staged_run_failure(
            run,
            if first {
                0
            } else {
                1
            },
            run_session_id@,
        ),
{
    match run.name {
        ListedName::Failed(error) => Err(error),
        ListedName::NotText => Err(protocol("legacy migration staged Run name must be UTF-8")),
        ListedName::Name(leaf) => {
            if !first || !same_text(leaf.as_str(), run_session_id) {
                return Err(protocol("legacy migration staging runs contains an unknown entry"));
            }
            run.checked
        },
    }
}

/// Accepts the runs of a stage: the one that the transaction names, or none.
pub fn validate_migration_stage_runs(runs: Vec<StagedRun>, run_session_id: &str) -> (result: Result<
    (),
    RuntimeError,
>)
    ensures
        error::failure(result) == staged_runs_failure(runs@, 0, run_session_id@),
{
    let ghost all = runs@;
    let total: usize = runs.len();
    let mut pending = reversed(runs);
    let mut seen: usize = 0;
    while pending.len() > 0
        invariant
            all == runs@,
            seen + pending.len() == total,
            total == all.len(),
            staged_runs_failure(all, 0, run_session_id@) == staged_runs_failure(
                all,
                seen as int,
                run_session_id@,
            ),
            forall|k: int|
                0 <= k < pending@.len() ==> #[trigger] pending@[k] == all[all.len() - 1 - k],
        decreases pending@.len(),
    {
        match pending.pop() {
            None => {},
            Some(run) => {
                assert(run == all[seen as int]);
                check_staged_run(run, seen == 0, run_session_id)?;
                seen = seen + 1;
            },
        }
    }
    Ok(())
}

/// Whether a segment belongs to a stream that has so many; only the base name stands for
/// the first.
pub open spec fn segment_allowed(leaf: SegmentLeaf, is_base: bool, count: usize) -> bool {
    match leaf {
        SegmentLeaf::Ordinal(ordinal) => if ordinal == 1 {
            count != 0 && is_base
        } else {
            ordinal <= count
        },
        _ => false,
    }
}

/// Whether a segment belongs to a stream that has so many.
pub fn migration_stage_segment_is_allowed(leaf: SegmentLeaf, is_base: bool, count: usize) -> (allowed:
    bool)
    ensures
        allowed == segment_allowed(leaf, is_base, count),
{
    match leaf {
        SegmentLeaf::Ordinal(ordinal) => {
            if ordinal == 1 {
                count != 0 && is_base
            } else {
                ordinal <= count as u64
            }
        },
        _ => false,
    }
}

/// A name in a staged run: what it is to the streams of events and of contexts, and what
/// checking it gave.
pub struct StagedRunEntry {
    pub name: ListedName,
    pub event_segment: SegmentLeaf,
    pub event_base: bool,
    pub context_segment: SegmentLeaf,
    pub context_base: bool,
    pub checked: Result<(), RuntimeError>,
}

/// What is wrong with a name in a staged run.
pub open spec fn staged_run_entry_failure(entry: StagedRunEntry, events: usize, contexts: usize) -> Option<
    ErrorModel,
> {
    match entry.name {
        ListedName::Failed(error) => Some(error@),
        ListedName::NotText => error::protocol_failure(
            "legacy migration staged Run entry name must be UTF-8"@,
        ),
        ListedName::Name(leaf) => if leaf@ == RUN_OBJECTS_DIR@ || leaf@ == RUN_SESSION_LOCK_LEAF@
            || leaf@ == RUN_LOG_LEAF@ || segment_allowed(
            entry.event_segment,
            entry.event_base,
            events,
        ) || segment_allowed(entry.context_segment, entry.context_base, contexts) {
            error::failure(entry.checked)
        } else {
            error::protocol_failure("legacy migration staged Run contains an unknown entry"@)
        },
    }
}

/// Accepts a name in a staged run.
pub fn validate_migration_stage_run_entry(entry: StagedRunEntry, events: usize, contexts: usize) -> (result:
    Result<(), RuntimeError>)
    ensures
        error::failure(result) == staged_run_entry_failure(entry, events, contexts),
{
    match entry.name {
        ListedName::Failed(error) => Err(error),
        ListedName::NotText => Err(
            protocol("legacy migration staged Run entry name must be UTF-8"),
        ),
        ListedName::Name(leaf) => {
            if same_text(leaf.as_str(), RUN_OBJECTS_DIR) || same_text(
                leaf.as_str(),
                RUN_SESSION_LOCK_LEAF,
            ) || same_text(leaf.as_str(), RUN_LOG_LEAF) || migration_stage_segment_is_allowed(
                entry.event_segment,
                entry.event_base,
                events,
            ) || migration_stage_segment_is_allowed(
                entry.context_segment,
                entry.context_base,
                contexts,
            ) {
                return entry.checked;
            }
            Err(protocol("legacy migration staged Run contains an unknown entry"))
        },
    }
}

/// The first thing that is wrong with a staged run, from one of its names on.
pub open spec fn staged_run_entries_failure(
    entries: Seq<StagedRunEntry>,
    from: int,
    events: usize,
    contexts: usize,
) -> Option<ErrorModel>
    decreases entries.len() - from,
{
    if from < 0 || from >= entries.len() {
        None
    } else {
        error::first_failure(
            staged_run_entry_failure(entries[from], events, contexts),
            staged_run_entries_failure(entries, from + 1, events, contexts),
        )
    }
}

/// Accepts a staged run, whose transaction names so many segments of events and of
/// contexts.
pub fn validate_migration_stage_run(entries: Vec<StagedRunEntry>, events: usize, contexts: usize) -> (result:
    Result<(), RuntimeError>)
    ensures
        error::failure(result) == staged_run_entries_failure(entries@, 0, events, contexts),
{
    let ghost all = entries@;
    let total: usize = entries.len();
    let mut pending = reversed(entries);
    let mut seen: usize = 0;
    while pending.len() > 0
        invariant
            all == entries@,
            seen + pending.len() == total,
            total == all.len(),
            staged_run_entries_failure(all, 0, events, contexts) == staged_run_entries_failure(
                all,
                seen as int,
                events,
                contexts,
            ),
            forall|k: int|
                0 <= k < pending@.len() ==> #[trigger] pending@[k] == all[all.len() - 1 - k],
        decreases pending@.len(),
    {
        match pending.pop() {
            None => {},
            Some(entry) => {
                assert(entry == all[seen as int]);
                validate_migration_stage_run_entry(entry, events, contexts)?;
                seen = seen + 1;
            },
        }
    }
    Ok(())
}

/// How much the objects of a stage may be.
#[derive(Clone, Copy, Debug, PartialEq, Eq, Structural)]
pub struct StagedObjectLimits {
    pub max_object_bytes: u64,
    pub max_objects: usize,
    pub max_total_bytes: u64,
    /// How many there are by the transaction.
    pub count: usize,
    /// How many bytes they have by the transaction.
    pub bytes: u64,
}

/// The objects of a stage that were taken so far.
#[derive(Clone, Copy, Debug, PartialEq, Eq, Structural)]
pub struct StagedObjects {
    pub count: usize,
    pub bytes: u64,
}

/// What is wrong with an object of a stage behind the others.
pub open spec fn staged_object_failure(
    taken: StagedObjects,
    name: ListedName,
    stored: Result<u64, RuntimeError>,
    limits: StagedObjectLimits,
) -> Option<ErrorModel> {
    match name {
        ListedName::Failed(error) => Some(error@),
        ListedName::NotText => error::protocol_failure(
            "legacy migration staged object name must be UTF-8"@,
        ),
        ListedName::Name(leaf) => error::first_failure(
            contract::digest_failure(leaf@, "legacy migration staged object"@),
            match stored {
                Err(error) => Some(error@),
                Ok(stored) => if stored > limits.max_object_bytes {
                    error::protocol_failure("legacy migration staged object exceeds its byte limit"@)
                } else if taken.count + 1 > limits.max_objects || taken.count + 1 > limits.count {
                    error::protocol_failure(
                        "legacy migration staged object count exceeds its transaction"@,
                    )
                } else if taken.bytes + stored > u64::MAX {
                    error::protocol_failure("legacy migration staged object byte count overflow"@)
                } else if taken.bytes + stored > limits.max_total_bytes {
                    error::protocol_failure("session object data exceeds its byte limit"@)
                } else if taken.bytes + stored > limits.bytes {
                    error::protocol_failure("legacy migration staged object bytes exceed its transaction"@)
                } else {
                    None
                },
            },
        ),
    }
}

/// Takes an object of a stage.
pub fn validate_migration_stage_object(
    taken: StagedObjects,
    name: ListedName,
    stored: Result<u64, RuntimeError>,
    limits: StagedObjectLimits,
) -> (result: Result<StagedObjects, RuntimeError>)
    ensures
        error::failure(result) == staged_object_failure(taken, name, stored, limits),
        result matches Ok(next) ==> next.count == taken.count + 1 && next.bytes == taken.bytes
            + stored->Ok_0 && next.count <= limits.count && next.bytes <= limits.bytes,
{
    match name {
        ListedName::Failed(error) => Err(error),
        ListedName::NotText => Err(protocol("legacy migration staged object name must be UTF-8")),
        ListedName::Name(leaf) => {
            validate_digest(leaf.as_str(), "legacy migration staged object")?;
            let stored: u64 = stored?;
            if stored > limits.max_object_bytes {
                return Err(protocol("legacy migration staged object exceeds its byte limit"));
            }
            if taken.count >= limits.max_objects || taken.count >= limits.count {
                return Err(
                    protocol("legacy migration staged object count exceeds its transaction"),
                );
            }
            match taken.bytes.checked_add(stored) {
                None => Err(protocol("legacy migration staged object byte count overflow")),
                Some(bytes) => {
                    if bytes > limits.max_total_bytes {
                        return Err(protocol("session object data exceeds its byte limit"));
                    }
                    if bytes > limits.bytes {
                        return Err(
                            protocol("legacy migration staged object bytes exceed its transaction"),
                        );
                    }
                    Ok(StagedObjects { count: taken.count + 1, bytes })
                },
            }
        },
    }
}

/// An object of a stage: its name, and how long it is.
pub struct StagedObject {
    pub name: ListedName,
    pub stored: Result<u64, RuntimeError>,
}

/// The first thing that is wrong with the objects of a stage, from one of them on.
pub open spec fn staged_objects_failure(
    objects: Seq<StagedObject>,
    from: int,
    taken: StagedObjects,
    limits: StagedObjectLimits,
) -> Option<ErrorModel>
    decreases objects.len() - from,
{
    if from < 0 || from >= objects.len() {
        None
    } else {
        let object = objects[from];
        error::first_failure(
            staged_object_failure(taken, object.name, object.stored, limits),
            staged_objects_failure(
                objects,
                from + 1,
                StagedObjects {
                    count: (taken.count + 1) as usize,
                    bytes: (taken.bytes + object.stored->Ok_0) as u64,
                },
                limits,
            ),
        )
    }
}

/// Accepts the objects of a stage: no more, and no larger ones, than its transaction
/// names.
pub fn validate_migration_stage_objects(objects: Vec<StagedObject>, limits: StagedObjectLimits) -> (result:
    Result<(), RuntimeError>)
    ensures
        error::failure(result) == staged_objects_failure(
            objects@,
            0,
            StagedObjects { count: 0, bytes: 0 },
            limits,
        ),
{
    let ghost all = objects@;
    let total: usize = objects.len();
    let mut pending = reversed(objects);
    let mut taken = StagedObjects { count: 0, bytes: 0 };
    let mut seen: usize = 0;
    while pending.len() > 0
        invariant
            all == objects@,
            seen + pending.len() == total,
            total == all.len(),
            staged_objects_failure(all, 0, StagedObjects { count: 0, bytes: 0 }, limits)
                == staged_objects_failure(all, seen as int, taken, limits),
            forall|k: int|
                0 <= k < pending@.len() ==> #[trigger] pending@[k] == all[all.len() - 1 - k],
        decreases pending@.len(),
    {
        match pending.pop() {
            None => {},
            Some(object) => {
                assert(object == all[seen as int]);
                taken = validate_migration_stage_object(taken, object.name, object.stored, limits)?;
                seen = seen + 1;
            },
        }
    }
    Ok(())
}

/// What stands under a name of a stage that goes.
#[derive(Clone, Copy, Debug, PartialEq, Eq, Structural)]
pub enum StagedKind {
    Link,
    Directory,
    File,
    Other,
}

/// What is done about a name of a stage that goes.
#[derive(Clone, Copy, Debug, PartialEq, Eq, Structural)]
pub enum StagedRemoval {
    /// It stays until the rest is gone.
    Keep,
    /// What it holds goes first.
    Directory,
    File,
}

/// What is wrong with a name of a stage that goes.
pub open spec fn staged_removal_failure(
    name: ListedName,
    kind: Result<StagedKind, RuntimeError>,
    preserve_marker: bool,
) -> Option<ErrorModel> {
    match name {
        ListedName::Failed(error) => Some(error@),
        ListedName::NotText => error::protocol_failure(
            "legacy migration staging entry name must be UTF-8"@,
        ),
        ListedName::Name(leaf) => if preserve_marker && leaf@ == MIGRATION_IDENTITY_LEAF@ {
            None
        } else {
            match kind {
                Err(error) => Some(error@),
                Ok(kind) => match kind {
                    StagedKind::Link => error::protocol_failure(
                        "legacy migration staging cleanup refuses symlinks or reparse points"@,
                    ),
                    StagedKind::Other => error::protocol_failure(
                        "legacy migration staging cleanup refuses non-files"@,
                    ),
                    _ => None,
                },
            }
        },
    }
}

/// What is done about a name of a stage that goes: in its root the marker stays to the
/// end, and nothing but files and directories is removed.
pub fn remove_migration_stage_entry(
    name: ListedName,
    kind: Result<StagedKind, RuntimeError>,
    preserve_marker: bool,
) -> (result: Result<StagedRemoval, RuntimeError>)
    ensures
        error::failure(result) == staged_removal_failure(name, kind, preserve_marker),
        result matches Ok(removal) ==> removal == (if preserve_marker && name->Name_0@
            == MIGRATION_IDENTITY_LEAF@ {
            StagedRemoval::Keep
        } else if kind->Ok_0 == StagedKind::Directory {
            StagedRemoval::Directory
        } else {
            StagedRemoval::File
        }),
{
    match name {
        ListedName::Failed(error) => Err(error),
        ListedName::NotText => Err(protocol("legacy migration staging entry name must be UTF-8")),
        ListedName::Name(leaf) => {
            if preserve_marker && same_text(leaf.as_str(), MIGRATION_IDENTITY_LEAF) {
                return Ok(StagedRemoval::Keep);
            }
            match kind? {
                StagedKind::Link => Err(
                    protocol("legacy migration staging cleanup refuses symlinks or reparse points"),
                ),
                StagedKind::Directory => Ok(StagedRemoval::Directory),
                StagedKind::File => Ok(StagedRemoval::File),
                StagedKind::Other => Err(
                    protocol("legacy migration staging cleanup refuses non-files"),
                ),
            }
        },
    }
}

/// Accepts a stage that is about to go: it is the one that was emptied.
pub fn check_staging_identity(
    current: Option<DirectoryIdentity>,
    expected: DirectoryIdentity,
) -> (result: Result<(), RuntimeError>)
    ensures
        error::failure(result) == run_mutation::going_failure(
            current,
            expected,
            "legacy migration staging directory disappeared"@,
            "legacy migration staging directory identity changed during cleanup"@,
        ),
{
    match current {
        None => Err(protocol("legacy migration staging directory disappeared")),
        Some(identity) => {
            if identity != expected {
                return Err(
                    protocol("legacy migration staging directory identity changed during cleanup"),
                );
            }
            Ok(())
        },
    }
}

/// Whether the marker of a conversation that was moved has to be removed: it is there,
/// and is the one that the transaction names.
pub fn remove_published_staging_marker(
    found: RealFile,
    text: Result<String, RuntimeError>,
    expected_identity: &str,
) -> (result: Result<bool, RuntimeError>)
    ensures
        error::failure(result) == error::first_failure(
            reclamation::real_file_failure(found, "published migration marker"@),
            if found !is File {
                None
            } else {
                match text {
                    Err(error) => Some(error@),
                    Ok(text) => if text@ != expected_identity@ + "\n"@ {
                        error::protocol_failure("published migration marker identity is invalid"@)
                    } else {
                        None
                    },
                }
            },
        ),
        result matches Ok(remove) ==> remove == (found is File),
{
    if !anchored_real_file_present(found, "published migration marker")? {
        return Ok(false);
    }
    let text = text?;
    let expected = join2(expected_identity, "\n");
    if !same_text(text.as_str(), expected.as_str()) {
        return Err(protocol("published migration marker identity is invalid"));
    }
    Ok(true)
}

proof fn lemma_log_of_parts(left: Seq<Seq<char>>, right: Seq<Seq<char>>)
    ensures
        log_text(left + right) == log_text(left) + log_text(right),
    decreases right.len(),
{
    if right.len() == 0 {
        assert(left + right =~= left);
        assert(log_text(left) + log_text(right) =~= log_text(left));
    } else {
        lemma_log_of_parts(left, right.drop_last());
        assert((left + right).drop_last() =~= left + right.drop_last());
        assert((left + right).last() == right.last());
        assert(log_text(left + right) =~= log_text(left) + log_text(right));
    }
}

/// The log of a migrated run holds each record once and in order, each on a line of its own.
pub proof fn law_log_holds_each_record(lines: Seq<Seq<char>>, k: int)
    requires
        0 <= k < lines.len(),
    ensures
        log_text(lines) == log_text(lines.take(k)) + lines[k] + "\n"@ + log_text(
            lines.skip(k + 1),
        ),
        log_text(Seq::empty()) == Seq::<char>::empty(),
{
    let (head, one, tail) = (lines.take(k), seq![lines[k]], lines.skip(k + 1));
    assert(lines =~= (head + one) + tail);
    lemma_log_of_parts(head + one, tail);
    lemma_log_of_parts(head, one);
    assert(one.drop_last() =~= Seq::<Seq<char>>::empty());
    assert(log_text(one.drop_last()) =~= Seq::<char>::empty());
    assert(log_text(lines) =~= log_text(lines.take(k)) + lines[k] + "\n"@ + log_text(
        lines.skip(k + 1),
    ));
}

/// The action that follows the first after some steps.
pub open spec fn populating(counts: StageCounts, steps: nat) -> PopulateAction
    decreases steps,
{
    if steps == 0 {
        PopulateAction::CreateMarker
    } else {
        next_populate_action(populating(counts, (steps - 1) as nat), counts)
    }
}

proof fn lemma_copies(counts: StageCounts, i: nat)
    ensures
        ({
            let (events, contexts, objects) = (
                counts.events as nat,
                counts.contexts as nat,
                counts.objects as nat,
            );
            let copies = events + contexts + objects;
            &&& i < events ==> populating(counts, 4 + i) == PopulateAction::CopyEvents {
                index: i as usize,
            }
            &&& events <= i < events + contexts ==> populating(counts, 4 + i)
                == PopulateAction::CopyContexts { index: (i - events) as usize }
            &&& events + contexts <= i < copies ==> populating(counts, 4 + i)
                == PopulateAction::CopyObject { index: (i - events - contexts) as usize }
            &&& i == copies ==> populating(counts, 4 + i) == PopulateAction::CreateLock
        }),
    decreases i,
{
    if i == 0 {
        assert(populating(counts, 0) == PopulateAction::CreateMarker);
        assert(populating(counts, 1) == PopulateAction::CreateRuns);
        assert(populating(counts, 2) == PopulateAction::CreateRun);
        assert(populating(counts, 3) == PopulateAction::CreateObjects);
        assert(populating(counts, 4) == from_events(counts, 0));
    } else {
        lemma_copies(counts, (i - 1) as nat);
        assert(populating(counts, 4 + i) == next_populate_action(
            populating(counts, (3 + i) as nat),
            counts,
        ));
    }
}

/// A stage is filled in one order: its marker, its directories, every event segment, every
/// context segment and every object, each once and by its number, then the lock, the log, the
/// history and the status, and at last what was written is made durable from the inside out.
pub proof fn law_stage_is_filled_in_order(counts: StageCounts, i: nat)
    ensures
        ({
            let (events, contexts, objects) = (
                counts.events as nat,
                counts.contexts as nat,
                counts.objects as nat,
            );
            let copies = events + contexts + objects;
            &&& populating(counts, 0) is CreateMarker
            &&& populating(counts, 1) is CreateRuns
            &&& populating(counts, 2) is CreateRun
            &&& populating(counts, 3) is CreateObjects
            &&& i < events ==> populating(counts, 4 + i) == PopulateAction::CopyEvents {
                index: i as usize,
            }
            &&& i < contexts ==> populating(counts, 4 + events + i)
                == PopulateAction::CopyContexts { index: i as usize }
            &&& i < objects ==> populating(counts, 4 + events + contexts + i)
                == PopulateAction::CopyObject { index: i as usize }
            &&& populating(counts, 4 + copies) is CreateLock
            &&& populating(counts, 5 + copies) is CreateLog
            &&& populating(counts, 6 + copies) is CreateHistory
            &&& populating(counts, 7 + copies) is CreateStatus
            &&& populating(counts, 8 + copies) is SyncObjects
            &&& populating(counts, 9 + copies) is SyncRun
            &&& populating(counts, 10 + copies) is SyncRuns
            &&& populating(counts, 11 + copies) is SyncStage
            &&& populating(counts, 12 + copies + i) is Done
        }),
    decreases i,
{
    let (events, contexts, objects) = (
        counts.events as nat,
        counts.contexts as nat,
        counts.objects as nat,
    );
    let copies = events + contexts + objects;
    assert(populating(counts, 0) is CreateMarker);
    assert(populating(counts, 1) is CreateRuns);
    assert(populating(counts, 2) is CreateRun);
    assert(populating(counts, 3) is CreateObjects);
    lemma_copies(counts, i);
    lemma_copies(counts, events + i);
    lemma_copies(counts, events + contexts + i);
    lemma_copies(counts, copies);
    assert(populating(counts, 5 + copies) is CreateLog);
    assert(populating(counts, 6 + copies) is CreateHistory);
    assert(populating(counts, 7 + copies) is CreateStatus);
    assert(populating(counts, 8 + copies) is SyncObjects);
    assert(populating(counts, 9 + copies) is SyncRun);
    assert(populating(counts, 10 + copies) is SyncRuns);
    assert(populating(counts, 11 + copies) is SyncStage);
    assert(populating(counts, 12 + copies) is Done);
    if i > 0 {
        law_stage_is_filled_in_order(counts, (i - 1) as nat);
        assert(populating(counts, 12 + copies + i) == next_populate_action(
            populating(counts, (12 + copies + i - 1) as nat),
            counts,
        ));
    }
}

proof fn lemma_stage_entries(entries: Seq<StageEntry>, count: int)
    requires
        0 <= count <= entries.len(),
        stage_entries_failure(entries, count) is None,
    ensures
        count <= 4,
        root_of(entries, count).entries == count,
        forall|k: int|
            0 <= k < count ==> (#[trigger] entries[k]).name is Name && entries[k].checked is Ok
                && is_stage_leaf(entries[k].name->Name_0@),
        root_of(entries, count).marker <==> exists|k: int|
            0 <= k < count && (#[trigger] entries[k]).name->Name_0@ == MIGRATION_IDENTITY_LEAF@,
        root_of(entries, count).staged_marker <==> exists|k: int|
            0 <= k < count && (#[trigger] entries[k]).name->Name_0@
                == MIGRATION_IDENTITY_STAGE_LEAF@,
    decreases count,
{
    if count > 0 {
        lemma_stage_entries(entries, count - 1);
        let last = entries[count - 1];
        assert(stage_entry_failure(root_of(entries, count - 1), last) is None);
        if root_of(entries, count - 1).marker {
            let k = choose|k: int|
                0 <= k < count - 1 && (#[trigger] entries[k]).name->Name_0@
                    == MIGRATION_IDENTITY_LEAF@;
            assert(entries[k].name->Name_0@ == MIGRATION_IDENTITY_LEAF@);
        }
        if root_of(entries, count - 1).staged_marker {
            let k = choose|k: int|
                0 <= k < count - 1 && (#[trigger] entries[k]).name->Name_0@
                    == MIGRATION_IDENTITY_STAGE_LEAF@;
            assert(entries[k].name->Name_0@ == MIGRATION_IDENTITY_STAGE_LEAF@);
        }
    }
}

/// A stage that may be taken up holds only what a stage holds. It is said to have its marker
/// exactly where the marker is among its entries; one that has it names the transaction in it,
/// and one that has it not is empty or holds only the marker's staged write.
pub proof fn law_stage_is_known_by_its_marker(
    entries: Seq<StageEntry>,
    marker_text: Result<String, RuntimeError>,
    identity: Seq<char>,
)
    requires
        stage_entries_failure(entries, entries.len() as int) is None,
        root_failure(root_of(entries, entries.len() as int), marker_text, identity) is None,
    ensures
        forall|k: int|
            0 <= k < entries.len() ==> (#[trigger] entries[k]).name is Name && entries[k].checked
                is Ok && is_stage_leaf(entries[k].name->Name_0@),
        root_of(entries, entries.len() as int).marker <==> exists|k: int|
            0 <= k < entries.len() && (#[trigger] entries[k]).name->Name_0@
                == MIGRATION_IDENTITY_LEAF@,
        root_of(entries, entries.len() as int).marker ==> marker_text is Ok
            && marker_text->Ok_0@ == identity + "\n"@ && forall|k: int|
            0 <= k < entries.len() ==> (#[trigger] entries[k]).name->Name_0@
                != MIGRATION_IDENTITY_STAGE_LEAF@,
        !root_of(entries, entries.len() as int).marker ==> entries.len() == 0 || entries.len() == 1
            && entries[0].name->Name_0@ == MIGRATION_IDENTITY_STAGE_LEAF@,
{
    lemma_stage_entries(entries, entries.len() as int);
}

proof fn lemma_staged_runs(runs: Seq<StagedRun>, from: int, run_session_id: Seq<char>)
    requires
        0 <= from <= runs.len(),
    ensures
        staged_runs_failure(runs, from, run_session_id) is None <==> forall|k: int|
            from <= k < runs.len() ==> staged_run_failure(#[trigger] runs[k], k, run_session_id)
                is None,
    decreases runs.len() - from,
{
    if from < runs.len() {
        lemma_staged_runs(runs, from + 1, run_session_id);
    }
}

proof fn lemma_staged_run_entries(
    entries: Seq<StagedRunEntry>,
    from: int,
    events: usize,
    contexts: usize,
)
    requires
        0 <= from <= entries.len(),
    ensures
        staged_run_entries_failure(entries, from, events, contexts) is None <==> forall|k: int|
            from <= k < entries.len() ==> staged_run_entry_failure(
                #[trigger] entries[k],
                events,
                contexts,
            ) is None,
    decreases entries.len() - from,
{
    if from < entries.len() {
        lemma_staged_run_entries(entries, from + 1, events, contexts);
    }
}

/// The staged runs are accepted exactly where there is at most one, which is the run that is
/// migrated; a staged run, where everything in it is its objects, its lock, its log, or a
/// segment that is among those copied.
pub proof fn law_staged_run_holds_what_was_copied(
    runs: Seq<StagedRun>,
    run_session_id: Seq<char>,
    entries: Seq<StagedRunEntry>,
    events: usize,
    contexts: usize,
)
    ensures
        staged_runs_failure(runs, 0, run_session_id) is None <==> runs.len() == 0 || {
            &&& runs.len() == 1
            &&& runs[0].name is Name
            &&& runs[0].name->Name_0@ == run_session_id
            &&& runs[0].checked is Ok
        },
        staged_run_entries_failure(entries, 0, events, contexts) is None ==> forall|k: int|
            0 <= k < entries.len() ==> {
                let leaf = (#[trigger] entries[k]).name->Name_0@;
                &&& entries[k].name is Name
                &&& entries[k].checked is Ok
                &&& {
                    ||| leaf == RUN_OBJECTS_DIR@
                    ||| leaf == RUN_SESSION_LOCK_LEAF@
                    ||| leaf == RUN_LOG_LEAF@
                    ||| entries[k].event_segment is Ordinal
                        && entries[k].event_segment->Ordinal_0 <= events
                    ||| entries[k].context_segment is Ordinal
                        && entries[k].context_segment->Ordinal_0 <= contexts
                }
            },
{
    lemma_staged_runs(runs, 0, run_session_id);
    lemma_staged_run_entries(entries, 0, events, contexts);
    if staged_runs_failure(runs, 0, run_session_id) is None && runs.len() > 0 {
        assert(staged_run_failure(runs[0], 0, run_session_id) is None);
        if runs.len() > 1 {
            assert(staged_run_failure(runs[1], 1, run_session_id) is None);
        }
    }
    if runs.len() == 1 && runs[0].name is Name && runs[0].name->Name_0@ == run_session_id
        && runs[0].checked is Ok {
        assert forall|k: int| 0 <= k < runs.len() implies staged_run_failure(
            #[trigger] runs[k],
            k,
            run_session_id,
        ) is None by {}
    }
    if staged_run_entries_failure(entries, 0, events, contexts) is None {
        assert forall|k: int| 0 <= k < entries.len() implies {
            let leaf = (#[trigger] entries[k]).name->Name_0@;
            &&& entries[k].name is Name
            &&& entries[k].checked is Ok
            &&& {
                ||| leaf == RUN_OBJECTS_DIR@
                ||| leaf == RUN_SESSION_LOCK_LEAF@
                ||| leaf == RUN_LOG_LEAF@
                ||| entries[k].event_segment is Ordinal && entries[k].event_segment->Ordinal_0
                    <= events
                ||| entries[k].context_segment is Ordinal
                    && entries[k].context_segment->Ordinal_0 <= contexts
            }
        } by {
            assert(staged_run_entry_failure(entries[k], events, contexts) is None);
        }
    }
}

/// A staged object is taken exactly where it is named by a digest and no longer than it may
/// be, and with it there are neither more objects nor more bytes than the transaction has and
/// a session may have.
pub proof fn law_staged_object_is_within_its_transaction(
    taken: StagedObjects,
    name: ListedName,
    stored: Result<u64, RuntimeError>,
    limits: StagedObjectLimits,
)
    ensures
        staged_object_failure(taken, name, stored, limits) is None <==> {
            &&& name is Name
            &&& contract::digest_failure(name->Name_0@, "legacy migration staged object"@) is None
            &&& stored is Ok
            &&& stored->Ok_0 <= limits.max_object_bytes
            &&& taken.count + 1 <= limits.max_objects
            &&& taken.count + 1 <= limits.count
            &&& taken.bytes + stored->Ok_0 <= limits.max_total_bytes
            &&& taken.bytes + stored->Ok_0 <= limits.bytes
        },
{
}

/// The staged objects are accepted only where each of them is taken, one after the other, and
/// there are no more of them than the transaction has.
pub proof fn law_every_staged_object_is_looked_at(
    objects: Seq<StagedObject>,
    from: int,
    taken: StagedObjects,
    limits: StagedObjectLimits,
)
    requires
        0 <= from <= objects.len(),
        taken.count <= limits.count,
        staged_objects_failure(objects, from, taken, limits) is None,
    ensures
        taken.count + (objects.len() - from) <= limits.count,
        forall|k: int|
            from <= k < objects.len() ==> {
                &&& (#[trigger] objects[k]).name is Name
                &&& contract::digest_failure(
                    objects[k].name->Name_0@,
                    "legacy migration staged object"@,
                ) is None
                &&& objects[k].stored is Ok
                &&& objects[k].stored->Ok_0 <= limits.max_object_bytes
            },
    decreases objects.len() - from,
{
    if from < objects.len() {
        let object = objects[from];
        assert(staged_object_failure(taken, object.name, object.stored, limits) is None);
        law_every_staged_object_is_looked_at(
            objects,
            from + 1,
            StagedObjects {
                count: (taken.count + 1) as usize,
                bytes: (taken.bytes + object.stored->Ok_0) as u64,
            },
            limits,
        );
    }
}

/// A migration that is accepted is of its session in every part, and named by what it
/// migrates.
pub proof fn law_accepted_migration_is_of_its_session(
    transaction: MigrationTransaction,
    session_id: Seq<char>,
)
    requires
        migration_failure(transaction, session_id) is None,
    ensures
        transaction.conversation_id@ == session_id,
        transaction.run_session_id@ == session_id,
        transaction.source_manifest.session_id@ == session_id,
        transaction.staging_name@ == ".migration-"@ + session_id + "-"@ + digest::digest_text(
            encode_utf8(transaction.source_manifest.canonical@),
        ) + ".staged"@,
{
}

/// What is left of a stage is removed entry by entry, but for links and what is neither a file
/// nor a directory; the marker stays where it is to be kept.
pub proof fn law_stage_cleanup_refuses_links(
    name: ListedName,
    kind: Result<StagedKind, RuntimeError>,
    preserve_marker: bool,
)
    ensures
        staged_removal_failure(name, kind, preserve_marker) is None <==> {
            &&& name is Name
            &&& {
                ||| preserve_marker && name->Name_0@ == MIGRATION_IDENTITY_LEAF@
                ||| kind is Ok && kind->Ok_0 != StagedKind::Link && kind->Ok_0
                    != StagedKind::Other
            }
        },
{
}

} // verus!
