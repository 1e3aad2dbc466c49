//! Choosing where a conversation goes on: which snapshot a selected entry stands
//! for, and what its run was defined as.

use crate::contract::{validate_hash, validate_record_schema, Checked};
use crate::contract;
use crate::digest::sha256_hex;
use crate::digest;
use crate::error::{persisted_state, protocol, ErrorModel, RuntimeError};
use crate::error;
use crate::history::model::{ConversationEntry, ConversationEntryType, CONVERSATION_ENTRY_SCHEMA_V0};
use crate::history::model;
use crate::migration::manifest::{legacy_root_entry_id, LegacySourceManifest, SOURCE_MANIFEST_SCHEMA};
use crate::migration::manifest;
use crate::runs::attempts::{RunAttemptLifecycle, RunAttemptState, RunDefinition, RunLogRecord};
use crate::runs::objects::ObjectUri;
use crate::runs::recovery::{parse_productive_recovery_record, ParsedRecord, ProductiveRecoveryRecord, RecoveryHeader};
use crate::runs::recovery;
use crate::text::{append_text, decimal_text, join3, same_text};
use crate::text;
use vstd::prelude::*;

verus! {

/// How many of the attempts have not ended.
pub open spec fn uncertain_count(attempts: Seq<RunAttemptState>) -> nat
    decreases attempts.len(),
{
    if attempts.len() == 0 {
        0
    } else {
        uncertain_count(attempts.drop_last()) + (if attempts.last().lifecycle
            == RunAttemptLifecycle::Uncertain {
            1nat
        } else {
            0nat
        })
    }
}

/// How many of the attempts have not ended.
pub fn count_uncertain(attempts: &Vec<RunAttemptState>) -> (count: usize)
    ensures
        count == uncertain_count(attempts@),
{
    let mut count: usize = 0;
    let mut i: usize = 0;
    assert(attempts@.take(0) =~= Seq::<RunAttemptState>::empty());
    while i < attempts.len()
        invariant
            i <= attempts.len(),
            count <= i,
            count == uncertain_count(attempts@.take(i as int)),
        decreases attempts.len() - i,
    {
        let ghost head = attempts@.take(i + 1);
        assert(head.drop_last() =~= attempts@.take(i as int));
        assert(head.last() == attempts@[i as int]);
        if attempts[i].lifecycle == RunAttemptLifecycle::Uncertain {
            count = count + 1;
        }
        i = i + 1;
    }
    assert(attempts@.take(i as int) =~= attempts@);
    count
}

/// What is wrong with going on behind a run some of whose attempts have not ended.
pub open spec fn uncertain_failure(
    subject: Seq<char>,
    run_session_id: Seq<char>,
    count: nat,
) -> Option<ErrorModel> {
    if count > 0 {
        Some(
            ErrorModel::PersistedState(
                subject + run_session_id + " has "@ + text::decimal(count)
                    + " uncertain productive attempt(s); reconcile them from external evidence before continuation"@,
            ),
        )
    } else {
        None
    }
}

fn refuse_uncertain(subject: &str, run_session_id: &str, attempts: &Vec<RunAttemptState>) -> (result:
    Result<(), RuntimeError>)
    ensures
        error::failure(result) == uncertain_failure(
            subject@,
            run_session_id@,
            uncertain_count(attempts@),
        ),
{
    let count: usize = count_uncertain(attempts);
    if count > 0 {
        let number = decimal_text(count as u64);
        let mut message = join3(subject, run_session_id, " has ");
        append_text(&mut message, number.as_str());
        append_text(
            &mut message,
            " uncertain productive attempt(s); reconcile them from external evidence before continuation",
        );
        return Err(persisted_state(message.as_str()));
    }
    Ok(())
}

/// Accepts the run of a selected entry: every attempt of it has ended.
pub fn check_selected_attempts(selected: &ConversationEntry, attempts: &Vec<RunAttemptState>) -> (result:
    Result<(), RuntimeError>)
    ensures
        error::failure(result) == uncertain_failure(
            "selected conversation run "@,
            selected.run_session_id.text@,
            uncertain_count(attempts@),
        ),
{
    refuse_uncertain("selected conversation run ", selected.run_session_id.text.as_str(), attempts)
}

/// Accepts the run of an entry that a selected entry comes from: every attempt of it
/// has ended.
pub fn check_ancestry_attempts(entry: &ConversationEntry, attempts: &Vec<RunAttemptState>) -> (result:
    Result<(), RuntimeError>)
    ensures
        error::failure(result) == uncertain_failure(
            "conversation ancestry run "@,
            entry.run_session_id.text@,
            uncertain_count(attempts@),
        ),
{
    refuse_uncertain("conversation ancestry run ", entry.run_session_id.text.as_str(), attempts)
}

/// What is wrong with a header that should be of a run.
pub open spec fn addressed_failure(
    header: RecoveryHeader,
    conversation_id: Seq<char>,
    run_session_id: Seq<char>,
) -> Option<ErrorModel> {
    if header.conversation_id.text@ != conversation_id || header.run_session_id.text@
        != run_session_id {
        error::protocol_failure("productive recovery header does not match its addressed run"@)
    } else {
        None
    }
}

/// Accepts a header that is of a run.
pub fn check_addressed(header: &RecoveryHeader, conversation_id: &str, run_session_id: &str) -> (result:
    Result<(), RuntimeError>)
    ensures
        error::failure(result) == addressed_failure(*header, conversation_id@, run_session_id@),
{
    if !same_text(header.conversation_id.text.as_str(), conversation_id) || !same_text(
        header.run_session_id.text.as_str(),
        run_session_id,
    ) {
        return Err(protocol("productive recovery header does not match its addressed run"));
    }
    Ok(())
}

/// What is wrong with the first line of the snapshot of a run.
pub open spec fn first_line_failure(
    raw: Option<Seq<u8>>,
    parsed: ParsedRecord,
    conversation_id: Seq<char>,
    run_session_id: Seq<char>,
) -> Option<ErrorModel> {
    match raw {
        None => error::protocol_failure("productive recovery snapshot has no committed header"@),
        Some(raw) => error::first_failure(
            recovery::line_failure(raw, parsed),
            match parsed.record {
                Ok(ProductiveRecoveryRecord::Header(header)) => addressed_failure(
                    header,
                    conversation_id,
                    run_session_id,
                ),
                _ => error::protocol_failure("productive recovery snapshot must begin with a header"@),
            },
        ),
    }
}

/// An optional line, as bytes.
pub open spec fn raw_view(raw: Option<Vec<u8>>) -> Option<Seq<u8>> {
    match raw {
        Some(raw) => Some(raw@),
        None => None,
    }
}

/// The header of the snapshot of a run, read off its first line; there is no first
/// line where none was ended.
pub fn read_productive_recovery_header(
    raw: &Option<Vec<u8>>,
    parsed: ParsedRecord,
    conversation_id: &str,
    run_session_id: &str,
) -> (result: Result<RecoveryHeader, RuntimeError>)
    ensures
        error::failure(result) == first_line_failure(
            raw_view(*raw),
            parsed,
            conversation_id@,
            run_session_id@,
        ),
        result matches Ok(header) ==> parsed.record == Ok::<ProductiveRecoveryRecord, String>(
            ProductiveRecoveryRecord::Header(header),
        ),
{
    match raw {
        None => Err(protocol("productive recovery snapshot has no committed header")),
        Some(raw) => {
            let record = parse_productive_recovery_record(raw.as_slice(), parsed)?;
            match record {
                ProductiveRecoveryRecord::Header(header) => {
                    check_addressed(&header, conversation_id, run_session_id)?;
                    Ok(header)
                },
                _ => Err(protocol("productive recovery snapshot must begin with a header")),
            }
        },
    }
}

/// Where a conversation goes on: the object that holds the history, and how many
/// events it is of.
pub struct SelectedRecovery {
    pub history_object: ObjectUri,
    pub cumulative_event_count: u64,
}

/// What is wrong with an entry that stands for no snapshot.
pub open spec fn snapshot_hash_failure(entry: ConversationEntry) -> Option<ErrorModel> {
    if entry.recovery_snapshot_hash is Some {
        None
    } else {
        error::protocol_failure("selected conversation entry has no recovery snapshot hash"@)
    }
}

/// The digest of the snapshot that an entry stands for.
pub fn expected_snapshot_hash(selected: &ConversationEntry) -> (result: Result<&str, RuntimeError>)
    ensures
        error::failure(result) == snapshot_hash_failure(*selected),
        result matches Ok(hash) ==> selected.recovery_snapshot_hash is Some && hash@
            == selected.recovery_snapshot_hash->0@,
{
    match &selected.recovery_snapshot_hash {
        Some(hash) => Ok(hash.as_str()),
        None => Err(protocol("selected conversation entry has no recovery snapshot hash")),
    }
}

/// What is wrong with the bytes of the snapshot that an entry stands for.
pub open spec fn snapshot_bytes_failure(entry: ConversationEntry, bytes: Seq<u8>) -> Option<
    ErrorModel,
> {
    error::first_failure(
        snapshot_hash_failure(entry),
        if digest::digest_text(bytes) != entry.recovery_snapshot_hash->0@ {
            error::protocol_failure(
                "productive recovery snapshot does not match its conversation entry hash"@,
            )
        } else {
            None
        },
    )
}

/// Accepts the bytes of the snapshot that an entry stands for.
pub fn check_snapshot_hash(selected: &ConversationEntry, bytes: &[u8]) -> (result: Result<
    (),
    RuntimeError,
>)
    ensures
        error::failure(result) == snapshot_bytes_failure(*selected, bytes@),
{
    let expected = expected_snapshot_hash(selected)?;
    let actual = sha256_hex(bytes);
    if !same_text(actual.as_str(), expected) {
        return Err(
            protocol("productive recovery snapshot does not match its conversation entry hash"),
        );
    }
    Ok(())
}

/// The text of an optional checked text.
pub open spec fn optional_text(checked: Option<Checked>) -> Option<Seq<char>> {
    match checked {
        Some(checked) => Some(checked.text@),
        None => None,
    }
}

/// Whether two optional checked texts are the same.
pub fn same_optional_text(left: &Option<Checked>, right: &Option<Checked>) -> (same: bool)
    ensures
        same == (optional_text(*left) == optional_text(*right)),
{
    match left {
        Some(left) => match right {
            Some(right) => same_text(left.text.as_str(), right.text.as_str()),
            None => false,
        },
        None => right.is_none(),
    }
}

/// What is wrong with the records of the snapshot that an entry stands for.
pub open spec fn selected_failure(
    records: Seq<ProductiveRecoveryRecord>,
    conversation_id: Seq<char>,
    selected: ConversationEntry,
) -> Option<ErrorModel> {
    if records.len() == 0 || !(records[0] is Header) {
        error::protocol_failure("productive recovery snapshot must begin with a header"@)
    } else {
        let header = records[0]->Header_0;
        error::first_failure(
            addressed_failure(header, conversation_id, selected.run_session_id.text@),
            if optional_text(header.parent_entry_id) != optional_text(selected.parent_entry_id) {
                error::protocol_failure(
                    "productive recovery header parent does not match its conversation entry"@,
                )
            } else if !(records.last() is Terminal) {
                error::protocol_failure("productive recovery snapshot has no terminal record"@)
            } else {
                None
            },
        )
    }
}

/// Whether a snapshot ends by saying that a conversation goes on so.
pub open spec fn recovery_of(records: Seq<ProductiveRecoveryRecord>, found: SelectedRecovery) -> bool {
    records.last() matches ProductiveRecoveryRecord::Terminal {
        history_object,
        cumulative_event_count,
        ..
    } && found.history_object == history_object && found.cumulative_event_count
        == cumulative_event_count
}

/// Where a conversation goes on behind a selected entry, by the records of the
/// snapshot that the entry stands for.
pub fn selected_entry_recovery_history(
    records: &Vec<ProductiveRecoveryRecord>,
    conversation_id: &str,
    selected: &ConversationEntry,
) -> (result: Result<SelectedRecovery, RuntimeError>)
    ensures
        error::failure(result) == selected_failure(records@, conversation_id@, *selected),
        result matches Ok(found) ==> recovery_of(records@, found),
{
    if records.len() == 0 {
        return Err(protocol("productive recovery snapshot must begin with a header"));
    }
    let header = match &records[0] {
        ProductiveRecoveryRecord::Header(header) => header,
        _ => {
            return Err(protocol("productive recovery snapshot must begin with a header"));
        },
    };
    check_addressed(header, conversation_id, selected.run_session_id.text.as_str())?;
    if !same_optional_text(&header.parent_entry_id, &selected.parent_entry_id) {
        return Err(
            protocol("productive recovery header parent does not match its conversation entry"),
        );
    }
    match &records[records.len() - 1] {
        ProductiveRecoveryRecord::Terminal { history_object, cumulative_event_count, .. } => Ok(
            SelectedRecovery {
                history_object: history_object.clone(),
                cumulative_event_count: *cumulative_event_count,
            },
        ),
        _ => Err(protocol("productive recovery snapshot has no terminal record")),
    }
}

/// What is wrong with a count of events.
pub open spec fn event_count_failure(count: u64) -> Option<ErrorModel> {
    if count > usize::MAX {
        error::protocol_failure("productive recovery event count exceeds this platform"@)
    } else {
        None
    }
}

/// A count of events as this machine counts.
pub fn platform_event_count(count: u64) -> (result: Result<usize, RuntimeError>)
    ensures
        error::failure(result) == event_count_failure(count),
        result matches Ok(events) ==> events == count,
{
    if count > usize::MAX as u64 {
        return Err(protocol("productive recovery event count exceeds this platform"));
    }
    Ok(count as usize)
}

/// The events that an entry's ancestry is made of: of each run those up to the one
/// that its entry addresses.
pub struct AncestryEvents {
    pub event_count: usize,
    pub addressed: bool,
}

impl AncestryEvents {
    /// No events.
    pub fn conversation_entry_ancestry_history() -> (events: AncestryEvents)
        ensures
            events.event_count == 0,
            !events.addressed,
    {
        AncestryEvents { event_count: 0, addressed: false }
    }

    /// Begins the events of the next entry.
    pub fn begin_entry(&mut self)
        ensures
            final(self).event_count == old(self).event_count,
            !final(self).addressed,
    {
        self.addressed = false;
    }

    /// Takes an event of the entry's run; says whether it is part of the history.
    pub fn observe(&mut self, sequence: u64, entry: &ConversationEntry) -> (recorded: bool)
        ensures
            recorded == !old(self).addressed,
            final(self).addressed == (old(self).addressed || sequence == entry.event_sequence),
            final(self).event_count == (if old(self).addressed || old(self).event_count
                == usize::MAX {
                old(self).event_count
            } else {
                (old(self).event_count + 1) as usize
            }),
    {
        if self.addressed {
            return false;
        }
        self.event_count = self.event_count.saturating_add(1);
        self.addressed = sequence == entry.event_sequence;
        true
    }

    /// Ends the events of an entry: the one that it addresses was among them.
    pub fn end_entry(&self, entry: &ConversationEntry) -> (result: Result<(), RuntimeError>)
        ensures
            error::failure(result) == (if self.addressed {
                None
            } else {
                error::protocol_failure(
                    "conversation entry "@ + entry.entry_id.text@
                        + " does not address a committed event"@,
                )
            }),
    {
        if !self.addressed {
            let message = join3(
                "conversation entry ",
                entry.entry_id.text.as_str(),
                " does not address a committed event",
            );
            return Err(protocol(message.as_str()));
        }
        Ok(())
    }
}

/// Whether a selected entry is the one that a migrated session begins with.
pub open spec fn is_legacy_root(
    selected: ConversationEntry,
    legacy_session_id: Seq<char>,
    manifest: LegacySourceManifest,
    run_session_id: Seq<char>,
) -> bool {
    &&& legacy_session_id == run_session_id
    &&& manifest.schema@ == SOURCE_MANIFEST_SCHEMA@
    &&& manifest.session_id@ == run_session_id
    &&& selected.run_session_id.text@ == run_session_id
    &&& selected.schema@ == CONVERSATION_ENTRY_SCHEMA_V0@
    &&& selected.entry_type == ConversationEntryType::LegacyRun
    &&& selected.parent_entry_id is None
    &&& selected.entry_id.text@ == manifest::root_entry_id(manifest.canonical@)
}

/// Whether a definition is that of a migrated session, and nothing where it
/// contradicts the selected entry.
pub open spec fn legacy_definition(
    definition: RunDefinition,
    run_session_id: Seq<char>,
    selected: Option<ConversationEntry>,
) -> Option<bool> {
    match (definition.legacy_session_id, definition.legacy_source_manifest) {
        (None, None) => match selected {
            Some(entry) if entry.entry_type == ConversationEntryType::LegacyRun => None,
            _ => Some(false),
        },
        (Some(session_id), Some(manifest)) => match selected {
            Some(entry) if is_legacy_root(entry, session_id@, manifest, run_session_id) => Some(
                true,
            ),
            _ => None,
        },
        _ => None,
    }
}

/// Whether a definition names a model.
pub open spec fn names_model(definition: RunDefinition) -> bool {
    definition.model is Some || definition.model_profile_id is Some
        || definition.model_context_limit is Some || definition.output_reserve is Some
        || definition.safety_margin is Some
}

/// What is wrong with the definition of a run.
pub open spec fn run_definition_failure(
    records: Seq<RunLogRecord>,
    run_session_id: Seq<char>,
    selected: Option<ConversationEntry>,
) -> Option<ErrorModel> {
    if records.len() == 0 || !(records[0] is Definition) {
        error::protocol_failure("run log must begin with a definition record"@)
    } else {
        let definition = records[0]->definition;
        let schema = records[0]->Definition_schema;
        error::first_failure(
            contract::record_schema_failure(schema@),
            if !definition.flow_definition_id.valid {
                error::protocol_failure("run log Flow definition id is invalid"@)
            } else {
                error::first_failure(
                    contract::hash_failure(definition.registry_hash@, "registry hash"@),
                    error::first_failure(
                        contract::hash_failure(definition.flow_definition_hash@, "Flow definition hash"@),
                        if exists|k: int|
                            1 <= k < records.len() && (#[trigger] records[k]) is Definition {
                            error::protocol_failure("run log contains more than one definition"@)
                        } else {
                            match legacy_definition(definition, run_session_id, selected) {
                                None => error::protocol_failure(
                                    "run log legacy definition identity is invalid"@,
                                ),
                                Some(legacy) => if legacy && names_model(definition) {
                                    error::protocol_failure(
                                        "migrated legacy run definition contains a productive model profile"@,
                                    )
                                } else {
                                    None
                                },
                            }
                        },
                    ),
                )
            },
        )
    }
}

fn judge_legacy(
    definition: &RunDefinition,
    run_session_id: &str,
    selected: &Option<ConversationEntry>,
) -> (legacy: Option<bool>)
    ensures
        legacy == legacy_definition(*definition, run_session_id@, *selected),
{
    match &definition.legacy_session_id {
        None => match &definition.legacy_source_manifest {
            Some(_) => None,
            None => match selected {
                Some(entry) => if entry.entry_type == ConversationEntryType::LegacyRun {
                    None
                } else {
                    Some(false)
                },
                None => Some(false),
            },
        },
        Some(session_id) => match &definition.legacy_source_manifest {
            None => None,
            Some(manifest) => match selected {
                None => None,
                Some(entry) => {
                    let expected = legacy_root_entry_id(manifest);
                    if same_text(session_id.as_str(), run_session_id) && same_text(
                        manifest.schema.as_str(),
                        SOURCE_MANIFEST_SCHEMA,
                    ) && same_text(manifest.session_id.as_str(), run_session_id) && same_text(
                        entry.run_session_id.text.as_str(),
                        run_session_id,
                    ) && same_text(entry.schema.as_str(), CONVERSATION_ENTRY_SCHEMA_V0)
                        && entry.entry_type == ConversationEntryType::LegacyRun
                        && entry.parent_entry_id.is_none() && same_text(
                        entry.entry_id.text.as_str(),
                        expected.as_str(),
                    ) {
                        Some(true)
                    } else {
                        None
                    }
                },
            },
        },
    }
}

/// What a run is known to execute.
pub struct SessionLogMetadata<'a> {
    pub definition: &'a RunDefinition,
    pub legacy_definition: bool,
}

/// What a run was defined as, by the records of its log.
pub fn conversation_run_definition<'a>(
    records: &'a Vec<RunLogRecord>,
    run_session_id: &str,
    selected: &Option<ConversationEntry>,
) -> (result: Result<SessionLogMetadata<'a>, RuntimeError>)
    ensures
        error::failure(result) == run_definition_failure(records@, run_session_id@, *selected),
        result matches Ok(found) ==> {
            &&& *found.definition == records@[0]->definition
            &&& legacy_definition(*found.definition, run_session_id@, *selected) == Some(
                found.legacy_definition,
            )
        },
{
    if records.len() == 0 {
        return Err(protocol("run log must begin with a definition record"));
    }
    let (schema, definition) = match &records[0] {
        RunLogRecord::Definition { schema, definition } => (schema, definition),
        _ => {
            return Err(protocol("run log must begin with a definition record"));
        },
    };
    validate_record_schema(schema.as_str())?;
    if !definition.flow_definition_id.valid {
        return Err(protocol("run log Flow definition id is invalid"));
    }
    validate_hash(definition.registry_hash.as_str(), "registry hash")?;
    validate_hash(definition.flow_definition_hash.as_str(), "Flow definition hash")?;
    let mut k: usize = 1;
    while k < records.len()
        invariant
            1 <= k <= records.len(),
            records@[0] is Definition,
            *definition == records@[0]->definition,
            *schema == records@[0]->Definition_schema,
            contract::record_schema_failure(schema@) is None,
            definition.flow_definition_id.valid,
            contract::hash_failure(definition.registry_hash@, "registry hash"@) is None,
            contract::hash_failure(definition.flow_definition_hash@, "Flow definition hash"@) is None,
            forall|j: int| 1 <= j < k ==> !((#[trigger] records@[j]) is Definition),
        decreases records.len() - k,
    {
        if let RunLogRecord::Definition { .. } = &records[k] {
            assert(records@[k as int] is Definition);
            return Err(protocol("run log contains more than one definition"));
        }
        k = k + 1;
    }
    let legacy = match judge_legacy(definition, run_session_id, selected) {
        Some(legacy) => legacy,
        None => {
            return Err(protocol("run log legacy definition identity is invalid"));
        },
    };
    if legacy && (definition.model.is_some() || definition.model_profile_id.is_some()
        || definition.model_context_limit.is_some() || definition.output_reserve.is_some()
        || definition.safety_margin.is_some()) {
        return Err(
            protocol("migrated legacy run definition contains a productive model profile"),
        );
    }
    Ok(SessionLogMetadata { definition, legacy_definition: legacy })
}

proof fn lemma_uncertain_of_parts(left: Seq<RunAttemptState>, right: Seq<RunAttemptState>)
    ensures
        uncertain_count(left + right) == uncertain_count(left) + uncertain_count(right),
    decreases right.len(),
{
    if right.len() == 0 {
        assert(left + right =~= left);
    } else {
        assert((left + right).drop_last() =~= left + right.drop_last());
        lemma_uncertain_of_parts(left, right.drop_last());
    }
}

/// Uncertain attempts are counted one by one, and a run goes on exactly where there is none.
pub proof fn law_uncertain_attempts_are_counted(
    attempts: Seq<RunAttemptState>,
    k: int,
    subject: Seq<char>,
    run_session_id: Seq<char>,
)
    requires
        0 <= k < attempts.len(),
    ensures
        uncertain_count(attempts) == uncertain_count(attempts.take(k)) + (if attempts[k].lifecycle
            == RunAttemptLifecycle::Uncertain {
            1nat
        } else {
            0
        }) + uncertain_count(attempts.skip(k + 1)),
        uncertain_count(Seq::<RunAttemptState>::empty()) == 0,
        attempts[k].lifecycle == RunAttemptLifecycle::Uncertain ==> uncertain_failure(
            subject,
            run_session_id,
            uncertain_count(attempts),
        ) is Some,
        uncertain_failure(subject, run_session_id, 0) is None,
{
    let (head, one, tail) = (attempts.take(k), seq![attempts[k]], attempts.skip(k + 1));
    assert(attempts =~= (head + one) + tail);
    lemma_uncertain_of_parts(head + one, tail);
    lemma_uncertain_of_parts(head, one);
    assert(one.drop_last() =~= Seq::<RunAttemptState>::empty());
    assert(uncertain_count(one.drop_last()) == 0);
}

/// A snapshot is that of a selected entry exactly where it begins with a header of the
/// conversation, the run and the parent of the entry, and ends with the end of the run.
pub proof fn law_snapshot_is_of_the_selected_entry(
    records: Seq<ProductiveRecoveryRecord>,
    conversation_id: Seq<char>,
    selected: ConversationEntry,
)
    ensures
        selected_failure(records, conversation_id, selected) is None <==> {
            let header = records[0]->Header_0;
            &&& records.len() > 0
            &&& records[0] is Header
            &&& header.conversation_id.text@ == conversation_id
            &&& header.run_session_id.text@ == selected.run_session_id.text@
            &&& (header.parent_entry_id is Some) == (selected.parent_entry_id is Some)
            &&& header.parent_entry_id is Some ==> header.parent_entry_id->0.text@
                == selected.parent_entry_id->0.text@
            &&& records[records.len() - 1] is Terminal
        },
{
}

/// A snapshot is taken exactly where it has the hash that the entry names.
pub proof fn law_snapshot_has_the_hash_of_its_entry(entry: ConversationEntry, bytes: Seq<u8>)
    ensures
        snapshot_bytes_failure(entry, bytes) is None <==> entry.recovery_snapshot_hash is Some
            && entry.recovery_snapshot_hash->0@ == digest::digest_text(bytes),
{
}

/// The log of a run is accepted only where it begins with the one definition that it has, and
/// that is either of a run of its own or, where the selected entry is the root that a migrated
/// session was given, of that session, without a model.
pub proof fn law_run_log_has_one_definition(
    records: Seq<RunLogRecord>,
    run_session_id: Seq<char>,
    selected: Option<ConversationEntry>,
)
    requires
        run_definition_failure(records, run_session_id, selected) is None,
    ensures
        records.len() > 0,
        records[0] is Definition,
        forall|k: int| 1 <= k < records.len() ==> (#[trigger] records[k]) !is Definition,
        ({
            let definition = records[0]->definition;
            &&& definition.flow_definition_id.valid
            &&& (definition.legacy_session_id is Some) == (definition.legacy_source_manifest
                is Some)
            &&& definition.legacy_session_id is None && selected is Some
                ==> selected->0.entry_type != ConversationEntryType::LegacyRun
            &&& definition.legacy_session_id is Some ==> {
                &&& selected is Some
                &&& selected->0.entry_type == ConversationEntryType::LegacyRun
                &&& selected->0.parent_entry_id is None
                &&& selected->0.run_session_id.text@ == run_session_id
                &&& definition.legacy_session_id->0@ == run_session_id
                &&& definition.legacy_source_manifest->0.session_id@ == run_session_id
                &&& selected->0.entry_id.text@ == manifest::root_entry_id(
                    definition.legacy_source_manifest->0.canonical@,
                )
                &&& definition.model is None
                &&& definition.model_profile_id is None
                &&& definition.model_context_limit is None
                &&& definition.output_reserve is None
                &&& definition.safety_margin is None
            }
        }),
{
}

} // verus!
