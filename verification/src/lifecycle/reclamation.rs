//! Taking back a run that was made and never begun: what shows that nothing of it was
//! committed, and in what order it goes, with its conversation where that holds
//! nothing else.

use crate::contract::{validate_id, Checked, DirectoryIdentity, CONVERSATION_HISTORY_LEAF, CONVERSATION_RUNS_DIR, CONVERSATION_STATUS_LEAF, MAX_CONVERSATION_RECORD_BYTES, RUN_CONTEXTS_LEAF, RUN_EVENTS_LEAF, RUN_LOG_LEAF, RUN_LOG_RECORD_SCHEMA_V1, RUN_OBJECTS_DIR, RUN_RECOVERY_LEAF, RUN_SESSION_LOCK_LEAF, UNPUBLISHED_PRODUCTIVE_RUN_MARKER};
use crate::contract;
use crate::error::{protocol, ErrorModel, RuntimeError};
use crate::error;
use crate::listing::{bounded_names, holds_all, reversed, ListedName};
use crate::listing;
use crate::names::SortedNames;
use crate::names;
use crate::runs::attempts::{RunDefinition, RunLogRecord};
use crate::runs::objects::{validate_recovery_object_uri, ObjectUri};
use crate::runs::objects;
use crate::runs::recovery::{validate_productive_recovery_record, ProductiveRecoveryRecord, RecoveryHeader};
use crate::runs::recovery;
use crate::runs::storage::holds_text;
use crate::status::run_mutation::{validate_run_creation_marker, MarkerFound};
use crate::status::run_mutation;
use crate::text::{join2, join3, same_bytes, same_text};
use crate::text;
use vstd::prelude::*;
use vstd::utf8::*;

verus! {

/// What is found under the name of a file.
pub enum RealFile {
    Missing,
    /// It is a link, or no file.
    NotAFile,
    File,
    Failed(RuntimeError),
}

/// What is wrong with what is found under the name of a file.
pub open spec fn real_file_failure(found: RealFile, label: Seq<char>) -> Option<ErrorModel> {
    match found {
        RealFile::NotAFile => error::protocol_failure(label + " must be a real file"@),
        RealFile::Failed(error) => Some(error@),
        _ => None,
    }
}

/// Whether a file is there.
pub fn anchored_real_file_present(found: RealFile, label: &str) -> (result: Result<
    bool,
    RuntimeError,
>)
    ensures
        error::failure(result) == real_file_failure(found, label@),
        result matches Ok(present) ==> present == (found is File),
{
    match found {
        RealFile::Missing => Ok(false),
        RealFile::NotAFile => {
            let message = join2(label, " must be a real file");
            Err(protocol(message.as_str()))
        },
        RealFile::File => Ok(true),
        RealFile::Failed(error) => Err(error),
    }
}

/// Whether the marker of a run that was not published has to be removed.
pub fn remove_unpublished_productive_run_marker(found: RealFile) -> (result: Result<
    bool,
    RuntimeError,
>)
    ensures
        error::failure(result) == real_file_failure(found, "unpublished productive run marker"@),
        result matches Ok(remove) ==> remove == (found is File),
{
    anchored_real_file_present(found, "unpublished productive run marker")
}

/// Up to where a run may have come that is taken back.
pub enum ReclaimBoundary<'a> {
    /// It was made and not published.
    Unpublished,
    /// Its recovery may have been begun with this header, whose canonical form is given.
    Creation { header: &'a RecoveryHeader, canonical: &'a str },
}

/// What is wrong with the header of a run that is taken back.
pub open spec fn creation_header_failure(
    record: ProductiveRecoveryRecord,
    canonical: Seq<char>,
    conversation_id: Seq<char>,
    run_session_id: Seq<char>,
) -> Option<ErrorModel> {
    error::first_failure(
        recovery::recovery_record_failure(record),
        match record {
            ProductiveRecoveryRecord::Header(header) => if header.conversation_id.text@
                != conversation_id || header.run_session_id.text@ != run_session_id {
                error::protocol_failure("productive run creation header does not match its addressed run"@)
            } else if encode_utf8(canonical).len() > MAX_CONVERSATION_RECORD_BYTES {
                error::protocol_failure("productive run creation recovery header exceeds its byte limit"@)
            } else {
                None
            },
            _ => error::protocol_failure("productive run creation reclaim requires a recovery header"@),
        },
    )
}

/// Accepts the header of a run that is taken back.
pub fn validate_productive_run_creation_header<'a>(
    expected_header: &'a ProductiveRecoveryRecord,
    canonical: &str,
    conversation_id: &str,
    run_session_id: &str,
) -> (result: Result<&'a RecoveryHeader, RuntimeError>)
    ensures
        error::failure(result) == creation_header_failure(
            *expected_header,
            canonical@,
            conversation_id@,
            run_session_id@,
        ),
        result matches Ok(header) ==> *expected_header == ProductiveRecoveryRecord::Header(*header),
{
    validate_productive_recovery_record(expected_header)?;
    match expected_header {
        ProductiveRecoveryRecord::Header(header) => {
            if !same_text(header.conversation_id.text.as_str(), conversation_id) || !same_text(
                header.run_session_id.text.as_str(),
                run_session_id,
            ) {
                return Err(
                    protocol("productive run creation header does not match its addressed run"),
                );
            }
            if canonical.as_bytes().len() > MAX_CONVERSATION_RECORD_BYTES {
                return Err(
                    protocol("productive run creation recovery header exceeds its byte limit"),
                );
            }
            Ok(header)
        },
        _ => Err(protocol("productive run creation reclaim requires a recovery header")),
    }
}

/// What is wrong with a recovery snapshot, given its lines, that should hold one header
/// and nothing else.
pub open spec fn creation_recovery_failure(lines: Seq<Seq<u8>>, canonical: Seq<char>) -> Option<
    ErrorModel,
> {
    if lines.len() != 1 || lines[0] != encode_utf8(canonical) {
        error::protocol_failure("productive run creation recovery is not its exact expected header"@)
    } else {
        None
    }
}

/// Accepts a recovery snapshot whose records were accepted: it holds the header, in its
/// canonical form, and nothing else.
pub fn validate_productive_run_creation_recovery(lines: &Vec<Vec<u8>>, canonical: &str) -> (result:
    Result<(), RuntimeError>)
    ensures
        error::failure(result) == creation_recovery_failure(recovery::lines_view(lines@), canonical@),
{
    let ghost all = recovery::lines_view(lines@);
    assert(all.len() == lines@.len());
    if lines.len() != 1 {
        return Err(protocol("productive run creation recovery is not its exact expected header"));
    }
    assert(all[0] == lines@[0]@);
    if !same_bytes(lines[0].as_slice(), canonical.as_bytes()) {
        return Err(protocol("productive run creation recovery is not its exact expected header"));
    }
    Ok(())
}

/// What is wrong with the objects of a run that is taken back.
pub open spec fn creation_object_failure(
    uri: ObjectUri,
    objects: Result<bool, RuntimeError>,
    names: Result<Vec<String>, RuntimeError>,
    object: Result<(), RuntimeError>,
    history: Result<(), RuntimeError>,
) -> Option<ErrorModel> {
    error::first_failure(
        objects::uri_failure(uri),
        match objects {
            Err(error) => Some(error@),
            Ok(found) => if !found {
                error::protocol_failure("productive run creation objects are missing"@)
            } else {
                match names {
                    Err(error) => Some(error@),
                    Ok(names) => if names@.len() != 1 || names@[0]@ != uri.digest->0@ {
                        error::protocol_failure(
                            "productive run creation object inventory differs from its recovery header"@,
                        )
                    } else {
                        error::first_failure(error::failure(object), error::failure(history))
                    },
                }
            },
        },
    )
}

/// Accepts the objects of a run that is taken back: the history that it began with, and
/// nothing else. Given are whether there are objects, their names, and whether the one
/// could be read and holds a history.
pub fn validate_productive_run_creation_object(
    prior_history_object: &ObjectUri,
    objects: Result<bool, RuntimeError>,
    names: Result<Vec<String>, RuntimeError>,
    object: Result<(), RuntimeError>,
    history: Result<(), RuntimeError>,
) -> (result: Result<(), RuntimeError>)
    ensures
        error::failure(result) == creation_object_failure(
            *prior_history_object,
            objects,
            names,
            object,
            history,
        ),
{
    let digest = validate_recovery_object_uri(prior_history_object)?;
    if !objects? {
        return Err(protocol("productive run creation objects are missing"));
    }
    let names = names?;
    if names.len() != 1 || !same_text(names[0].as_str(), digest) {
        return Err(
            protocol(
                "productive run creation object inventory differs from its recovery header",
            ),
        );
    }
    object?;
    history
}

/// What a conversation holds that goes with its only run.
pub open spec fn reclaimable_root() -> Seq<Seq<char>> {
    seq![CONVERSATION_HISTORY_LEAF@, CONVERSATION_RUNS_DIR@, CONVERSATION_STATUS_LEAF@]
}

/// What is wrong with a conversation that goes with its only run.
pub open spec fn root_inventory_failure(listed: Seq<ListedName>) -> Option<ErrorModel> {
    error::first_failure(
        listing::listing_failure(
            listed,
            3,
            "conversation reclamation entry name must be UTF-8"@,
            "conversation reclamation root contains an unknown entry"@,
        ),
        if listing::names_of(listed) != reclaimable_root().to_set() {
            error::protocol_failure("conversation reclamation root inventory is incomplete"@)
        } else {
            None
        },
    )
}

fn same_names(names: &SortedNames, wanted: &Vec<String>) -> (same: bool)
    ensures
        same == (names@.to_set() == text::texts_view(wanted@).to_set()),
{
    let here = holds_all(names, wanted);
    let there = crate::listing::all_among(names, wanted);
    proof {
        if here && there {
            assert(names@.to_set() =~= text::texts_view(wanted@).to_set());
        }
    }
    here && there
}

/// Accepts a conversation that goes with its only run.
pub fn validate_reclaimable_conversation_inventory(listed: Vec<ListedName>) -> (result: Result<
    (),
    RuntimeError,
>)
    ensures
        error::failure(result) == root_inventory_failure(listed@),
{
    let actual = bounded_names(
        listed,
        3,
        "conversation reclamation entry name must be UTF-8",
        "conversation reclamation root contains an unknown entry",
    )?;
    let mut expected: Vec<String> = Vec::new();
    expected.push(CONVERSATION_HISTORY_LEAF.to_owned());
    expected.push(CONVERSATION_RUNS_DIR.to_owned());
    expected.push(CONVERSATION_STATUS_LEAF.to_owned());
    assert(text::texts_view(expected@) =~= reclaimable_root());
    if !same_names(&actual, &expected) {
        return Err(protocol("conversation reclamation root inventory is incomplete"));
    }
    Ok(())
}

/// What a run holds that is taken back.
pub open spec fn reclaimed_run_leaves(marker: Seq<char>, published: bool, recovery: bool) -> Seq<
    Seq<char>,
> {
    let leaves = seq![
        RUN_CONTEXTS_LEAF@,
        RUN_EVENTS_LEAF@,
        RUN_OBJECTS_DIR@,
        RUN_LOG_LEAF@,
        RUN_SESSION_LOCK_LEAF@,
        marker,
    ];
    let leaves = if published {
        leaves.push(UNPUBLISHED_PRODUCTIVE_RUN_MARKER@)
    } else {
        leaves
    };
    if recovery {
        leaves.push(RUN_RECOVERY_LEAF@)
    } else {
        leaves
    }
}

/// What is wrong with the names that a run lists that is taken back, from one of them
/// on.
pub open spec fn known_entries_failure(
    listed: Seq<ListedName>,
    from: int,
    expected: Seq<Seq<char>>,
) -> Option<ErrorModel>
    decreases listed.len() - from,
{
    if from < 0 || from >= listed.len() {
        None
    } else {
        error::first_failure(
            match listed[from] {
                ListedName::Failed(error) => Some(error@),
                ListedName::NotText => error::protocol_failure(
                    "unpublished productive run entry must be UTF-8"@,
                ),
                ListedName::Name(name) => if expected.contains(name@) {
                    None
                } else {
                    error::protocol_failure("unpublished productive run has an unknown entry"@)
                },
            },
            known_entries_failure(listed, from + 1, expected),
        )
    }
}

/// What is wrong with what a run holds that is taken back.
pub open spec fn run_inventory_failure(
    listed: Seq<ListedName>,
    marker: Seq<char>,
    published: bool,
    recovery: bool,
) -> Option<ErrorModel> {
    let expected = reclaimed_run_leaves(marker, published, recovery);
    error::first_failure(
        known_entries_failure(listed, 0, expected),
        if listing::names_of(listed) != expected.to_set() {
            error::protocol_failure("productive run reclaim inventory is incomplete"@)
        } else {
            None
        },
    )
}

fn check_known_entry(entry: ListedName, expected: &Vec<String>) -> (result: Result<
    String,
    RuntimeError,
>)
    ensures
        error::failure(result) == (match entry {
            ListedName::Failed(error) => Some(error@),
            ListedName::NotText => error::protocol_failure(
                "unpublished productive run entry must be UTF-8"@,
            ),
            ListedName::Name(name) => if text::texts_view(expected@).contains(name@) {
                None
            } else {
                error::protocol_failure("unpublished productive run has an unknown entry"@)
            },
        }),
        result matches Ok(name) ==> entry == ListedName::Name(name),
{
    match entry {
        ListedName::Failed(error) => Err(error),
        ListedName::NotText => Err(protocol("unpublished productive run entry must be UTF-8")),
        ListedName::Name(name) => {
            if !holds_text(expected, name.as_str()) {
                return Err(protocol("unpublished productive run has an unknown entry"));
            }
            Ok(name)
        },
    }
}

/// Accepts what a run holds that is taken back: all that it is made of, and nothing
/// else.
pub fn validate_productive_run_reclaim_inventory(
    listed: Vec<ListedName>,
    run_creation_marker: &str,
    marker_present: bool,
    recovery_present: bool,
) -> (result: Result<(), RuntimeError>)
    ensures
        error::failure(result) == run_inventory_failure(
            listed@,
            run_creation_marker@,
            marker_present,
            recovery_present,
        ),
{
    let mut expected: Vec<String> = Vec::new();
    expected.push(RUN_CONTEXTS_LEAF.to_owned());
    expected.push(RUN_EVENTS_LEAF.to_owned());
    expected.push(RUN_OBJECTS_DIR.to_owned());
    expected.push(RUN_LOG_LEAF.to_owned());
    expected.push(RUN_SESSION_LOCK_LEAF.to_owned());
    expected.push(run_creation_marker.to_owned());
    if marker_present {
        expected.push(UNPUBLISHED_PRODUCTIVE_RUN_MARKER.to_owned());
    }
    if recovery_present {
        expected.push(RUN_RECOVERY_LEAF.to_owned());
    }
    let ghost wanted = reclaimed_run_leaves(run_creation_marker@, marker_present, recovery_present);
    assert(text::texts_view(expected@) =~= wanted);
    let ghost all = listed@;
    let total: usize = listed.len();
    let mut pending = reversed(listed);
    let mut entries = SortedNames::new();
    let mut seen: usize = 0;
    assert(all.take(0) =~= Seq::<ListedName>::empty());
    assert(entries@.to_set() =~= Set::<Seq<char>>::empty());
    while pending.len() > 0
        invariant
            all == listed@,
            wanted == reclaimed_run_leaves(run_creation_marker@, marker_present, recovery_present),
            text::texts_view(expected@) == wanted,
            seen + pending.len() == total,
            total == all.len(),
            entries.wf(),
            entries@.to_set() == listing::names_of(all.take(seen as int)),
            known_entries_failure(all, 0, wanted) == known_entries_failure(
                all,
                seen as int,
                wanted,
            ),
            forall|k: int|
                0 <= k < pending@.len() ==> #[trigger] pending@[k] == all[all.len() - 1 - k],
        decreases pending@.len(),
    {
        match pending.pop() {
            None => {},
            Some(entry) => {
                assert(entry == all[seen as int]);
                let name = check_known_entry(entry, &expected)?;
                let ghost prior = entries@;
                entries.insert(name);
                proof {
                    names::lemma_inserted_set(prior, name@, entries@);
                    assert(all.take(seen + 1).drop_last() =~= all.take(seen as int));
                    assert(all.take(seen + 1).last() == entry);
                }
                seen = seen + 1;
            },
        }
    }
    assert(all.take(seen as int) =~= all);
    if !same_names(&entries, &expected) {
        return Err(protocol("productive run reclaim inventory is incomplete"));
    }
    Ok(())
}

/// What is found of a run that is to be taken back. What is not reached has no bearing.
pub struct ReclaimFacts {
    pub identity: Result<DirectoryIdentity, RuntimeError>,
    pub run_marker: MarkerFound,
    pub publication_marker: RealFile,
    pub recovery: RealFile,
    /// Whether the recovery snapshot is what the boundary allows.
    pub recovery_check: Result<(), RuntimeError>,
    pub events_length: Result<u64, RuntimeError>,
    pub contexts_length: Result<u64, RuntimeError>,
    pub records: Result<Vec<RunLogRecord>, RuntimeError>,
    /// Whether the objects are what the boundary allows.
    pub object_check: Result<(), RuntimeError>,
    /// How many runs the conversation holds, as far as two.
    pub run_count: Result<usize, RuntimeError>,
    pub history_length: Result<u64, RuntimeError>,
    pub conversation_check: Result<(), RuntimeError>,
    /// What the run lists.
    pub listed: Vec<ListedName>,
}

/// What to do about a run that was to be taken back.
pub enum ReclaimDecision {
    /// It stays as it is.
    Nothing,
    /// It goes, and its conversation with it or not.
    Reclaim { conversation: bool, run_marker: String },
}

/// What is wrong with a stream that must hold nothing.
pub open spec fn committed_failure(length: Result<u64, RuntimeError>, leaf: Seq<char>) -> Option<
    ErrorModel,
> {
    match length {
        Err(error) => Some(error@),
        Ok(length) => if length != 0 {
            error::protocol_failure("unpublished productive run has committed "@ + leaf + " records"@)
        } else {
            None
        },
    }
}

fn check_uncommitted(length: Result<u64, RuntimeError>, leaf: &str) -> (result: Result<
    (),
    RuntimeError,
>)
    ensures
        error::failure(result) == committed_failure(length, leaf@),
{
    if length? != 0 {
        let message = join3("unpublished productive run has committed ", leaf, " records");
        return Err(protocol(message.as_str()));
    }
    Ok(())
}

/// Whether a definition is what a header says.
pub open spec fn defines(definition: RunDefinition, header: RecoveryHeader) -> bool {
    &&& definition.flow_definition_id.text@ == header.flow_definition_id.text@
    &&& definition.registry_hash@ == header.registry_hash@
    &&& definition.flow_definition_hash@ == header.flow_definition_hash@
}

/// What is wrong with the log of a run that is taken back.
pub open spec fn log_records_failure(records: Seq<RunLogRecord>, boundary: ReclaimBoundary) -> Option<
    ErrorModel,
> {
    match boundary {
        ReclaimBoundary::Unpublished => if records.len() == 1 && records[0] is Definition {
            None
        } else {
            error::protocol_failure("unpublished productive run has committed run-log records"@)
        },
        ReclaimBoundary::Creation { header, .. } => if records.len() == 1 && (records[0] matches
            RunLogRecord::Definition { schema, definition } && schema@ == RUN_LOG_RECORD_SCHEMA_V1@
            && defines(definition, *header)) {
            None
        } else {
            error::protocol_failure("productive run creation definition differs from its recovery header"@)
        },
    }
}

fn check_log_records(records: &Vec<RunLogRecord>, boundary: &ReclaimBoundary) -> (result: Result<
    (),
    RuntimeError,
>)
    ensures
        error::failure(result) == log_records_failure(records@, *boundary),
{
    match boundary {
        ReclaimBoundary::Unpublished => {
            if records.len() == 1 {
                if let RunLogRecord::Definition { .. } = &records[0] {
                    return Ok(());
                }
            }
            Err(protocol("unpublished productive run has committed run-log records"))
        },
        ReclaimBoundary::Creation { header, .. } => {
            if records.len() == 1 {
                if let RunLogRecord::Definition { schema, definition } = &records[0] {
                    if same_text(schema.as_str(), RUN_LOG_RECORD_SCHEMA_V1) && same_text(
                        definition.flow_definition_id.text.as_str(),
                        header.flow_definition_id.text.as_str(),
                    ) && same_text(
                        definition.registry_hash.as_str(),
                        header.registry_hash.as_str(),
                    ) && same_text(
                        definition.flow_definition_hash.as_str(),
                        header.flow_definition_hash.as_str(),
                    ) {
                        return Ok(());
                    }
                }
            }
            Err(protocol("productive run creation definition differs from its recovery header"))
        },
    }
}

/// Whether a run that is to be taken back is left as it is.
pub open spec fn stays(facts: ReclaimFacts, boundary: ReclaimBoundary) -> bool {
    boundary is Unpublished && (facts.publication_marker !is File || facts.recovery is File)
}

/// Whether the conversation of a run goes with it.
pub open spec fn takes_conversation(facts: ReclaimFacts, root: bool) -> bool {
    root && facts.history_length == Ok::<u64, RuntimeError>(0)
}

/// What is wrong with where a run has come that is to be taken back.
pub open spec fn boundary_failure(facts: ReclaimFacts, boundary: ReclaimBoundary) -> Option<
    ErrorModel,
> {
    match boundary {
        ReclaimBoundary::Unpublished => None,
        ReclaimBoundary::Creation { .. } => if facts.publication_marker !is File && facts.recovery
            !is File {
            error::protocol_failure(
                "productive run creation has neither publication marker nor recovery header"@,
            )
        } else if facts.recovery is File {
            error::failure(facts.recovery_check)
        } else {
            None
        },
    }
}

/// What is wrong with the place of a run among the runs and in its conversation.
pub open spec fn place_failure(facts: ReclaimFacts, boundary: ReclaimBoundary, root: bool) -> Option<
    ErrorModel,
> {
    if !root {
        None
    } else {
        match facts.run_count {
            Err(error) => Some(error@),
            Ok(count) => if count != 1 {
                error::protocol_failure("unpublished root productive run has sibling runs"@)
            } else {
                match facts.history_length {
                    Err(error) => Some(error@),
                    Ok(length) => if length == 0 {
                        error::failure(facts.conversation_check)
                    } else if boundary is Creation {
                        error::protocol_failure(
                            "productive root run creation has committed conversation history"@,
                        )
                    } else {
                        None
                    },
                }
            },
        }
    }
}

/// What is wrong with a run that is to be taken back.
pub open spec fn reclaim_failure(facts: ReclaimFacts, boundary: ReclaimBoundary, root: bool) -> Option<
    ErrorModel,
> {
    error::first_failure(
        error::first_failure(error::failure(facts.identity), run_mutation::marker_failure(facts.run_marker)),
        error::first_failure(
            real_file_failure(facts.publication_marker, "unpublished productive run marker"@),
            error::first_failure(
                real_file_failure(facts.recovery, "productive recovery metadata"@),
                if stays(facts, boundary) {
                    None
                } else {
                    error::first_failure(
                        boundary_failure(facts, boundary),
                        error::first_failure(
                            committed_failure(facts.events_length, RUN_EVENTS_LEAF@),
                            error::first_failure(
                                committed_failure(facts.contexts_length, RUN_CONTEXTS_LEAF@),
                                error::first_failure(
                                    match facts.records {
                                        Err(error) => Some(error@),
                                        Ok(records) => log_records_failure(records@, boundary),
                                    },
                                    error::first_failure(
                                        if boundary is Creation {
                                            error::failure(facts.object_check)
                                        } else {
                                            None
                                        },
                                        error::first_failure(
                                            place_failure(facts, boundary, root),
                                            run_inventory_failure(
                                                facts.listed@,
                                                run_mutation::marker_of(facts.identity->Ok_0),
                                                facts.publication_marker is File,
                                                facts.recovery is File,
                                            ),
                                        ),
                                    ),
                                ),
                            ),
                        ),
                    )
                },
            ),
        ),
    )
}

/// Whether a run is taken back: it is where nothing of it was committed. `root` is
/// whether the run is the one that its conversation began with.
pub fn reclaim_productive_run(facts: ReclaimFacts, boundary: ReclaimBoundary, root: bool) -> (result:
    Result<ReclaimDecision, RuntimeError>)
    ensures
        error::failure(result) == reclaim_failure(facts, boundary, root),
        result matches Ok(decision) ==> match decision {
            ReclaimDecision::Nothing => stays(facts, boundary),
            ReclaimDecision::Reclaim { conversation, run_marker } => {
                &&& !stays(facts, boundary)
                &&& conversation == takes_conversation(facts, root)
                &&& run_marker@ == run_mutation::marker_of(facts.identity->Ok_0)
            },
        },
{
    let run_marker = validate_run_creation_marker(facts.identity, facts.run_marker)?;
    let marker_present = anchored_real_file_present(
        facts.publication_marker,
        "unpublished productive run marker",
    )?;
    let recovery_present = anchored_real_file_present(
        facts.recovery,
        "productive recovery metadata",
    )?;
    let creation = match &boundary {
        ReclaimBoundary::Unpublished => {
            if !marker_present || recovery_present {
                return Ok(ReclaimDecision::Nothing);
            }
            false
        },
        ReclaimBoundary::Creation { .. } => {
            if !marker_present && !recovery_present {
                return Err(
                    protocol(
                        "productive run creation has neither publication marker nor recovery header",
                    ),
                );
            }
            if recovery_present {
                facts.recovery_check?;
            }
            true
        },
    };
    check_uncommitted(facts.events_length, RUN_EVENTS_LEAF)?;
    check_uncommitted(facts.contexts_length, RUN_CONTEXTS_LEAF)?;
    let records = facts.records?;
    check_log_records(&records, &boundary)?;
    if creation {
        facts.object_check?;
    }
    let mut conversation = false;
    if root {
        if facts.run_count? != 1 {
            return Err(protocol("unpublished root productive run has sibling runs"));
        }
        conversation = facts.history_length? == 0;
        if creation && !conversation {
            return Err(protocol("productive root run creation has committed conversation history"));
        }
        if conversation {
            facts.conversation_check?;
        }
    }
    validate_productive_run_reclaim_inventory(
        facts.listed,
        run_marker.as_str(),
        marker_present,
        recovery_present,
    )?;
    Ok(ReclaimDecision::Reclaim { conversation, run_marker })
}

/// Nothing that was committed is taken back: a run that goes has no events, no contexts
/// and no record in its log but its definition, and a conversation that goes with it has
/// no history.
pub proof fn law_committed_work_is_kept(facts: ReclaimFacts, boundary: ReclaimBoundary, root: bool)
    requires
        reclaim_failure(facts, boundary, root) is None,
        !stays(facts, boundary),
    ensures
        facts.events_length == Ok::<u64, RuntimeError>(0),
        facts.contexts_length == Ok::<u64, RuntimeError>(0),
        facts.records is Ok,
        facts.records->Ok_0@.len() == 1,
        facts.records->Ok_0@[0] is Definition,
        takes_conversation(facts, root) ==> facts.history_length == Ok::<u64, RuntimeError>(0)
            && facts.run_count == Ok::<usize, RuntimeError>(1),
{
}

/// What is done next to take back a run.
#[derive(Clone, Copy, Debug, PartialEq, Eq, Structural)]
pub enum ReclaimAction {
    /// Put the marker of its own into the conversation that goes.
    PrepareMarker,
    /// Write down that the run is about to go.
    RecordTransaction,
    RemoveRun,
    SyncRuns,
    FinishTransaction,
    RemoveHistory,
    RemoveSummary,
    RemoveRuns,
    SyncConversation,
    ClearMarker,
    RemoveConversation,
    SyncSessions,
    RecoverAfterFailure,
    Done,
}

/// A run that is being taken back.
pub struct RunReclamation {
    pub conversation: bool,
    pub action: ReclaimAction,
    /// What went wrong, in order.
    pub failures: Vec<RuntimeError>,
}

/// The action behind one.
pub open spec fn next_reclaim_action(action: ReclaimAction, conversation: bool, failed: bool) -> ReclaimAction {
    if failed {
        if action is RemoveRun {
            ReclaimAction::RecoverAfterFailure
        } else {
            ReclaimAction::Done
        }
    } else {
        match action {
            ReclaimAction::PrepareMarker => ReclaimAction::RecordTransaction,
            ReclaimAction::RecordTransaction => ReclaimAction::RemoveRun,
            ReclaimAction::RemoveRun => ReclaimAction::SyncRuns,
            ReclaimAction::SyncRuns => ReclaimAction::FinishTransaction,
            ReclaimAction::FinishTransaction => if conversation {
                ReclaimAction::RemoveHistory
            } else {
                ReclaimAction::Done
            },
            ReclaimAction::RemoveHistory => ReclaimAction::RemoveSummary,
            ReclaimAction::RemoveSummary => ReclaimAction::RemoveRuns,
            ReclaimAction::RemoveRuns => ReclaimAction::SyncConversation,
            ReclaimAction::SyncConversation => ReclaimAction::ClearMarker,
            ReclaimAction::ClearMarker => ReclaimAction::RemoveConversation,
            ReclaimAction::RemoveConversation => ReclaimAction::SyncSessions,
            ReclaimAction::SyncSessions => ReclaimAction::Done,
            ReclaimAction::RecoverAfterFailure => ReclaimAction::Done,
            ReclaimAction::Done => ReclaimAction::Done,
        }
    }
}

impl RunReclamation {
    /// A run of which nothing has been taken back.
    pub fn start(conversation: bool) -> (reclamation: RunReclamation)
        ensures
            reclamation.conversation == conversation,
            reclamation.action == (if conversation {
                ReclaimAction::PrepareMarker
            } else {
                ReclaimAction::RecordTransaction
            }),
            reclamation.failures@.len() == 0,
            reclamation.sound(),
    {
        RunReclamation {
            conversation,
            action: if conversation {
                ReclaimAction::PrepareMarker
            } else {
                ReclaimAction::RecordTransaction
            },
            failures: Vec::new(),
        }
    }

    /// Nothing has gone wrong as long as the run is being taken back.
    pub open spec fn sound(self) -> bool {
        &&& self.action !is Done && self.action !is RecoverAfterFailure ==> self.failures@.len()
            == 0
        &&& self.action is RecoverAfterFailure ==> self.failures@.len() == 1
        &&& 5 <= reclaim_rank(self.action) <= 11 ==> self.conversation
    }

    /// Goes on by what came of the action.
    pub fn advance(&mut self, outcome: Result<(), RuntimeError>)
        requires
            old(self).sound(),
            old(self).action !is Done,
        ensures
            final(self).sound(),
            final(self).conversation == old(self).conversation,
            final(self).action == next_reclaim_action(
                old(self).action,
                old(self).conversation,
                outcome is Err,
            ),
            error::failures_view(final(self).failures@) == (match outcome {
                Ok(_) => error::failures_view(old(self).failures@),
                Err(error) => error::failures_view(old(self).failures@).push(error@),
            }),
    {
        let ghost before = error::failures_view(self.failures@);
        let failed = outcome.is_err();
        if let Err(error) = outcome {
            let ghost model = error@;
            self.failures.push(error);
            assert(error::failures_view(self.failures@) =~= before.push(model));
        }
        self.action = if failed {
            match self.action {
                ReclaimAction::RemoveRun => ReclaimAction::RecoverAfterFailure,
                _ => ReclaimAction::Done,
            }
        } else {
            match self.action {
                ReclaimAction::PrepareMarker => ReclaimAction::RecordTransaction,
                ReclaimAction::RecordTransaction => ReclaimAction::RemoveRun,
                ReclaimAction::RemoveRun => ReclaimAction::SyncRuns,
                ReclaimAction::SyncRuns => ReclaimAction::FinishTransaction,
                ReclaimAction::FinishTransaction => {
                    if self.conversation {
                        ReclaimAction::RemoveHistory
                    } else {
                        ReclaimAction::Done
                    }
                },
                ReclaimAction::RemoveHistory => ReclaimAction::RemoveSummary,
                ReclaimAction::RemoveSummary => ReclaimAction::RemoveRuns,
                ReclaimAction::RemoveRuns => ReclaimAction::SyncConversation,
                ReclaimAction::SyncConversation => ReclaimAction::ClearMarker,
                ReclaimAction::ClearMarker => ReclaimAction::RemoveConversation,
                ReclaimAction::RemoveConversation => ReclaimAction::SyncSessions,
                ReclaimAction::SyncSessions => ReclaimAction::Done,
                ReclaimAction::RecoverAfterFailure => ReclaimAction::Done,
                ReclaimAction::Done => ReclaimAction::Done,
            }
        };
    }
}

/// The order of the actions.
pub open spec fn reclaim_rank(action: ReclaimAction) -> int {
    match action {
        ReclaimAction::PrepareMarker => 0,
        ReclaimAction::RecordTransaction => 1,
        ReclaimAction::RemoveRun => 2,
        ReclaimAction::SyncRuns => 3,
        ReclaimAction::FinishTransaction => 4,
        ReclaimAction::RemoveHistory => 5,
        ReclaimAction::RemoveSummary => 6,
        ReclaimAction::RemoveRuns => 7,
        ReclaimAction::SyncConversation => 8,
        ReclaimAction::ClearMarker => 9,
        ReclaimAction::RemoveConversation => 10,
        ReclaimAction::SyncSessions => 11,
        ReclaimAction::RecoverAfterFailure => 12,
        ReclaimAction::Done => 13,
    }
}

/// Taking back a run goes on until it is done: whatever comes of an action, a later one
/// follows; and a run is removed only behind the transaction that says so.
pub proof fn law_reclamation_goes_on(action: ReclaimAction, conversation: bool, failed: bool)
    requires
        action !is Done,
    ensures
        reclaim_rank(next_reclaim_action(action, conversation, failed)) > reclaim_rank(action),
        next_reclaim_action(action, conversation, failed) is RemoveRun ==> action
            is RecordTransaction && !failed,
        next_reclaim_action(action, conversation, failed) is RemoveHistory ==> action
            is FinishTransaction && !failed && conversation,
{
}

/// Where looking for a run that is to be taken back stands.
#[derive(Clone, Copy, Debug, PartialEq, Eq, Structural)]
pub enum ReclaimStage {
    /// What is left of an unfinished beginning or end of the conversation is finished. It
    /// is answered whether that took the conversation away.
    FinishLifecycle,
    /// The conversation is looked for. It is answered whether it is there.
    FindConversation,
    RecoverStatus,
    ReadSummary,
    OpenRuns,
    /// The run is looked for. It is answered whether it is there.
    FindRun,
    /// The run is there, and is judged.
    Judge,
    /// There is nothing to take back.
    Nothing,
}

/// The stage behind one.
pub open spec fn next_reclaim_stage(stage: ReclaimStage, answer: bool) -> ReclaimStage {
    match stage {
        ReclaimStage::FinishLifecycle => if answer {
            ReclaimStage::Nothing
        } else {
            ReclaimStage::FindConversation
        },
        ReclaimStage::FindConversation => if answer {
            ReclaimStage::RecoverStatus
        } else {
            ReclaimStage::Nothing
        },
        ReclaimStage::RecoverStatus => ReclaimStage::ReadSummary,
        ReclaimStage::ReadSummary => ReclaimStage::OpenRuns,
        ReclaimStage::OpenRuns => ReclaimStage::FindRun,
        ReclaimStage::FindRun => if answer {
            ReclaimStage::Judge
        } else {
            ReclaimStage::Nothing
        },
        ReclaimStage::Judge => ReclaimStage::Judge,
        ReclaimStage::Nothing => ReclaimStage::Nothing,
    }
}

/// A run that is to be taken back is looked for.
pub struct ReclaimSearch {
    /// Whether the run is the one that its conversation began with.
    pub root: bool,
    pub stage: ReclaimStage,
}

impl ReclaimSearch {
    /// Begins to look for a run of a conversation.
    pub fn begin(conversation_id: &Checked, run_session_id: &Checked) -> (result: Result<
        ReclaimSearch,
        RuntimeError,
    >)
        ensures
            error::failure(result) == error::first_failure(
                contract::id_failure(conversation_id@, "conversation"@),
                contract::id_failure(run_session_id@, "run session"@),
            ),
            result matches Ok(search) ==> search == (ReclaimSearch {
                root: conversation_id.text@ == run_session_id.text@,
                stage: ReclaimStage::FinishLifecycle,
            }),
    {
        validate_id(conversation_id, "conversation")?;
        validate_id(run_session_id, "run session")?;
        Ok(
            ReclaimSearch {
                root: same_text(conversation_id.text.as_str(), run_session_id.text.as_str()),
                stage: ReclaimStage::FinishLifecycle,
            },
        )
    }

    /// Goes on by the answer to what was asked. A conversation or a run that is not there
    /// is no failure: there is nothing to take back.
    pub fn advance(&mut self, answer: Result<bool, RuntimeError>) -> (result: Result<(), RuntimeError>)
        ensures
            error::failure(result) == error::failure(answer),
            *final(self) == (match answer {
                Ok(answer) => ReclaimSearch {
                    stage: next_reclaim_stage(old(self).stage, answer),
                    ..*old(self)
                },
                Err(_) => *old(self),
            }),
    {
        let answer = answer?;
        self.stage = match self.stage {
            ReclaimStage::FinishLifecycle => {
                if answer {
                    ReclaimStage::Nothing
                } else {
                    ReclaimStage::FindConversation
                }
            },
            ReclaimStage::FindConversation => {
                if answer {
                    ReclaimStage::RecoverStatus
                } else {
                    ReclaimStage::Nothing
                }
            },
            ReclaimStage::RecoverStatus => ReclaimStage::ReadSummary,
            ReclaimStage::ReadSummary => ReclaimStage::OpenRuns,
            ReclaimStage::OpenRuns => ReclaimStage::FindRun,
            ReclaimStage::FindRun => {
                if answer {
                    ReclaimStage::Judge
                } else {
                    ReclaimStage::Nothing
                }
            },
            ReclaimStage::Judge => ReclaimStage::Judge,
            ReclaimStage::Nothing => ReclaimStage::Nothing,
        };
        Ok(())
    }
}

/// Whether a conversation and a run of it are there.
pub struct ReclaimPlace {
    pub conversation: bool,
    pub run: bool,
}

/// What is there after an action that succeeded.
pub open spec fn place_after(place: ReclaimPlace, action: ReclaimAction) -> ReclaimPlace {
    match action {
        ReclaimAction::RemoveRun => ReclaimPlace { run: false, ..place },
        ReclaimAction::RemoveConversation => ReclaimPlace { conversation: false, ..place },
        _ => place,
    }
}

/// What is there when a run was taken back, from one action on.
pub open spec fn reclaimed_place(
    place: ReclaimPlace,
    action: ReclaimAction,
    conversation: bool,
) -> ReclaimPlace
    decreases 13 - reclaim_rank(action),
{
    if action is Done {
        place
    } else {
        reclaimed_place(
            place_after(place, action),
            next_reclaim_action(action, conversation, false),
            conversation,
        )
    }
}

/// What is answered at a stage where a conversation is whole.
pub open spec fn answer_in(place: ReclaimPlace, stage: ReclaimStage) -> bool {
    match stage {
        ReclaimStage::FindConversation => place.conversation,
        ReclaimStage::FindRun => place.run,
        _ => false,
    }
}

/// Where looking for a run ends, from one stage on.
pub open spec fn search_end(place: ReclaimPlace, stage: ReclaimStage) -> ReclaimStage
    decreases
            match stage {
                ReclaimStage::FinishLifecycle => 6int,
                ReclaimStage::FindConversation => 5,
                ReclaimStage::RecoverStatus => 4,
                ReclaimStage::ReadSummary => 3,
                ReclaimStage::OpenRuns => 2,
                ReclaimStage::FindRun => 1,
                _ => 0,
            },
{
    if stage is Judge || stage is Nothing {
        stage
    } else {
        search_end(place, next_reclaim_stage(stage, answer_in(place, stage)))
    }
}

/// To take back a run twice is to take it back once: when it has gone, with its
/// conversation or without it, looking for it finds nothing to take back.
pub proof fn law_reclaimed_run_is_not_reclaimed_again(place: ReclaimPlace, conversation: bool)
    ensures
        ({
            let first = if conversation {
                ReclaimAction::PrepareMarker
            } else {
                ReclaimAction::RecordTransaction
            };
            let after = reclaimed_place(place, first, conversation);
            &&& !after.run
            &&& conversation ==> !after.conversation
            &&& !conversation ==> after.conversation == place.conversation
            &&& search_end(after, ReclaimStage::FinishLifecycle) is Nothing
        }),
{
    reveal_with_fuel(reclaimed_place, 14);
    reveal_with_fuel(search_end, 8);
}

/// A run is reclaimed in one order: marked where its conversation goes with it, recorded,
/// removed and made durable, and the transaction finished; only then, and only where it goes
/// too, the conversation, its marker last. A failed removal is recovered from, any other
/// failure ends the reclamation.
pub proof fn law_reclamation_keeps_its_order(
    action: ReclaimAction,
    conversation: bool,
    failed: bool,
)
    requires
        action !is Done,
    ensures
        ({
            let next = next_reclaim_action(action, conversation, failed);
            &&& next is RecordTransaction ==> action is PrepareMarker && !failed
            &&& next is RemoveRun ==> action is RecordTransaction && !failed
            &&& next is SyncRuns ==> action is RemoveRun && !failed
            &&& next is FinishTransaction ==> action is SyncRuns && !failed
            &&& next is RemoveHistory ==> action is FinishTransaction && conversation && !failed
            &&& next is RemoveSummary ==> action is RemoveHistory && !failed
            &&& next is RemoveRuns ==> action is RemoveSummary && !failed
            &&& next is SyncConversation ==> action is RemoveRuns && !failed
            &&& next is ClearMarker ==> action is SyncConversation && !failed
            &&& next is RemoveConversation ==> action is ClearMarker && !failed
            &&& next is SyncSessions ==> action is RemoveConversation && !failed
            &&& next is RecoverAfterFailure <==> action is RemoveRun && failed
            &&& next is Done <==> {
                ||| failed && action !is RemoveRun
                ||| action is FinishTransaction && !conversation
                ||| action is SyncSessions
                ||| action is RecoverAfterFailure
            }
        }),
{
}

/// A run is looked for step by step: it is judged only where no lifecycle was finished, its
/// conversation was found, and the run itself was found.
pub proof fn law_run_is_judged_where_it_is_found(stage: ReclaimStage, answer: bool)
    requires
        stage !is Judge,
        stage !is Nothing,
    ensures
        ({
            let next = next_reclaim_stage(stage, answer);
            &&& next is FindConversation <==> stage is FinishLifecycle && !answer
            &&& next is RecoverStatus <==> stage is FindConversation && answer
            &&& next is ReadSummary <==> stage is RecoverStatus
            &&& next is OpenRuns <==> stage is ReadSummary
            &&& next is FindRun <==> stage is OpenRuns
            &&& next is Judge <==> stage is FindRun && answer
            &&& next is Nothing <==> {
                ||| stage is FinishLifecycle && answer
                ||| stage is FindConversation && !answer
                ||| stage is FindRun && !answer
            }
        }),
{
}

proof fn lemma_known_entries(listed: Seq<ListedName>, from: int, expected: Seq<Seq<char>>)
    requires
        0 <= from <= listed.len(),
    ensures
        known_entries_failure(listed, from, expected) is None <==> forall|k: int|
            from <= k < listed.len() ==> (#[trigger] listed[k]) is Name && expected.contains(
                listed[k]->Name_0@,
            ),
    decreases listed.len() - from,
{
    if from < listed.len() {
        lemma_known_entries(listed, from + 1, expected);
    }
}

/// A run is reclaimed only where everything in it is known, and everything that it was
/// created with is in it.
pub proof fn law_reclaimed_run_is_known_whole(
    listed: Seq<ListedName>,
    marker: Seq<char>,
    published: bool,
    recovery: bool,
    name: Seq<char>,
)
    requires
        run_inventory_failure(listed, marker, published, recovery) is None,
    ensures
        forall|k: int| 0 <= k < listed.len() ==> (#[trigger] listed[k]) is Name,
        (exists|k: int|
            0 <= k < listed.len() && (#[trigger] listed[k]) is Name && listed[k]->Name_0@ == name)
            <==> {
            ||| name == RUN_CONTEXTS_LEAF@
            ||| name == RUN_EVENTS_LEAF@
            ||| name == RUN_OBJECTS_DIR@
            ||| name == RUN_LOG_LEAF@
            ||| name == RUN_SESSION_LOCK_LEAF@
            ||| name == marker
            ||| published && name == UNPUBLISHED_PRODUCTIVE_RUN_MARKER@
            ||| recovery && name == RUN_RECOVERY_LEAF@
        },
{
    let expected = reclaimed_run_leaves(marker, published, recovery);
    lemma_known_entries(listed, 0, expected);
    listing::law_names_are_those_listed(listed, name);
    assert(listing::names_of(listed).contains(name) <==> expected.contains(name));
    assert(expected[0] == RUN_CONTEXTS_LEAF@);
    assert(expected[1] == RUN_EVENTS_LEAF@);
    assert(expected[2] == RUN_OBJECTS_DIR@);
    assert(expected[3] == RUN_LOG_LEAF@);
    assert(expected[4] == RUN_SESSION_LOCK_LEAF@);
    assert(expected[5] == marker);
    assert(published ==> expected[6] == UNPUBLISHED_PRODUCTIVE_RUN_MARKER@);
    assert(recovery ==> expected[expected.len() - 1] == RUN_RECOVERY_LEAF@);
}

/// A conversation is reclaimed with its run only where it holds its history, its runs and its
/// summary, and nothing else.
pub proof fn law_reclaimed_conversation_holds_three_leaves(
    listed: Seq<ListedName>,
    name: Seq<char>,
)
    requires
        root_inventory_failure(listed) is None,
    ensures
        listing::names_of(listed).contains(name) <==> name == CONVERSATION_HISTORY_LEAF@ || name
            == CONVERSATION_RUNS_DIR@ || name == CONVERSATION_STATUS_LEAF@,
{
    let root = reclaimable_root();
    assert(listing::names_of(listed).contains(name) <==> root.contains(name));
    assert(root[0] == CONVERSATION_HISTORY_LEAF@);
    assert(root[1] == CONVERSATION_RUNS_DIR@);
    assert(root[2] == CONVERSATION_STATUS_LEAF@);
}

/// What is reclaimed was created and not used: its recovery, where there is one, is exactly
/// the expected header, and its objects exactly the one that the header names.
pub proof fn law_reclaimed_creation_is_its_header(
    lines: Seq<Seq<u8>>,
    canonical: Seq<char>,
    uri: ObjectUri,
    objects: Result<bool, RuntimeError>,
    names: Result<Vec<String>, RuntimeError>,
    object: Result<(), RuntimeError>,
    history: Result<(), RuntimeError>,
)
    ensures
        creation_recovery_failure(lines, canonical) is None <==> lines.len() == 1 && lines[0]
            == encode_utf8(canonical),
        creation_object_failure(uri, objects, names, object, history) is None ==> {
            &&& objects == Ok::<bool, RuntimeError>(true)
            &&& names is Ok
            &&& names->Ok_0@.len() == 1
            &&& names->Ok_0@[0]@ == uri.digest->0@
            &&& object is Ok
            &&& history is Ok
        },
{
}

} // verus!
