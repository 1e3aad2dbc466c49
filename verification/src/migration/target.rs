//! The conversation that a session became: whether it is all that the session was, and
//! what of the session may go then.

use crate::contract::validate_digest;
use crate::contract;
use crate::digest::{finish_sha256, hasher_new};
use crate::digest;
use crate::error::{protocol, ErrorModel, RuntimeError};
use crate::error;
use crate::history::model::{ConversationEntry, ConversationEntryType};
use crate::listing::{reversed, ListedName};
use crate::migration::manifest::{legacy_root_entry_id, same_file, same_manifest, LegacyObjectManifest, LegacySourceFile, LegacySourceManifest, SourceFileModel};
use crate::migration::manifest;
use crate::migration::observations::{legacy_uncertain_attempt_count, same_observations, LegacyToolObservation};
use crate::migration::observations;
use crate::migration::plan::{hash_inventory_record, LastModel, LegacyEventScan, ScanModel};
use crate::migration::plan;
use crate::migration::stage::StagedKind;
use crate::migration::stage;
use crate::runs::attempts::RunLogRecord;
use crate::status::summary::{ConversationStatusSummary, STATUS_SUMMARY_SCHEMA};
use crate::text::{chars_of, head_of, join2, same_text, string_of};
use crate::text;
use vstd::prelude::*;

verus! {

/// The log of a run that was moved: its first record, and the records of tools behind
/// it, nothing where another record stands among them.
pub struct MigratedLog {
    pub first: Option<RunLogRecord>,
    pub observations: Option<Vec<LegacyToolObservation>>,
}

/// What is wrong with the first record of a log as the source of a manifest.
pub open spec fn manifest_source_failure(first: Option<RunLogRecord>, session_id: Seq<char>) -> Option<
    ErrorModel,
> {
    match first {
        Some(RunLogRecord::Definition { definition, .. }) => if text::optional_view(
            definition.legacy_session_id,
        ) != Some(session_id) {
            error::protocol_failure("migrated run log has the wrong legacy session id"@)
        } else if definition.legacy_source_manifest is None {
            error::protocol_failure("migrated run log lacks its source manifest"@)
        } else {
            None
        },
        _ => error::protocol_failure("migrated run log lacks its definition record"@),
    }
}

/// The manifest that the log of a run carries that was moved.
pub fn source_manifest_from_records<'a>(first: &'a Option<RunLogRecord>, session_id: &str) -> (result:
    Result<&'a LegacySourceManifest, RuntimeError>)
    ensures
        error::failure(result) == manifest_source_failure(*first, session_id@),
        result matches Ok(manifest) ==> (*first matches Some(
            RunLogRecord::Definition { definition, .. },
        ) && definition.legacy_source_manifest == Some(*manifest)),
{
    match first {
        Some(RunLogRecord::Definition { definition, .. }) => {
            let named = match &definition.legacy_session_id {
                Some(id) => same_text(id.as_str(), session_id),
                None => false,
            };
            if !named {
                return Err(protocol("migrated run log has the wrong legacy session id"));
            }
            match &definition.legacy_source_manifest {
                Some(manifest) => Ok(manifest),
                None => Err(protocol("migrated run log lacks its source manifest")),
            }
        },
        _ => Err(protocol("migrated run log lacks its definition record")),
    }
}

/// Whether hashing a file gave what is expected of it.
pub open spec fn hashes_to(hashed: (u64, String), expected: SourceFileModel) -> bool {
    hashed.0 == expected.bytes && hashed.1@ == expected.sha256
}

/// What is wrong with a file that was moved.
pub open spec fn verify_failure(
    hashed: Result<(u64, String), RuntimeError>,
    expected: SourceFileModel,
) -> Option<ErrorModel> {
    match hashed {
        Err(error) => Some(error@),
        Ok(hashed) => if hashes_to(hashed, expected) {
            None
        } else {
            error::protocol_failure("migrated source bytes do not match their manifest"@)
        },
    }
}

/// Accepts a file that was moved.
pub fn verify_path_source(
    hashed: Result<(u64, String), RuntimeError>,
    expected: &LegacySourceFile,
) -> (result: Result<(), RuntimeError>)
    ensures
        error::failure(result) == verify_failure(hashed, expected@),
{
    let (bytes, digest) = hashed?;
    if bytes != expected.bytes || !same_text(digest.as_str(), expected.sha256.as_str()) {
        return Err(protocol("migrated source bytes do not match their manifest"));
    }
    Ok(())
}

/// What is wrong with the files that were moved. Each that is expected must have been
/// hashed.
pub open spec fn segments_failure(
    hashed: Seq<Result<(u64, String), RuntimeError>>,
    expected: Seq<SourceFileModel>,
    from: int,
) -> Option<ErrorModel>
    decreases expected.len() - from,
{
    if from < 0 || from >= expected.len() {
        None
    } else if from >= hashed.len() {
        error::protocol_failure("migrated source bytes do not match their manifest"@)
    } else {
        error::first_failure(
            verify_failure(hashed[from], expected[from]),
            segments_failure(hashed, expected, from + 1),
        )
    }
}

/// Whether segments are as many as expected, and each hashes to what is expected of it.
pub open spec fn signatures_match(
    signatures: Seq<(u64, String)>,
    expected: Seq<SourceFileModel>,
) -> bool {
    &&& signatures.len() == expected.len()
    &&& forall|k: int| 0 <= k < expected.len() ==> hashes_to(#[trigger] signatures[k], expected[k])
}

fn match_signatures(signatures: &Vec<(u64, String)>, expected: &Vec<LegacySourceFile>) -> (matched:
    bool)
    ensures
        matched == signatures_match(signatures@, manifest::files_view(expected@)),
{
    if signatures.len() != expected.len() {
        return false;
    }
    let ghost wanted = manifest::files_view(expected@);
    let mut i: usize = 0;
    while i < expected.len()
        invariant
            i <= expected.len(),
            signatures.len() == expected.len(),
            wanted == manifest::files_view(expected@),
            forall|k: int| 0 <= k < i ==> hashes_to(#[trigger] signatures@[k], wanted[k]),
        decreases expected.len() - i,
    {
        assert(wanted[i as int] == expected@[i as int]@);
        if signatures[i].0 != expected[i].bytes || !same_text(
            signatures[i].1.as_str(),
            expected[i].sha256.as_str(),
        ) {
            assert(!hashes_to(signatures@[i as int], wanted[i as int]));
            return false;
        }
        i = i + 1;
    }
    true
}

/// What is found of a conversation that a session became. What is not reached has no
/// bearing.
pub struct TargetFacts {
    /// Whether the directories hold nothing but files and directories.
    pub tree: Result<(), RuntimeError>,
    /// Whether the runs, and the run among them, are there.
    pub place: Result<(), RuntimeError>,
    pub log: Result<MigratedLog, RuntimeError>,
    pub lock: Result<(), RuntimeError>,
    /// What hashing each segment of contexts gave.
    pub contexts: Vec<Result<(u64, String), RuntimeError>>,
    /// How long each segment of events is, and its digest.
    pub events: Result<Vec<(u64, String)>, RuntimeError>,
    pub history: Result<Vec<ConversationEntry>, RuntimeError>,
    pub status: Result<ConversationStatusSummary, RuntimeError>,
    pub objects: Result<LegacyObjectManifest, RuntimeError>,
}

/// Whether the history of a conversation is the one entry that it became with.
pub open spec fn is_migrated_history(
    history: Seq<ConversationEntry>,
    manifest: LegacySourceManifest,
    last: LastModel,
) -> bool {
    &&& history.len() == 1
    &&& history[0].entry_id.text@ == manifest::root_entry_id(manifest.canonical@)
    &&& history[0].parent_entry_id is None
    &&& history[0].run_session_id.text@ == manifest.session_id@
    &&& history[0].event_sequence == last.sequence
    &&& history[0].timestamp.text@ == last.timestamp
    &&& history[0].entry_type == ConversationEntryType::LegacyRun
}

/// Whether objects are what a manifest says.
pub open spec fn same_objects_as(objects: LegacyObjectManifest, manifest: LegacySourceManifest) -> bool {
    &&& objects.count == manifest.objects.count
    &&& objects.bytes == manifest.objects.bytes
    &&& objects.inventory_sha256@ == manifest.objects.inventory_sha256@
}

/// What is wrong with the history, the log, the summary and the objects of a
/// conversation that a session became.
pub open spec fn target_contents_failure(
    facts: TargetFacts,
    expected: LegacySourceManifest,
    scan: ScanModel,
) -> Option<ErrorModel> {
    let last = scan.last_event->0;
    let records = observations::records_of(scan.tools.drafts);
    match facts.history {
        Err(error) => Some(error@),
        Ok(history) => if !is_migrated_history(history@, expected, last) {
            error::protocol_failure("migrated conversation root does not match its event stream"@)
        } else if facts.log->Ok_0.observations is None || observations::observations_view(
            facts.log->Ok_0.observations->0@,
        ) != records {
            error::protocol_failure("migrated run log observations do not match its event stream"@)
        } else {
            match facts.status {
                Err(error) => Some(error@),
                Ok(status) => if status@ != stage::migrated_status(
                    expected.session_id@,
                    manifest::root_entry_id(expected.canonical@),
                    observations::uncertain_count(records),
                ) {
                    error::protocol_failure(
                        "migrated conversation status summary does not match its source"@,
                    )
                } else {
                    match facts.objects {
                        Err(error) => Some(error@),
                        Ok(objects) => if same_objects_as(objects, expected) {
                            None
                        } else {
                            error::protocol_failure("migrated object inventory does not match its source"@)
                        },
                    }
                },
            }
        },
    }
}

/// What is wrong with the event streams of a conversation that a session became.
pub open spec fn target_events_failure(
    facts: TargetFacts,
    expected: LegacySourceManifest,
    scan: ScanModel,
) -> Option<ErrorModel> {
    match facts.events {
        Err(error) => Some(error@),
        Ok(signatures) => if !signatures_match(
            signatures@,
            manifest::files_view(expected.event_segments@),
        ) {
            error::protocol_failure("migrated source bytes do not match their manifest"@)
        } else {
            match scan.last_event {
                None => error::protocol_failure("migrated event stream is empty"@),
                Some(last) => if last.ends_session {
                    None
                } else {
                    error::protocol_failure("migrated event stream is not complete"@)
                },
            }
        },
    }
}

/// What is wrong with a conversation that a session became.
pub open spec fn target_failure(
    facts: TargetFacts,
    expected: LegacySourceManifest,
    scan: ScanModel,
) -> Option<ErrorModel> {
    error::first_failure(
        error::failure(facts.tree),
        error::first_failure(
            error::failure(facts.place),
            match facts.log {
                Err(error) => Some(error@),
                Ok(log) => error::first_failure(
                    manifest_source_failure(log.first, expected.session_id@),
                    if carried_manifest(log).view() != expected@ {
                        error::protocol_failure("published migration source manifest does not match"@)
                    } else {
                        error::first_failure(
                            error::failure(facts.lock),
                            error::first_failure(
                                segments_failure(
                                    facts.contexts@,
                                    manifest::files_view(expected.context_segments@),
                                    0,
                                ),
                                error::first_failure(
                                    target_events_failure(facts, expected, scan),
                                    target_contents_failure(facts, expected, scan),
                                ),
                            ),
                        )
                    },
                ),
            },
        ),
    )
}

/// The manifest that a log carries.
pub open spec fn carried_manifest(log: MigratedLog) -> LegacySourceManifest {
    log.first->0->definition.legacy_source_manifest->0
}

fn verify_segments(
    hashed: Vec<Result<(u64, String), RuntimeError>>,
    expected: &Vec<LegacySourceFile>,
) -> (result: Result<(), RuntimeError>)
    ensures
        error::failure(result) == segments_failure(hashed@, manifest::files_view(expected@), 0),
{
    let ghost all = hashed@;
    let ghost wanted = manifest::files_view(expected@);
    let total: usize = hashed.len();
    let mut pending = reversed(hashed);
    let mut seen: usize = 0;
    while pending.len() > 0 && seen < expected.len()
        invariant
            all == hashed@,
            wanted == manifest::files_view(expected@),
            seen <= expected.len(),
            seen + pending.len() == total,
            total == all.len(),
            segments_failure(all, wanted, 0) == segments_failure(all, wanted, seen as int),
            forall|k: int|
                0 <= k < pending@.len() ==> #[trigger] pending@[k] == all[all.len() - 1 - k],
        decreases pending@.len(),
    {
        match pending.pop() {
            None => {},
            Some(hashed) => {
                assert(hashed == all[seen as int]);
                assert(wanted[seen as int] == expected@[seen as int]@);
                verify_path_source(hashed, &expected[seen])?;
                seen = seen + 1;
            },
        }
    }
    if seen < expected.len() {
        return Err(protocol("migrated source bytes do not match their manifest"));
    }
    Ok(())
}

fn check_history(
    history: &Vec<ConversationEntry>,
    manifest: &LegacySourceManifest,
    sequence: u64,
    timestamp: &str,
) -> (matched: bool)
    ensures
        matched == is_migrated_history(
            history@,
            *manifest,
            LastModel { sequence, timestamp: timestamp@, ends_session: true },
        ),
{
    if history.len() != 1 {
        return false;
    }
    let entry_id = legacy_root_entry_id(manifest);
    let entry = &history[0];
    same_text(entry.entry_id.text.as_str(), entry_id.as_str()) && entry.parent_entry_id.is_none()
        && same_text(entry.run_session_id.text.as_str(), manifest.session_id.as_str())
        && entry.event_sequence == sequence && same_text(entry.timestamp.text.as_str(), timestamp)
        && entry.entry_type == ConversationEntryType::LegacyRun
}

fn check_status(
    status: &ConversationStatusSummary,
    manifest: &LegacySourceManifest,
    uncertain: u64,
) -> (matched: bool)
    ensures
        matched == (status@ == stage::migrated_status(
            manifest.session_id@,
            manifest::root_entry_id(manifest.canonical@),
            uncertain as nat,
        )),
{
    let entry_id = legacy_root_entry_id(manifest);
    let latest = match &status.latest_entry_id {
        Some(id) => same_text(id.text.as_str(), entry_id.as_str()),
        None => false,
    };
    same_text(status.schema.as_str(), STATUS_SUMMARY_SCHEMA) && same_text(
        status.conversation_id.text.as_str(),
        manifest.session_id.as_str(),
    ) && latest && status.run_count == 1 && status.uncertain_attempts == uncertain
}

/// Accepts a conversation that a session became: it carries the manifest of the session,
/// its files are those of the manifest, and its history, its log and its summary are
/// what the events show.
pub fn validate_migrated_target(
    facts: TargetFacts,
    expected_manifest: &LegacySourceManifest,
    scan: &LegacyEventScan,
) -> (result: Result<(), RuntimeError>)
    ensures
        error::failure(result) == target_failure(facts, *expected_manifest, scan.model()),
{
    facts.tree?;
    facts.place?;
    let log = facts.log?;
    let actual = source_manifest_from_records(&log.first, expected_manifest.session_id.as_str())?;
    if !same_manifest(actual, expected_manifest) {
        return Err(protocol("published migration source manifest does not match"));
    }
    facts.lock?;
    verify_segments(facts.contexts, &expected_manifest.context_segments)?;
    let signatures = facts.events?;
    if !match_signatures(&signatures, &expected_manifest.event_segments) {
        return Err(protocol("migrated source bytes do not match their manifest"));
    }
    let last = match &scan.last_event {
        None => {
            return Err(protocol("migrated event stream is empty"));
        },
        Some(last) => last,
    };
    if !last.ends_session {
        return Err(protocol("migrated event stream is not complete"));
    }
    let history = facts.history?;
    if !check_history(&history, expected_manifest, last.sequence, last.timestamp.as_str()) {
        return Err(protocol("migrated conversation root does not match its event stream"));
    }
    let records = scan.tools.finish();
    let same = match &log.observations {
        Some(observations) => same_observations(observations, &records),
        None => false,
    };
    if !same {
        return Err(protocol("migrated run log observations do not match its event stream"));
    }
    let uncertain = legacy_uncertain_attempt_count(&records);
    let status = facts.status?;
    if !check_status(&status, expected_manifest, uncertain) {
        return Err(protocol("migrated conversation status summary does not match its source"));
    }
    let objects = facts.objects?;
    if objects.count != expected_manifest.objects.count || objects.bytes
        != expected_manifest.objects.bytes || !same_text(
        objects.inventory_sha256.as_str(),
        expected_manifest.objects.inventory_sha256.as_str(),
    ) {
        return Err(protocol("migrated object inventory does not match its source"));
    }
    Ok(())
}

/// A conversation that is accepted has lost nothing of the session: every segment of
/// events hashes to what the manifest says of it, and so does every segment of contexts
/// that was hashed, and its objects are those of the manifest.
pub proof fn law_accepted_target_is_faithful(
    facts: TargetFacts,
    expected: LegacySourceManifest,
    scan: ScanModel,
    k: int,
)
    requires
        target_failure(facts, expected, scan) is None,
    ensures
        0 <= k < expected.event_segments@.len() ==> facts.events is Ok
            && facts.events->Ok_0@.len() == expected.event_segments@.len() && hashes_to(
            facts.events->Ok_0@[k],
            expected.event_segments@[k]@,
        ),
        0 <= k < expected.context_segments@.len() && k < facts.contexts@.len() ==> facts.contexts@[k]
            is Ok && hashes_to(facts.contexts@[k]->Ok_0, expected.context_segments@[k]@),
        facts.objects is Ok && same_objects_as(facts.objects->Ok_0, expected),
        carried_manifest(facts.log->Ok_0)@ == expected@,
{
    let events = manifest::files_view(expected.event_segments@);
    let contexts = manifest::files_view(expected.context_segments@);
    if 0 <= k < expected.event_segments@.len() {
        assert(events[k] == expected.event_segments@[k]@);
        assert(hashes_to(facts.events->Ok_0@[k], events[k]));
    }
    if 0 <= k < expected.context_segments@.len() && k < facts.contexts@.len() {
        assert(contexts[k] == expected.context_segments@[k]@);
        lemma_segment_verified(facts.contexts@, contexts, 0, k);
    }
}

proof fn lemma_segment_verified(
    hashed: Seq<Result<(u64, String), RuntimeError>>,
    expected: Seq<SourceFileModel>,
    from: int,
    k: int,
)
    requires
        0 <= from <= k < expected.len(),
        k < hashed.len(),
        segments_failure(hashed, expected, from) is None,
    ensures
        verify_failure(hashed[k], expected[k]) is None,
    decreases k - from,
{
    if from < k {
        lemma_segment_verified(hashed, expected, from + 1, k);
    }
}

/// An object of a conversation that a session became: its name, what hashing it gave,
/// and the canonical form of its record in the former layout.
pub struct TargetObject {
    pub name: String,
    pub hashed: Result<(u64, String), RuntimeError>,
    pub canonical: String,
}

/// What is wrong with an object behind others.
pub open spec fn target_object_failure(object: TargetObject, before: nat, max_total_bytes: u64) -> Option<
    ErrorModel,
> {
    error::first_failure(
        contract::digest_failure(object.name@, "migrated object"@),
        match object.hashed {
            Err(error) => Some(error@),
            Ok((bytes, digest)) => if digest@ != object.name@ {
                error::protocol_failure("migrated object digest does not match its name"@)
            } else if before + bytes > u64::MAX {
                error::protocol_failure("migrated object byte count overflow"@)
            } else if before + bytes > max_total_bytes {
                error::protocol_failure("session object data exceeds its byte limit"@)
            } else {
                None
            },
        },
    )
}

/// How many bytes objects have.
pub open spec fn target_bytes(objects: Seq<TargetObject>) -> nat
    decreases objects.len(),
{
    if objects.len() == 0 {
        0
    } else {
        target_bytes(objects.drop_last()) + objects.last().hashed->Ok_0.0 as nat
    }
}

/// The records of objects.
pub open spec fn target_records(objects: Seq<TargetObject>) -> Seq<Seq<char>> {
    objects.map_values(|object: TargetObject| object.canonical@)
}

/// What is wrong with the first objects.
pub open spec fn target_objects_failure(
    objects: Seq<TargetObject>,
    count: int,
    max_total_bytes: u64,
) -> Option<ErrorModel>
    decreases count,
{
    if count <= 0 || count > objects.len() {
        None
    } else {
        error::first_failure(
            target_objects_failure(objects, count - 1, max_total_bytes),
            target_object_failure(
                objects[count - 1],
                target_bytes(objects.take(count - 1)),
                max_total_bytes,
            ),
        )
    }
}

proof fn lemma_target_objects_fail_early(
    objects: Seq<TargetObject>,
    i: int,
    count: int,
    max_total_bytes: u64,
)
    requires
        0 <= i <= count <= objects.len(),
        target_objects_failure(objects, i, max_total_bytes) is Some,
    ensures
        target_objects_failure(objects, count, max_total_bytes) == target_objects_failure(
            objects,
            i,
            max_total_bytes,
        ),
    decreases count,
{
    if i < count {
        lemma_target_objects_fail_early(objects, i, count - 1, max_total_bytes);
    }
}

fn take_target_object(
    name: &str,
    hashed: Result<(u64, String), RuntimeError>,
    before: u64,
    max_total_bytes: u64,
) -> (result: Result<u64, RuntimeError>)
    ensures
        forall|object: TargetObject|
            object.name@ == name@ && object.hashed == hashed ==> error::failure(result)
                == #[trigger] target_object_failure(object, before as nat, max_total_bytes),
        result matches Ok(bytes) ==> hashed is Ok && bytes == before + hashed->Ok_0.0,
{
    validate_digest(name, "migrated object")?;
    let (bytes, digest) = hashed?;
    if !same_text(digest.as_str(), name) {
        return Err(protocol("migrated object digest does not match its name"));
    }
    match before.checked_add(bytes) {
        None => Err(protocol("migrated object byte count overflow")),
        Some(total) => {
            if total > max_total_bytes {
                return Err(protocol("session object data exceeds its byte limit"));
            }
            Ok(total)
        },
    }
}

/// The objects of a conversation that a session became, all together.
pub fn target_object_manifest(
    objects: Vec<TargetObject>,
    max_objects: usize,
    max_total_bytes: u64,
) -> (result: Result<LegacyObjectManifest, RuntimeError>)
    ensures
        error::failure(result) == (if objects@.len() > max_objects {
            error::protocol_failure("migrated object count exceeds its limit"@)
        } else {
            target_objects_failure(objects@, objects@.len() as int, max_total_bytes)
        }),
        result matches Ok(manifest) ==> {
            &&& manifest.count == objects@.len()
            &&& manifest.bytes == target_bytes(objects@)
            &&& manifest.inventory_sha256@ == digest::digest_text(
                plan::inventory_content(target_records(objects@)),
            )
        },
{
    let ghost all = objects@;
    let count: usize = objects.len();
    if count > max_objects {
        return Err(protocol("migrated object count exceeds its limit"));
    }
    let mut hasher = hasher_new();
    let mut bytes: u64 = 0;
    let mut pending = reversed(objects);
    let mut seen: usize = 0;
    proof {
        assert(all.take(0) =~= Seq::<TargetObject>::empty());
        assert(target_records(all.take(0)) =~= Seq::<Seq<char>>::empty());
    }
    while pending.len() > 0
        invariant
            all == objects@,
            count <= max_objects,
            seen + pending.len() == count,
            count == all.len(),
            target_objects_failure(all, seen as int, max_total_bytes) is None,
            bytes == target_bytes(all.take(seen as int)),
            digest::hasher_input(hasher) == plan::inventory_content(target_records(all.take(seen as int))),
            forall|k: int|
                0 <= k < pending@.len() ==> #[trigger] pending@[k] == all[all.len() - 1 - k],
        decreases pending@.len(),
    {
        match pending.pop() {
            None => {},
            Some(object) => {
                assert(object == all[seen as int]);
                proof {
                    assert(all.take(seen + 1).drop_last() =~= all.take(seen as int));
                    assert(all.take(seen + 1).last() == object);
                    let records = target_records(all.take(seen + 1));
                    assert(records.drop_last() =~= target_records(all.take(seen as int)));
                    assert(records.last() == object.canonical@);
                    if target_object_failure(object, bytes as nat, max_total_bytes) is Some {
                        lemma_target_objects_fail_early(
                            all,
                            seen + 1,
                            all.len() as int,
                            max_total_bytes,
                        );
                    }
                }
                let ghost whole = object;
                let total = take_target_object(
                    object.name.as_str(),
                    object.hashed,
                    bytes,
                    max_total_bytes,
                )?;
                assert(target_object_failure(whole, bytes as nat, max_total_bytes) is None);
                hash_inventory_record(&mut hasher, object.canonical.as_str());
                bytes = total;
                seen = seen + 1;
            },
        }
    }
    assert(all.take(seen as int) =~= all);
    Ok(LegacyObjectManifest { count, bytes, inventory_sha256: finish_sha256(hasher) })
}

/// A file of a session that may go.
pub struct Retirement {
    /// Whether it lies among the sessions, and else among the logs.
    pub in_sessions: bool,
    pub file: LegacySourceFile,
}

/// A file of a session that may go, by its contents.
pub struct RetirementModel {
    pub in_sessions: bool,
    pub file: SourceFileModel,
}

impl View for Retirement {
    type V = RetirementModel;

    open spec fn view(&self) -> RetirementModel {
        RetirementModel { in_sessions: self.in_sessions, file: self.file@ }
    }
}

/// Files by their contents.
pub open spec fn retirements_view(retirements: Seq<Retirement>) -> Seq<RetirementModel> {
    retirements.map_values(|retirement: Retirement| retirement@)
}

/// Files that all lie in one place.
pub open spec fn retired(files: Seq<SourceFileModel>, in_sessions: bool) -> Seq<RetirementModel> {
    files.map_values(|file: SourceFileModel| RetirementModel { in_sessions, file })
}

/// The files of a session that may go, in the order in which they do: events, contexts,
/// the metadata and the lock.
pub open spec fn retirement_order(manifest: LegacySourceManifest) -> Seq<RetirementModel> {
    retired(manifest::files_view(manifest.event_segments@), true) + retired(
        manifest::files_view(manifest.context_segments@),
        false,
    ) + seq![RetirementModel { in_sessions: false, file: manifest.metadata@ }] + (
    match manifest.lock {
        Some(lock) => seq![RetirementModel { in_sessions: true, file: lock@ }],
        None => Seq::empty(),
    })
}

fn retire_files(retirements: &mut Vec<Retirement>, files: &Vec<LegacySourceFile>, in_sessions: bool)
    ensures
        retirements_view(final(retirements)@) == retirements_view(old(retirements)@) + retired(
            manifest::files_view(files@),
            in_sessions,
        ),
{
    let ghost before = retirements_view(retirements@);
    let ghost all = manifest::files_view(files@);
    let mut i: usize = 0;
    assert(retirements_view(retirements@) =~= before + retired(all.take(0), in_sessions));
    while i < files.len()
        invariant
            i <= files.len(),
            all == manifest::files_view(files@),
            retirements_view(retirements@) == before + retired(all.take(i as int), in_sessions),
        decreases files.len() - i,
    {
        let ghost prior = retirements_view(retirements@);
        let retirement = Retirement { in_sessions, file: files[i].clone() };
        let ghost model = retirement@;
        retirements.push(retirement);
        proof {
            assert(retirements_view(retirements@) =~= prior.push(model));
            assert(all.take(i + 1) =~= all.take(i as int).push(files@[i as int]@));
            assert(retired(all.take(i + 1), in_sessions) =~= retired(
                all.take(i as int),
                in_sessions,
            ).push(model));
            assert(retirements_view(retirements@) =~= before + retired(
                all.take(i + 1),
                in_sessions,
            ));
        }
        i = i + 1;
    }
    assert(all.take(i as int) =~= all);
}

/// The files of a session that may go, in the order in which they do.
pub fn retire_legacy_sources(manifest: &LegacySourceManifest) -> (retirements: Vec<Retirement>)
    ensures
        retirements_view(retirements@) == retirement_order(*manifest),
{
    let mut retirements: Vec<Retirement> = Vec::new();
    assert(retirements_view(retirements@) =~= Seq::<RetirementModel>::empty());
    retire_files(&mut retirements, &manifest.event_segments, true);
    retire_files(&mut retirements, &manifest.context_segments, false);
    let ghost segments = retirements_view(retirements@);
    retirements.push(Retirement { in_sessions: false, file: manifest.metadata.clone() });
    assert(retirements_view(retirements@) =~= segments + seq![
        RetirementModel { in_sessions: false, file: manifest.metadata@ },
    ]);
    if let Some(lock) = &manifest.lock {
        let ghost prior = retirements_view(retirements@);
        retirements.push(Retirement { in_sessions: true, file: lock.clone() });
        assert(retirements_view(retirements@) =~= prior + seq![
            RetirementModel { in_sessions: true, file: lock@ },
        ]);
    }
    assert(retirements_view(retirements@) =~= retirement_order(*manifest));
    retirements
}

/// Whether a file of a session goes: it is there, and is what the manifest says.
pub fn compare_remove_source(
    path: &str,
    actual: Result<LegacySourceFile, RuntimeError>,
    expected: &LegacySourceFile,
) -> (result: Result<bool, RuntimeError>)
    ensures
        match actual {
            Err(error) => if plan::says_missing(error) {
                result == Ok::<bool, RuntimeError>(false)
            } else {
                error::failure(result) == Some(error@)
            },
            Ok(actual) => if actual@ == expected@ {
                result == Ok::<bool, RuntimeError>(true)
            } else {
                error::failure(result) == error::protocol_failure(
                    path@ + " changed before legacy source retirement"@,
                )
            },
        },
{
    match crate::migration::plan::optional_source_file(actual) {
        Err(error) => Err(error),
        Ok(None) => Ok(false),
        Ok(Some(actual)) => {
            if !same_file(&actual, expected) {
                let message = join2(path, " changed before legacy source retirement");
                return Err(protocol(message.as_str()));
            }
            Ok(true)
        },
    }
}

/// Accepts that nothing of a session is left.
pub fn check_retirement(remnant: Result<bool, RuntimeError>) -> (result: Result<(), RuntimeError>)
    ensures
        error::failure(result) == (match remnant {
            Err(error) => Some(error@),
            Ok(remnant) => if remnant {
                error::protocol_failure(
                    "legacy source retirement left an unrecorded or conflicting remnant"@,
                )
            } else {
                None
            },
        }),
{
    if remnant? {
        return Err(
            protocol("legacy source retirement left an unrecorded or conflicting remnant"),
        );
    }
    Ok(())
}

/// What is done about a name in a tree that is checked.
#[derive(Clone, Copy, Debug, PartialEq, Eq, Structural)]
pub enum TreeStep {
    /// What it holds is checked.
    Directory,
    /// It is opened.
    File,
}

/// What is wrong with a name in a tree that is checked; `counted` is what the scan has to
/// say of so many bytes more.
pub open spec fn tree_entry_failure(
    name: ListedName,
    kind: Result<StagedKind, RuntimeError>,
    counted: Result<(), RuntimeError>,
) -> Option<ErrorModel> {
    match name {
        ListedName::Failed(error) => Some(error@),
        ListedName::NotText => error::protocol_failure("directory entry name must be UTF-8"@),
        ListedName::Name(_) => match kind {
            Err(error) => Some(error@),
            Ok(kind) => if kind == StagedKind::Link {
                error::protocol_failure("directory tree must not contain symlinks"@)
            } else {
                error::first_failure(
                    error::failure(counted),
                    if kind == StagedKind::Other {
                        error::protocol_failure("directory tree contains a non-file entry"@)
                    } else {
                        None
                    },
                )
            },
        },
    }
}

/// Accepts a name in a tree that is checked.
pub fn validate_tree_entry(
    name: ListedName,
    kind: Result<StagedKind, RuntimeError>,
    counted: Result<(), RuntimeError>,
) -> (result: Result<TreeStep, RuntimeError>)
    ensures
        error::failure(result) == tree_entry_failure(name, kind, counted),
        result matches Ok(step) ==> step == (if kind->Ok_0 == StagedKind::Directory {
            TreeStep::Directory
        } else {
            TreeStep::File
        }),
{
    match name {
        ListedName::Failed(error) => Err(error),
        ListedName::NotText => Err(protocol("directory entry name must be UTF-8")),
        ListedName::Name(_) => {
            let kind = kind?;
            if kind == StagedKind::Link {
                return Err(protocol("directory tree must not contain symlinks"));
            }
            counted?;
            match kind {
                StagedKind::Directory => Ok(TreeStep::Directory),
                StagedKind::File => Ok(TreeStep::File),
                _ => Err(protocol("directory tree contains a non-file entry")),
            }
        },
    }
}

/// Where a text stands in another for the first time.
pub open spec fn first_occurrence(text: Seq<char>, part: Seq<char>, from: int) -> Option<int>
    decreases text.len() + 1 - from,
{
    if from < 0 || from + part.len() > text.len() {
        None
    } else if text.subrange(from, from + part.len()) == part {
        Some(from)
    } else {
        first_occurrence(text, part, from + 1)
    }
}

fn find_part(text: &Vec<char>, part: &Vec<char>) -> (found: Option<usize>)
    ensures
        match found {
            Some(position) => first_occurrence(text@, part@, 0) == Some(position as int)
                && position <= text@.len(),
            None => first_occurrence(text@, part@, 0) is None,
        },
{
    if part.len() > text.len() {
        return None;
    }
    let last: usize = text.len() - part.len();
    let mut from: usize = 0;
    while from <= last
        invariant
            from <= last + 1,
            last + part.len() == text.len(),
            first_occurrence(text@, part@, 0) == first_occurrence(text@, part@, from as int),
        decreases last + 1 - from,
    {
        let mut i: usize = 0;
        while i < part.len() && text[from + i] == part[i]
            invariant
                i <= part.len(),
                from <= last,
                last + part.len() == text.len(),
                forall|k: int| 0 <= k < i ==> text@[from + k] == #[trigger] part@[k],
            decreases part.len() - i,
        {
            i = i + 1;
        }
        let ghost piece = text@.subrange(from as int, from + part@.len());
        if i == part.len() {
            assert(piece =~= part@);
            return Some(from);
        }
        assert(piece[i as int] == text@[from + i]);
        assert(piece != part@);
        if from == last {
            assert(first_occurrence(text@, part@, from + 1) is None);
            return None;
        }
        from = from + 1;
    }
    None
}

/// What stands before the first occurrence of a text in another, where there is one.
pub open spec fn before_part(text: Seq<char>, part: Seq<char>) -> Option<Seq<char>> {
    match first_occurrence(text, part, 0) {
        Some(position) => Some(text.take(position)),
        None => None,
    }
}

fn split_before(text: &str, part: &str) -> (before: Option<String>)
    ensures
        text::optional_view(before) == before_part(text@, part@),
{
    let chars = chars_of(text);
    let wanted = chars_of(part);
    match find_part(&chars, &wanted) {
        Some(position) => {
            let head = head_of(&chars, position);
            Some(string_of(&head))
        },
        None => None,
    }
}

/// The session that a name among the sessions belongs to: by its lock, by an object, or
/// by the stem of a segment up to its first dot.
pub open spec fn session_source(
    lock: Option<Seq<char>>,
    object: Option<Seq<char>>,
    stem: Option<Seq<char>>,
) -> Option<Seq<char>> {
    if lock is Some {
        lock
    } else if object is Some {
        object
    } else {
        match stem {
            None => None,
            Some(stem) => match before_part(stem, "."@) {
                Some(id) => Some(id),
                None => Some(stem),
            },
        }
    }
}

/// The session that a name among the sessions belongs to, given the sessions that it
/// names as a lock and as an object, and its stem as a segment.
pub fn legacy_session_source_id(
    lock: Option<String>,
    object: Option<String>,
    stem: Option<String>,
) -> (session_id: Option<String>)
    ensures
        text::optional_view(session_id) == session_source(
            text::optional_view(lock),
            text::optional_view(object),
            text::optional_view(stem),
        ),
{
    if lock.is_some() {
        return lock;
    }
    if object.is_some() {
        return object;
    }
    match stem {
        None => None,
        Some(stem) => match split_before(stem.as_str(), ".") {
            Some(id) => Some(id),
            None => Some(stem),
        },
    }
}

/// The session that a name among the logs belongs to: by its metadata, by the stem of
/// its contexts, or by what stands before the number of a context segment.
pub open spec fn log_source(
    metadata: Option<Seq<char>>,
    contexts: Option<Seq<char>>,
    stem: Option<Seq<char>>,
) -> Option<Seq<char>> {
    if metadata is Some {
        metadata
    } else {
        match stem {
            None => None,
            Some(stem) => if contexts is Some {
                contexts
            } else {
                before_part(stem, ".contexts."@)
            },
        }
    }
}

/// The session that a name among the logs belongs to, given the session that it names as
/// metadata, its stem as a segment, and the session that the stem names.
pub fn legacy_log_source_id(
    metadata: Option<String>,
    contexts: Option<String>,
    stem: Option<String>,
) -> (session_id: Option<String>)
    ensures
        text::optional_view(session_id) == log_source(
            text::optional_view(metadata),
            text::optional_view(contexts),
            text::optional_view(stem),
        ),
{
    if metadata.is_some() {
        return metadata;
    }
    match stem {
        None => None,
        Some(stem) => {
            if contexts.is_some() {
                return contexts;
            }
            split_before(stem.as_str(), ".contexts.")
        },
    }
}

/// What is wrong with reading a directory for a session, from one of its names on: what
/// is found first decides.
pub open spec fn presence_failure(
    names: Seq<Result<Option<String>, RuntimeError>>,
    from: int,
    session_id: Seq<char>,
) -> Option<ErrorModel>
    decreases names.len() - from,
{
    if from < 0 || from >= names.len() {
        None
    } else {
        match names[from] {
            Err(error) => Some(error@),
            Ok(named) => if text::optional_view(named) == Some(session_id) {
                None
            } else {
                presence_failure(names, from + 1, session_id)
            },
        }
    }
}

/// Whether a name in a directory belongs to a session.
pub open spec fn is_present(
    names: Seq<Result<Option<String>, RuntimeError>>,
    from: int,
    session_id: Seq<char>,
) -> bool
    decreases names.len() - from,
{
    if from < 0 || from >= names.len() {
        false
    } else {
        match names[from] {
            Err(_) => false,
            Ok(named) => text::optional_view(named) == Some(session_id) || is_present(
                names,
                from + 1,
                session_id,
            ),
        }
    }
}

/// Whether a name in a directory belongs to a session, given the session that each
/// belongs to.
pub fn legacy_dir_contains(names: Vec<Result<Option<String>, RuntimeError>>, session_id: &str) -> (result:
    Result<bool, RuntimeError>)
    ensures
        error::failure(result) == presence_failure(names@, 0, session_id@),
        result matches Ok(present) ==> present == is_present(names@, 0, session_id@),
{
    let ghost all = names@;
    let total: usize = names.len();
    let mut pending = reversed(names);
    let mut seen: usize = 0;
    while pending.len() > 0
        invariant
            all == names@,
            seen + pending.len() == total,
            total == all.len(),
            presence_failure(all, 0, session_id@) == presence_failure(
                all,
                seen as int,
                session_id@,
            ),
            is_present(all, 0, session_id@) == is_present(all, seen as int, session_id@),
            forall|k: int|
                0 <= k < pending@.len() ==> #[trigger] pending@[k] == all[all.len() - 1 - k],
        decreases pending@.len(),
    {
        match pending.pop() {
            None => {},
            Some(entry) => {
                assert(entry == all[seen as int]);
                match entry? {
                    Some(named) => {
                        if same_text(named.as_str(), session_id) {
                            return Ok(true);
                        }
                    },
                    None => {},
                }
                seen = seen + 1;
            },
        }
    }
    Ok(false)
}

/// Whether there is a copy of an expected segment, with as many bytes and the same digest.
pub open spec fn is_copied(
    hashed: Seq<Result<(u64, String), RuntimeError>>,
    expected: Seq<SourceFileModel>,
    k: int,
) -> bool {
    &&& k < hashed.len()
    &&& hashed[k] is Ok
    &&& hashed[k]->Ok_0.0 == expected[k].bytes
    &&& hashed[k]->Ok_0.1@ == expected[k].sha256
}

proof fn lemma_segments(
    hashed: Seq<Result<(u64, String), RuntimeError>>,
    expected: Seq<SourceFileModel>,
    from: int,
)
    requires
        0 <= from <= expected.len(),
    ensures
        segments_failure(hashed, expected, from) is None <==> forall|k: int|
            from <= k < expected.len() ==> #[trigger] is_copied(hashed, expected, k),
    decreases expected.len() - from,
{
    if from < expected.len() {
        if from < hashed.len() {
            lemma_segments(hashed, expected, from + 1);
            assert(is_copied(hashed, expected, from) <==> verify_failure(
                hashed[from],
                expected[from],
            ) is None);
        } else {
            assert(!is_copied(hashed, expected, from));
        }
    }
}

/// Copied segments are accepted exactly where there is one for each that is expected, in
/// order, with as many bytes and the same digest.
pub proof fn law_every_segment_is_compared(
    hashed: Seq<Result<(u64, String), RuntimeError>>,
    expected: Seq<SourceFileModel>,
)
    ensures
        segments_failure(hashed, expected, 0) is None <==> forall|k: int|
            0 <= k < expected.len() ==> #[trigger] is_copied(hashed, expected, k),
{
    lemma_segments(hashed, expected, 0);
}

/// A target that is accepted holds one entry, the root that the migrated run is recorded by,
/// with the sequence and the time of the last event; its log holds what was observed of every
/// tool, and its status the one run and as many uncertain attempts as were observed.
pub proof fn law_accepted_target_tells_of_the_session(
    facts: TargetFacts,
    expected: LegacySourceManifest,
    scan: ScanModel,
)
    requires
        target_failure(facts, expected, scan) is None,
    ensures
        facts.tree is Ok,
        facts.place is Ok,
        facts.lock is Ok,
        scan.last_event is Some,
        scan.last_event->0.ends_session,
        facts.history is Ok,
        facts.history->Ok_0@.len() == 1,
        ({
            let root = facts.history->Ok_0@[0];
            &&& root.parent_entry_id is None
            &&& root.entry_id.text@ == manifest::root_entry_id(expected.canonical@)
            &&& root.run_session_id.text@ == expected.session_id@
            &&& root.event_sequence == scan.last_event->0.sequence
            &&& root.timestamp.text@ == scan.last_event->0.timestamp
            &&& root.entry_type == ConversationEntryType::LegacyRun
        }),
        facts.log is Ok && facts.log->Ok_0.observations is Some,
        ({
            let told = observations::observations_view(facts.log->Ok_0.observations->0@);
            &&& told.len() == scan.tools.drafts.len()
            &&& forall|k: int|
                0 <= k < told.len() ==> (#[trigger] told[k]).draft == scan.tools.drafts[k]
        }),
        facts.status is Ok,
        ({
            let status = facts.status->Ok_0@;
            &&& status.conversation_id == expected.session_id@
            &&& status.latest_entry_id == Some(manifest::root_entry_id(expected.canonical@))
            &&& status.run_count == 1
            &&& status.uncertain_attempts == observations::uncertain_count(
                observations::records_of(scan.tools.drafts),
            ) as u64
        }),
        facts.objects is Ok,
        facts.objects->Ok_0.count == expected.objects.count,
        facts.objects->Ok_0.bytes == expected.objects.bytes,
        facts.objects->Ok_0.inventory_sha256@ == expected.objects.inventory_sha256@,
{
}

proof fn lemma_target_objects(objects: Seq<TargetObject>, count: int, maximum: u64)
    requires
        0 <= count <= objects.len(),
    ensures
        target_objects_failure(objects, count, maximum) is None ==> {
            &&& forall|k: int|
                0 <= k < count ==> (#[trigger] objects[k]).hashed is Ok
                    && objects[k].hashed->Ok_0.1@ == objects[k].name@
            &&& target_bytes(objects.take(count)) <= maximum
        },
    decreases count,
{
    if count == 0 {
        assert(objects.take(0) =~= Seq::<TargetObject>::empty());
    } else {
        lemma_target_objects(objects, count - 1, maximum);
        assert(objects.take(count).drop_last() =~= objects.take(count - 1));
        assert(objects.take(count).last() == objects[count - 1]);
    }
}

/// The objects of a target that are accepted have each the digest that they are named by, and
/// together no more bytes than they may.
pub proof fn law_target_objects_are_what_they_are_named(
    objects: Seq<TargetObject>,
    maximum: u64,
)
    requires
        target_objects_failure(objects, objects.len() as int, maximum) is None,
    ensures
        forall|k: int|
            0 <= k < objects.len() ==> (#[trigger] objects[k]).hashed is Ok
                && objects[k].hashed->Ok_0.1@ == objects[k].name@,
        target_bytes(objects) <= maximum,
{
    lemma_target_objects(objects, objects.len() as int, maximum);
    assert(objects.take(objects.len() as int) =~= objects);
}

/// The bytes of the objects of a target are the sum of those of each.
pub proof fn law_target_bytes_are_summed(objects: Seq<TargetObject>, object: TargetObject)
    ensures
        target_bytes(objects.push(object)) == target_bytes(objects) + object.hashed->Ok_0.0,
        target_bytes(Seq::empty()) == 0,
{
    assert(objects.push(object).drop_last() =~= objects);
}

/// Every source file is retired once: the event segments, the context segments, the metadata
/// and the lock, in this order, and nothing else. The event segments and the lock lie among
/// the sessions, the others among the logs.
pub proof fn law_every_source_is_retired(manifest: LegacySourceManifest, k: int)
    ensures
        ({
            let order = retirement_order(manifest);
            let (events, contexts) = (
                manifest.event_segments@.len(),
                manifest.context_segments@.len(),
            );
            &&& order.len() == events + contexts + 1 + (if manifest.lock is Some {
                1nat
            } else {
                0
            })
            &&& 0 <= k < events ==> order[k].in_sessions && order[k].file
                == manifest.event_segments@[k]@
            &&& 0 <= k < contexts ==> !order[events + k].in_sessions && order[events + k].file
                == manifest.context_segments@[k]@
            &&& !order[(events + contexts) as int].in_sessions
            &&& order[(events + contexts) as int].file == manifest.metadata@
            &&& manifest.lock is Some ==> order.last().in_sessions && order.last().file
                == manifest.lock->0@
        }),
{
    let events = retired(manifest::files_view(manifest.event_segments@), true);
    let contexts = retired(manifest::files_view(manifest.context_segments@), false);
    assert(events.len() == manifest.event_segments@.len());
    assert(contexts.len() == manifest.context_segments@.len());
}

/// A part is found where it first stands in a text, and what is before it holds it not.
pub proof fn law_part_is_found_where_it_first_stands(
    text: Seq<char>,
    part: Seq<char>,
    from: int,
)
    requires
        0 <= from,
    ensures
        match first_occurrence(text, part, from) {
            Some(position) => {
                &&& from <= position <= text.len() - part.len()
                &&& text.subrange(position, position + part.len()) == part
                &&& forall|k: int|
                    from <= k < position ==> #[trigger] text.subrange(k, k + part.len()) != part
            },
            None => forall|k: int|
                from <= k <= text.len() - part.len() ==> #[trigger] text.subrange(
                    k,
                    k + part.len(),
                ) != part,
        },
    decreases text.len() + 1 - from,
{
    if from + part.len() <= text.len() && text.subrange(from, from + part.len()) != part {
        law_part_is_found_where_it_first_stands(text, part, from + 1);
    }
}

proof fn lemma_presence(
    names: Seq<Result<Option<String>, RuntimeError>>,
    from: int,
    session_id: Seq<char>,
)
    requires
        0 <= from <= names.len(),
        presence_failure(names, from, session_id) is None,
    ensures
        is_present(names, from, session_id) <==> exists|k: int|
            from <= k < names.len() && (#[trigger] names[k]) is Ok && names[k]->Ok_0 is Some
                && names[k]->Ok_0->0@ == session_id && forall|j: int|
                from <= j < k ==> (#[trigger] names[j]) is Ok,
    decreases names.len() - from,
{
    if from < names.len() {
        assert(names[from] is Ok);
        if text::optional_view(names[from]->Ok_0) == Some(session_id) {
            assert(names[from]->Ok_0->0@ == session_id);
        } else {
            lemma_presence(names, from + 1, session_id);
            if is_present(names, from + 1, session_id) {
                let k = choose|k: int|
                    from + 1 <= k < names.len() && (#[trigger] names[k]) is Ok && names[k]->Ok_0
                        is Some && names[k]->Ok_0->0@ == session_id && forall|j: int|
                        from + 1 <= j < k ==> (#[trigger] names[j]) is Ok;
                assert(names[k] is Ok);
            }
        }
    }
}

/// Sources of a session are present exactly where one of the names of a directory is of the
/// session.
pub proof fn law_sources_are_found_by_name(
    names: Seq<Result<Option<String>, RuntimeError>>,
    session_id: Seq<char>,
)
    requires
        presence_failure(names, 0, session_id) is None,
    ensures
        is_present(names, 0, session_id) <==> exists|k: int|
            0 <= k < names.len() && (#[trigger] names[k]) is Ok && names[k]->Ok_0 is Some
                && names[k]->Ok_0->0@ == session_id && forall|j: int|
                0 <= j < k ==> (#[trigger] names[j]) is Ok,
{
    lemma_presence(names, 0, session_id);
}

} // verus!
