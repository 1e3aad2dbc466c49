//! What a session of the former layout consists of and shows, before it is moved: its
//! events read through, its files hashed, its definition checked.

use crate::contract::{validate_hash, Checked};
use crate::contract;
use crate::digest::{finish_sha256, hasher_new, hasher_update};
use crate::digest;
use crate::error::{protocol, ErrorModel, IoKind, RuntimeError};
use crate::error;
use crate::migration::manifest::{LegacyObjectManifest, LegacySourceFile, LegacySourceManifest, ManifestModel, SourceFileModel, SOURCE_MANIFEST_SCHEMA};
use crate::migration::manifest;
use crate::migration::observations::{LegacyToolObservation, LegacyToolObservationBuilder, ObservationsModel, ObservedEvent};
use crate::migration::observations;
use crate::text::{join2, same_text};
use crate::wire::u64_le_bytes;
use crate::wire;
use vstd::prelude::*;
use vstd::utf8::*;

verus! {

/// An event of a session that is moved.
pub struct LegacyEvent {
    pub observed: ObservedEvent,
    /// Whether it completes a message.
    pub completes_message: bool,
    /// Whether it ends the session.
    pub ends_session: bool,
}

/// The last event of a session.
pub struct LastEvent {
    pub sequence: u64,
    pub timestamp: String,
    pub ends_session: bool,
}

/// The last event of a session, by its contents.
pub struct LastModel {
    pub sequence: u64,
    pub timestamp: Seq<char>,
    pub ends_session: bool,
}

/// An optional last event, by its contents.
pub open spec fn last_view(last: Option<LastEvent>) -> Option<LastModel> {
    match last {
        Some(last) => Some(
            LastModel {
                sequence: last.sequence,
                timestamp: last.timestamp@,
                ends_session: last.ends_session,
            },
        ),
        None => None,
    }
}

/// The events of a session, read through.
pub struct LegacyEventScan {
    pub completed_turns: usize,
    pub last_event: Option<LastEvent>,
    pub tools: LegacyToolObservationBuilder,
}

/// The events of a session, read through, by their contents.
pub struct ScanModel {
    pub completed_turns: usize,
    pub last_event: Option<LastModel>,
    pub tools: ObservationsModel,
}

/// What is wrong with an event behind the others.
pub open spec fn scan_failure(scan: ScanModel, event: LegacyEvent) -> Option<ErrorModel> {
    if event.completes_message && scan.completed_turns == usize::MAX {
        error::protocol_failure("legacy completed turn count exceeds usize"@)
    } else {
        observations::observe_failure(scan.tools, event.observed)
    }
}

/// The events with one more.
pub open spec fn scanned(scan: ScanModel, event: LegacyEvent) -> ScanModel {
    ScanModel {
        completed_turns: if event.completes_message {
            (scan.completed_turns + 1) as usize
        } else {
            scan.completed_turns
        },
        last_event: Some(
            LastModel {
                sequence: event.observed.sequence,
                timestamp: event.observed.timestamp@,
                ends_session: event.ends_session,
            },
        ),
        tools: observations::observed(scan.tools, event.observed),
    }
}

/// What is wrong with a session whose events were read through.
pub open spec fn complete_failure(last: Option<LastModel>) -> Option<ErrorModel> {
    match last {
        None => error::protocol_failure("legacy event stream has no committed event"@),
        Some(last) => if last.ends_session {
            None
        } else {
            error::protocol_failure("only a complete legacy session can be migrated"@)
        },
    }
}

impl LegacyEventScan {
    /// The events, by their contents.
    pub open spec fn model(self) -> ScanModel {
        ScanModel {
            completed_turns: self.completed_turns,
            last_event: last_view(self.last_event),
            tools: self.tools.model(),
        }
    }

    /// No event.
    pub fn new() -> (scan: LegacyEventScan)
        ensures
            scan.tools.wf(),
            scan.model().completed_turns == 0,
            scan.model().last_event is None,
            scan.model().tools.drafts.len() == 0,
            scan.model().tools.phases == Map::<Seq<char>, String>::empty(),
    {
        LegacyEventScan {
            completed_turns: 0,
            last_event: None,
            tools: LegacyToolObservationBuilder::new(),
        }
    }

    /// Takes one more event.
    pub fn observe(&mut self, event: &LegacyEvent) -> (result: Result<(), RuntimeError>)
        requires
            old(self).tools.wf(),
        ensures
            final(self).tools.wf(),
            error::failure(result) == scan_failure(old(self).model(), *event),
            result is Ok ==> final(self).model() == scanned(old(self).model(), *event),
    {
        if event.completes_message && self.completed_turns == usize::MAX {
            return Err(protocol("legacy completed turn count exceeds usize"));
        }
        self.tools.observe(&event.observed)?;
        if event.completes_message {
            self.completed_turns = self.completed_turns + 1;
        }
        self.last_event = Some(
            LastEvent {
                sequence: event.observed.sequence,
                timestamp: event.observed.timestamp.clone(),
                ends_session: event.ends_session,
            },
        );
        Ok(())
    }

    /// The last event of a session that is complete.
    pub fn complete(&self) -> (result: Result<(u64, String), RuntimeError>)
        ensures
            error::failure(result) == complete_failure(self.model().last_event),
            result matches Ok((sequence, timestamp)) ==> self.model().last_event == Some(
                LastModel { sequence, timestamp: timestamp@, ends_session: true },
            ),
    {
        match &self.last_event {
            None => Err(protocol("legacy event stream has no committed event")),
            Some(last) => {
                if !last.ends_session {
                    return Err(protocol("only a complete legacy session can be migrated"));
                }
                Ok((last.sequence, last.timestamp.clone()))
            },
        }
    }
}

/// What the metadata of a session says of its definition.
pub struct LegacyMetadata {
    /// A block identifier.
    pub flow_definition_id: Option<Checked>,
    pub registry_hash: Option<String>,
    pub flow_definition_hash: Option<String>,
}

/// The definition of a session.
pub struct LegacyDefinition {
    pub flow_definition_id: Checked,
    pub registry_hash: String,
    pub flow_definition_hash: String,
}

/// What is wrong with a hash that must be there.
pub open spec fn required_hash_failure(hash: Option<String>, missing: Seq<char>, label: Seq<char>) -> Option<
    ErrorModel,
> {
    match hash {
        None => error::protocol_failure(missing),
        Some(hash) => contract::hash_failure(hash@, label),
    }
}

/// What is wrong with the definition of a session.
pub open spec fn metadata_failure(metadata: LegacyMetadata) -> Option<ErrorModel> {
    match metadata.flow_definition_id {
        None => error::protocol_failure("legacy definition metadata lacks flow_definition_id"@),
        Some(id) => if !id.valid {
            error::protocol_failure("legacy flow_definition_id is invalid"@)
        } else {
            error::first_failure(
                required_hash_failure(
                    metadata.registry_hash,
                    "legacy definition metadata lacks registry_hash"@,
                    "legacy registry hash"@,
                ),
                required_hash_failure(
                    metadata.flow_definition_hash,
                    "legacy definition metadata lacks flow_definition_hash"@,
                    "legacy Flow definition hash"@,
                ),
            )
        },
    }
}

fn require_hash(hash: Option<String>, missing: &str, label: &str) -> (result: Result<
    String,
    RuntimeError,
>)
    ensures
        error::failure(result) == required_hash_failure(hash, missing@, label@),
        result matches Ok(found) ==> hash == Some(found),
{
    match hash {
        None => Err(protocol(missing)),
        Some(hash) => {
            validate_hash(hash.as_str(), label)?;
            Ok(hash)
        },
    }
}

/// The definition of a session, where its metadata gives one.
pub fn legacy_definition(metadata: LegacyMetadata) -> (result: Result<
    LegacyDefinition,
    RuntimeError,
>)
    ensures
        error::failure(result) == metadata_failure(metadata),
        result matches Ok(definition) ==> {
            &&& metadata.flow_definition_id == Some(definition.flow_definition_id)
            &&& metadata.registry_hash == Some(definition.registry_hash)
            &&& metadata.flow_definition_hash == Some(definition.flow_definition_hash)
        },
{
    let flow_definition_id = match metadata.flow_definition_id {
        None => {
            return Err(protocol("legacy definition metadata lacks flow_definition_id"));
        },
        Some(id) => id,
    };
    if !flow_definition_id.valid {
        return Err(protocol("legacy flow_definition_id is invalid"));
    }
    let registry_hash = require_hash(
        metadata.registry_hash,
        "legacy definition metadata lacks registry_hash",
        "legacy registry hash",
    )?;
    let flow_definition_hash = require_hash(
        metadata.flow_definition_hash,
        "legacy definition metadata lacks flow_definition_hash",
        "legacy Flow definition hash",
    )?;
    Ok(LegacyDefinition { flow_definition_id, registry_hash, flow_definition_hash })
}

/// A file that is hashed as it is read.
pub struct FileHash {
    pub hasher: sha2::Sha256,
    pub total: u64,
    pub maximum: u64,
}

/// What is wrong with reading so many bytes more of a file.
pub open spec fn chunk_failure(total: u64, chunk: nat, maximum: u64, path: Seq<char>) -> Option<
    ErrorModel,
> {
    if total + chunk > u64::MAX {
        error::protocol_failure("migration byte count overflow"@)
    } else if total + chunk > maximum {
        error::protocol_failure(path + " exceeds its migration byte limit"@)
    } else {
        None
    }
}

impl FileHash {
    /// What was read of the file.
    pub open spec fn content(self) -> Seq<u8> {
        digest::hasher_input(self.hasher)
    }

    /// The bytes that were read are counted.
    pub open spec fn wf(self) -> bool {
        self.total == self.content().len()
    }

    /// A file of which nothing was read.
    pub fn hash_reader(maximum: u64) -> (hash: FileHash)
        ensures
            hash.wf(),
            hash.content() == Seq::<u8>::empty(),
            hash.maximum == maximum,
    {
        FileHash { hasher: hasher_new(), total: 0, maximum }
    }

    /// Takes the next bytes of the file.
    pub fn read(&mut self, chunk: &[u8], path: &str) -> (result: Result<(), RuntimeError>)
        requires
            old(self).wf(),
        ensures
            final(self).wf(),
            final(self).maximum == old(self).maximum,
            error::failure(result) == chunk_failure(
                old(self).total,
                chunk@.len(),
                old(self).maximum,
                path@,
            ),
            final(self).content() == (if result is Ok {
                old(self).content() + chunk@
            } else {
                old(self).content()
            }),
    {
        match self.total.checked_add(chunk.len() as u64) {
            None => Err(protocol("migration byte count overflow")),
            Some(total) => {
                if total > self.maximum {
                    let message = join2(path, " exceeds its migration byte limit");
                    return Err(protocol(message.as_str()));
                }
                self.total = total;
                hasher_update(&mut self.hasher, chunk);
                Ok(())
            },
        }
    }

    /// How many bytes the file has, and their digest.
    pub fn finish(self) -> (hashed: (u64, String))
        requires
            self.wf(),
        ensures
            hashed.0 == self.content().len(),
            hashed.1@ == digest::digest_text(self.content()),
    {
        (self.total, finish_sha256(self.hasher))
    }
}

/// What is wrong with a file of the former layout.
pub open spec fn source_failure(
    path: Seq<char>,
    length: Result<u64, RuntimeError>,
    maximum: u64,
    hashed: Result<(u64, String), RuntimeError>,
    leaf: Option<String>,
) -> Option<ErrorModel> {
    match length {
        Err(error) => Some(error@),
        Ok(length) => if length > maximum {
            error::protocol_failure(path + " exceeds its migration byte limit"@)
        } else {
            match hashed {
                Err(error) => Some(error@),
                Ok((bytes, _)) => if bytes != length {
                    error::protocol_failure("legacy source changed while it was inventoried"@)
                } else if leaf is None {
                    error::protocol_failure("legacy source filename is not UTF-8"@)
                } else {
                    None
                },
            }
        },
    }
}

/// A file of the former layout: how long it is, where it could be opened, what hashing
/// it gave, and its name, nothing where that is not valid UTF-8.
pub fn source_file(
    path: &str,
    domain: &str,
    length: Result<u64, RuntimeError>,
    maximum: u64,
    hashed: Result<(u64, String), RuntimeError>,
    leaf: Option<String>,
) -> (result: Result<LegacySourceFile, RuntimeError>)
    ensures
        error::failure(result) == source_failure(path@, length, maximum, hashed, leaf),
        result matches Ok(file) ==> file@ == (SourceFileModel {
            domain: domain@,
            leaf: leaf->0@,
            bytes: hashed->Ok_0.0,
            sha256: hashed->Ok_0.1@,
        }),
{
    let length: u64 = length?;
    if length > maximum {
        let message = join2(path, " exceeds its migration byte limit");
        return Err(protocol(message.as_str()));
    }
    let (bytes, sha256) = hashed?;
    if bytes != length {
        return Err(protocol("legacy source changed while it was inventoried"));
    }
    match leaf {
        None => Err(protocol("legacy source filename is not UTF-8")),
        Some(leaf) => Ok(LegacySourceFile { domain: domain.to_owned(), leaf, bytes, sha256 }),
    }
}

/// Whether an error says that a file is missing.
pub open spec fn says_missing(error: RuntimeError) -> bool {
    error matches RuntimeError::Io { kind, .. } && kind == IoKind::NotFound
}

/// A file of the former layout that may be missing.
pub fn optional_source_file(source: Result<LegacySourceFile, RuntimeError>) -> (result: Result<
    Option<LegacySourceFile>,
    RuntimeError,
>)
    ensures
        match source {
            Ok(file) => result == Ok::<Option<LegacySourceFile>, RuntimeError>(Some(file)),
            Err(error) => if says_missing(error) {
                result == Ok::<Option<LegacySourceFile>, RuntimeError>(None)
            } else {
                error::failure(result) == Some(error@)
            },
        },
{
    match source {
        Ok(file) => Ok(Some(file)),
        Err(error) => {
            let missing = match &error {
                RuntimeError::Io { kind, .. } => *kind == IoKind::NotFound,
                _ => false,
            };
            if missing {
                Ok(None)
            } else {
                Err(error)
            }
        },
    }
}

/// An object of the former layout: the digest in its name, the file, and the canonical
/// form of its record.
pub struct LegacyObject {
    pub digest: String,
    pub path: String,
    pub source: Result<LegacySourceFile, RuntimeError>,
    pub canonical: String,
}

/// What the inventory of objects is hashed over: the record of each, with its length
/// before it.
pub open spec fn inventory_content(records: Seq<Seq<char>>) -> Seq<u8>
    decreases records.len(),
{
    if records.len() == 0 {
        Seq::empty()
    } else {
        inventory_content(records.drop_last()) + wire::le_bytes(encode_utf8(records.last()).len())
            + encode_utf8(records.last())
    }
}

/// Takes the record of an object into a hash: its length, and its canonical form.
pub fn hash_inventory_record(hasher: &mut sha2::Sha256, canonical: &str)
    ensures
        digest::hasher_input(*final(hasher)) == digest::hasher_input(*old(hasher)) + wire::le_bytes(
            encode_utf8(canonical@).len(),
        ) + encode_utf8(canonical@),
{
    let record = canonical.as_bytes();
    let length = u64_le_bytes(record.len() as u64);
    hasher_update(hasher, length.as_slice());
    hasher_update(hasher, record);
}

/// The records of objects.
pub open spec fn object_records(objects: Seq<LegacyObject>) -> Seq<Seq<char>> {
    objects.map_values(|object: LegacyObject| object.canonical@)
}

/// How many bytes objects have.
pub open spec fn object_bytes(objects: Seq<LegacyObject>) -> nat
    decreases objects.len(),
{
    if objects.len() == 0 {
        0
    } else {
        object_bytes(objects.drop_last()) + objects.last().source->Ok_0.bytes as nat
    }
}

/// What is wrong with an object behind others.
pub open spec fn object_failure(object: LegacyObject, before: nat) -> Option<ErrorModel> {
    match object.source {
        Err(error) => Some(error@),
        Ok(source) => if source.sha256@ != object.digest@ {
            error::protocol_failure(object.path@ + " legacy object hash does not match its name"@)
        } else if before + source.bytes > u64::MAX {
            error::protocol_failure("legacy object byte count overflow"@)
        } else {
            None
        },
    }
}

/// What is wrong with the first objects.
pub open spec fn objects_failure(objects: Seq<LegacyObject>, count: int) -> Option<ErrorModel>
    decreases count,
{
    if count <= 0 || count > objects.len() {
        None
    } else {
        error::first_failure(
            objects_failure(objects, count - 1),
            object_failure(objects[count - 1], object_bytes(objects.take(count - 1))),
        )
    }
}

proof fn lemma_objects_fail_early(objects: Seq<LegacyObject>, i: int, count: int)
    requires
        0 <= i <= count <= objects.len(),
        objects_failure(objects, i) is Some,
    ensures
        objects_failure(objects, count) == objects_failure(objects, i),
    decreases count,
{
    if i < count {
        lemma_objects_fail_early(objects, i, count - 1);
    }
}

fn check_object(object: &LegacyObject, before: u64) -> (result: Result<u64, ()>)
    requires
        object.source is Ok,
    ensures
        result is Ok <==> object_failure(*object, before as nat) is None,
        result matches Ok(bytes) ==> bytes == before + object.source->Ok_0.bytes,
{
    match &object.source {
        Ok(source) => {
            if !same_text(source.sha256.as_str(), object.digest.as_str()) {
                return Err(());
            }
            match before.checked_add(source.bytes) {
                Some(bytes) => Ok(bytes),
                None => Err(()),
            }
        },
        Err(_) => Err(()),
    }
}

fn object_complaint(object: LegacyObject, before: u64) -> (error: RuntimeError)
    requires
        object_failure(object, before as nat) is Some,
    ensures
        Some(error@) == object_failure(object, before as nat),
{
    match object.source {
        Err(error) => error,
        Ok(source) => {
            if !same_text(source.sha256.as_str(), object.digest.as_str()) {
                let message = join2(
                    object.path.as_str(),
                    " legacy object hash does not match its name",
                );
                return protocol(message.as_str());
            }
            protocol("legacy object byte count overflow")
        },
    }
}

/// The objects of the former layout, all together; they must have as many bytes as the
/// inventory says.
pub fn legacy_object_manifest(objects: Vec<LegacyObject>, inventory_bytes: u64) -> (result: Result<
    LegacyObjectManifest,
    RuntimeError,
>)
    ensures
        error::failure(result) == error::first_failure(
            objects_failure(objects@, objects@.len() as int),
            if object_bytes(objects@) != inventory_bytes {
                error::protocol_failure("legacy object inventory changed while hashing"@)
            } else {
                None
            },
        ),
        result matches Ok(manifest) ==> {
            &&& manifest.count == objects@.len()
            &&& manifest.bytes == object_bytes(objects@)
            &&& manifest.inventory_sha256@ == digest::digest_text(
                inventory_content(object_records(objects@)),
            )
        },
{
    let ghost all = objects@;
    let mut hasher = hasher_new();
    let count: usize = objects.len();
    let mut bytes: u64 = 0;
    let mut pending = crate::listing::reversed(objects);
    let mut seen: usize = 0;
    proof {
        assert(all.take(0) =~= Seq::<LegacyObject>::empty());
        assert(object_records(all.take(0)) =~= Seq::<Seq<char>>::empty());
    }
    while pending.len() > 0
        invariant
            all == objects@,
            seen + pending.len() == count,
            count == all.len(),
            objects_failure(all, seen as int) is None,
            bytes == object_bytes(all.take(seen as int)),
            digest::hasher_input(hasher) == inventory_content(object_records(all.take(seen as int))),
            forall|k: int|
                0 <= k < pending@.len() ==> #[trigger] pending@[k] == all[all.len() - 1 - k],
        decreases pending@.len(),
    {
        match pending.pop() {
            None => {},
            Some(object) => {
                assert(object == all[seen as int]);
                proof {
                    assert(all.take(seen + 1).drop_last() =~= all.take(seen as int));
                    assert(all.take(seen + 1).last() == object);
                    let records = object_records(all.take(seen + 1));
                    assert(records.drop_last() =~= object_records(all.take(seen as int)));
                    assert(records.last() == object.canonical@);
                    if object_failure(object, bytes as nat) is Some {
                        lemma_objects_fail_early(all, seen + 1, all.len() as int);
                    }
                }
                if object.source.is_err() {
                    return Err(object_complaint(object, bytes));
                }
                match check_object(&object, bytes) {
                    Err(()) => {
                        return Err(object_complaint(object, bytes));
                    },
                    Ok(total) => {
                        hash_inventory_record(&mut hasher, object.canonical.as_str());
                        bytes = total;
                        seen = seen + 1;
                    },
                }
            },
        }
    }
    assert(all.take(seen as int) =~= all);
    if bytes != inventory_bytes {
        return Err(protocol("legacy object inventory changed while hashing"));
    }
    Ok(LegacyObjectManifest { count, bytes, inventory_sha256: finish_sha256(hasher) })
}

/// Everything that is needed to move a session.
pub struct LegacyMigrationPlan {
    pub last_event_sequence: u64,
    pub last_event_timestamp: String,
    pub legacy_tool_observations: Vec<LegacyToolObservation>,
    pub manifest: LegacySourceManifest,
    pub definition: LegacyDefinition,
}

/// The files of a session that is moved.
pub struct LegacySources {
    pub event_segments: Vec<LegacySourceFile>,
    pub context_segments: Vec<LegacySourceFile>,
    pub metadata: LegacySourceFile,
    pub lock: Option<LegacySourceFile>,
    pub objects: LegacyObjectManifest,
}

/// The manifest of a session that is moved; its canonical form is filled in by who
/// writes it.
pub fn legacy_source_manifest(session_id: &str, sources: LegacySources, canonical: String) -> (manifest:
    LegacySourceManifest)
    ensures
        manifest@ == (ManifestModel {
            schema: SOURCE_MANIFEST_SCHEMA@,
            session_id: session_id@,
            event_segments: manifest::files_view(sources.event_segments@),
            context_segments: manifest::files_view(sources.context_segments@),
            metadata: sources.metadata@,
            lock: manifest::optional_file(sources.lock),
            object_count: sources.objects.count,
            object_bytes: sources.objects.bytes,
            object_inventory: sources.objects.inventory_sha256@,
        }),
        manifest.canonical@ == canonical@,
{
    LegacySourceManifest {
        schema: SOURCE_MANIFEST_SCHEMA.to_owned(),
        session_id: session_id.to_owned(),
        event_segments: sources.event_segments,
        context_segments: sources.context_segments,
        metadata: sources.metadata,
        lock: sources.lock,
        objects: sources.objects,
        canonical,
    }
}

/// Everything that is needed to move a session whose events were read through.
pub fn build_legacy_migration_plan(
    scan: &LegacyEventScan,
    definition: LegacyDefinition,
    manifest: LegacySourceManifest,
) -> (result: Result<LegacyMigrationPlan, RuntimeError>)
    ensures
        error::failure(result) == complete_failure(scan.model().last_event),
        result matches Ok(plan) ==> {
            &&& scan.model().last_event == Some(
                LastModel {
                    sequence: plan.last_event_sequence,
                    timestamp: plan.last_event_timestamp@,
                    ends_session: true,
                },
            )
            &&& crate::migration::observations::observations_view(plan.legacy_tool_observations@)
                == crate::migration::observations::records_of(scan.model().tools.drafts)
            &&& plan.manifest == manifest
            &&& plan.definition == definition
        },
{
    let (last_event_sequence, last_event_timestamp) = scan.complete()?;
    let legacy_tool_observations = scan.tools.finish();
    Ok(
        LegacyMigrationPlan {
            last_event_sequence,
            last_event_timestamp,
            legacy_tool_observations,
            manifest,
            definition,
        },
    )
}

proof fn lemma_inventory_of_parts(left: Seq<Seq<char>>, right: Seq<Seq<char>>)
    ensures
        inventory_content(left + right) == inventory_content(left) + inventory_content(right),
    decreases right.len(),
{
    if right.len() == 0 {
        assert(left + right =~= left);
        assert(inventory_content(left) + inventory_content(right) =~= inventory_content(left));
    } else {
        lemma_inventory_of_parts(left, right.drop_last());
        assert((left + right).drop_last() =~= left + right.drop_last());
        assert((left + right).last() == right.last());
        assert(inventory_content(left + right) =~= inventory_content(left) + inventory_content(
            right,
        ));
    }
}

/// What an inventory hashes holds each record once and in order: those before it, its length
/// in bytes, its bytes, and those behind it.
pub proof fn law_inventory_holds_each_record(records: Seq<Seq<char>>, k: int)
    requires
        0 <= k < records.len(),
    ensures
        inventory_content(records) == inventory_content(records.take(k)) + wire::le_bytes(
            encode_utf8(records[k]).len(),
        ) + encode_utf8(records[k]) + inventory_content(records.skip(k + 1)),
        inventory_content(Seq::empty()) == Seq::<u8>::empty(),
{
    let (head, one, tail) = (records.take(k), seq![records[k]], records.skip(k + 1));
    assert(records =~= (head + one) + tail);
    lemma_inventory_of_parts(head + one, tail);
    lemma_inventory_of_parts(head, one);
    assert(one.drop_last() =~= Seq::<Seq<char>>::empty());
    assert(inventory_content(one.drop_last()) =~= Seq::<u8>::empty());
    assert(inventory_content(records) =~= inventory_content(records.take(k)) + wire::le_bytes(
        encode_utf8(records[k]).len(),
    ) + encode_utf8(records[k]) + inventory_content(records.skip(k + 1)));
}

proof fn lemma_bytes_of_parts(left: Seq<LegacyObject>, right: Seq<LegacyObject>)
    ensures
        object_bytes(left + right) == object_bytes(left) + object_bytes(right),
    decreases right.len(),
{
    if right.len() == 0 {
        assert(left + right =~= left);
    } else {
        lemma_bytes_of_parts(left, right.drop_last());
        assert((left + right).drop_last() =~= left + right.drop_last());
    }
}

/// The bytes of the objects are the sum of those of each.
pub proof fn law_object_bytes_are_summed(objects: Seq<LegacyObject>, k: int)
    requires
        0 <= k < objects.len(),
    ensures
        object_bytes(objects) == object_bytes(objects.take(k)) + objects[k].source->Ok_0.bytes
            + object_bytes(objects.skip(k + 1)),
        object_bytes(Seq::empty()) == 0,
{
    let (head, one, tail) = (objects.take(k), seq![objects[k]], objects.skip(k + 1));
    assert(objects =~= (head + one) + tail);
    lemma_bytes_of_parts(head + one, tail);
    lemma_bytes_of_parts(head, one);
    assert(one.drop_last() =~= Seq::<LegacyObject>::empty());
    assert(object_bytes(one.drop_last()) == 0);
}

proof fn lemma_objects_checked(objects: Seq<LegacyObject>, count: int)
    requires
        0 <= count <= objects.len(),
    ensures
        objects_failure(objects, count) is None <==> {
            &&& forall|k: int|
                0 <= k < count ==> (#[trigger] objects[k]).source is Ok
                    && objects[k].source->Ok_0.sha256@ == objects[k].digest@
            &&& object_bytes(objects.take(count)) <= u64::MAX
        },
    decreases count,
{
    if count == 0 {
        assert(objects.take(0) =~= Seq::<LegacyObject>::empty());
    } else {
        lemma_objects_checked(objects, count - 1);
        assert(objects.take(count).drop_last() =~= objects.take(count - 1));
        assert(objects.take(count).last() == objects[count - 1]);
    }
}

/// The objects of a session are accepted exactly where each could be read and has the digest
/// that it is named by, and their bytes can be counted.
pub proof fn law_objects_are_what_they_are_named(objects: Seq<LegacyObject>)
    ensures
        objects_failure(objects, objects.len() as int) is None <==> {
            &&& forall|k: int|
                0 <= k < objects.len() ==> (#[trigger] objects[k]).source is Ok
                    && objects[k].source->Ok_0.sha256@ == objects[k].digest@
            &&& object_bytes(objects) <= u64::MAX
        },
{
    lemma_objects_checked(objects, objects.len() as int);
    assert(objects.take(objects.len() as int) =~= objects);
}

/// A scan counts a turn for each message that is completed and for nothing else, remembers
/// the last event, and tells a session to be complete exactly where that event ends it.
pub proof fn law_scan_counts_completed_turns(scan: ScanModel, event: LegacyEvent)
    requires
        scan_failure(scan, event) is None,
    ensures
        event.completes_message ==> scanned(scan, event).completed_turns == scan.completed_turns
            + 1,
        !event.completes_message ==> scanned(scan, event).completed_turns == scan.completed_turns,
        scanned(scan, event).last_event is Some,
        scanned(scan, event).last_event->0.sequence == event.observed.sequence,
        scanned(scan, event).last_event->0.timestamp == event.observed.timestamp@,
        complete_failure(scanned(scan, event).last_event) is None <==> event.ends_session,
        complete_failure(None) is Some,
{
}

/// The metadata of a session define it exactly where they hold a valid identifier of its flow
/// and both hashes.
pub proof fn law_metadata_are_complete(metadata: LegacyMetadata)
    ensures
        metadata_failure(metadata) is None <==> {
            &&& metadata.flow_definition_id is Some && metadata.flow_definition_id->0.valid
            &&& metadata.registry_hash is Some && contract::hash_failure(
                metadata.registry_hash->0@,
                "legacy registry hash"@,
            ) is None
            &&& metadata.flow_definition_hash is Some && contract::hash_failure(
                metadata.flow_definition_hash->0@,
                "legacy Flow definition hash"@,
            ) is None
        },
{
}

/// A source file is taken exactly where it is no longer than it may be, as long as it was when
/// it was looked at, and named by text.
pub proof fn law_source_file_is_whole(
    path: Seq<char>,
    length: Result<u64, RuntimeError>,
    maximum: u64,
    hashed: Result<(u64, String), RuntimeError>,
    leaf: Option<String>,
)
    ensures
        source_failure(path, length, maximum, hashed, leaf) is None <==> {
            &&& length is Ok && length->Ok_0 <= maximum
            &&& hashed is Ok && hashed->Ok_0.0 == length->Ok_0
            &&& leaf is Some
        },
{
}

} // verus!
