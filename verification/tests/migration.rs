use flow_agent_core::contract::{Checked, DirectoryIdentity};
use flow_agent_core::digest::sha256_hex;
use flow_agent_core::error::RuntimeError;
use flow_agent_core::history::model::ConversationEntryType;
use flow_agent_core::lifecycle::reclamation::RealFile;
use flow_agent_core::listing::ListedName;
use flow_agent_core::migration::manifest::{
    legacy_root_entry_id, same_manifest, LegacyObjectManifest, LegacySourceFile,
    LegacySourceManifest, SOURCE_MANIFEST_SCHEMA,
};
use flow_agent_core::migration::observations::{
    legacy_uncertain_attempt_count, LegacyToolObservationBuilder, LegacyToolObservationOutcome,
    ObservedEvent, ObservedKind,
};
use flow_agent_core::migration::plan::{
    build_legacy_migration_plan, legacy_definition, legacy_object_manifest, source_file, FileHash,
    LegacyDefinition, LegacyEvent, LegacyEventScan, LegacyMetadata, LegacyMigrationPlan,
    LegacyObject,
};
use flow_agent_core::migration::stage::{
    check_staging_identity, check_staging_marker, create_migration_run_log, migration_definition,
    migration_root_entry, migration_status, populate_migration_stage,
    recover_migration_transaction_write, remove_migration_stage_entry,
    remove_published_staging_marker, validate_migration_stage_objects,
    validate_migration_stage_runs, validate_migration_transaction,
    validate_recoverable_migration_stage, FileCopy, MigrationTransaction, PopulateAction,
    StageCounts, StageEntry, StagedKind, StagedObject, StagedObjectLimits, StagedRemoval,
    StagedRun, MIGRATION_IDENTITY_LEAF,
};
use flow_agent_core::migration::staging::{
    publish_migration_stage, PublishStage, RemovalOutcome, RemovalStage, StagingRemoval,
};
use flow_agent_core::migration::target::{
    check_retirement, compare_remove_source, legacy_dir_contains, legacy_session_source_id,
    retire_legacy_sources, source_manifest_from_records, target_object_manifest,
    validate_migrated_target, validate_tree_entry, verify_path_source, MigratedLog, TargetFacts,
    TargetObject, TreeStep,
};
use flow_agent_core::migration::transfer::{
    legacy_flat_compatibility_is_available, legacy_migration_is_present,
    legacy_session_is_terminal, Compatibility, LeaseStage, LegacyMigration, MigrationAction,
    MigrationLeases, MigrationReply,
};
use flow_agent_core::runs::attempts::RunLogRecord;
use flow_agent_core::status::transaction::Artifact;

const ABC_DIGEST: &str = "ba7816bf8f01cfea414140de5dae2223b00361a396177a9cb410ff61f20015ad";
const IDENTITY: DirectoryIdentity = DirectoryIdentity { device: 1, inode: 2 };
const OTHER: DirectoryIdentity = DirectoryIdentity { device: 1, inode: 3 };

fn checked(text: &str) -> Checked {
    Checked { text: text.to_owned(), valid: true }
}

fn hash() -> String {
    format!("sha256:{ABC_DIGEST}")
}

fn protocol(text: &str) -> RuntimeError {
    RuntimeError::Protocol(text.to_owned())
}

fn protocol_text<T>(result: Result<T, RuntimeError>) -> String {
    match result {
        Err(RuntimeError::Protocol(text)) => text,
        Err(other) => panic!("expected a protocol error, got {other:?}"),
        Ok(_) => panic!("expected a protocol error"),
    }
}

fn file(leaf: &str) -> LegacySourceFile {
    LegacySourceFile {
        domain: "logs".to_owned(),
        leaf: leaf.to_owned(),
        bytes: 3,
        sha256: ABC_DIGEST.to_owned(),
    }
}

fn manifest() -> LegacySourceManifest {
    LegacySourceManifest {
        schema: SOURCE_MANIFEST_SCHEMA.to_owned(),
        session_id: "run".to_owned(),
        event_segments: vec![file("run.jsonl")],
        context_segments: vec![file("run.contexts.jsonl")],
        metadata: file("run.meta.json"),
        lock: None,
        objects: LegacyObjectManifest {
            count: 0,
            bytes: 0,
            inventory_sha256: sha256_hex(b""),
        },
        canonical: "{}".to_owned(),
    }
}

fn event(kind: ObservedKind, sequence: u64) -> ObservedEvent {
    ObservedEvent {
        kind,
        flow_id: Some("f".to_owned()),
        phase_id: Some("work".to_owned()),
        tool_id: Some("grep".to_owned()),
        exit_code: Some(0),
        sequence,
        timestamp: format!("2026-01-01T00:00:{sequence:02}Z"),
    }
}

#[test]
fn tools_are_observed_from_start_to_end() {
    let mut builder = LegacyToolObservationBuilder::new();
    builder.observe(&event(ObservedKind::PhaseEntered, 1)).expect("a phase");
    builder.observe(&event(ObservedKind::ToolStarted, 2)).expect("a tool");
    builder.observe(&event(ObservedKind::ToolCompleted, 3)).expect("its end");
    builder.observe(&event(ObservedKind::ToolStarted, 4)).expect("another");
    let records = builder.finish();
    assert_eq!(records.len(), 2);
    assert_eq!(records[0].outcome, LegacyToolObservationOutcome::Completed);
    assert_eq!(records[0].start_sequence, 2);
    assert_eq!(records[0].terminal_sequence, Some(3));
    assert_eq!(records[0].phase_id.as_deref(), Some("work"));
    assert_eq!(records[1].outcome, LegacyToolObservationOutcome::Uncertain);
    assert_eq!(records[1].terminal_sequence, None);
    assert_ne!(records[0].observation_id, records[1].observation_id);
    assert_eq!(legacy_uncertain_attempt_count(&records), 1);
}

fn legacy_event(kind: ObservedKind, sequence: u64, message: bool, ends: bool) -> LegacyEvent {
    LegacyEvent {
        observed: event(kind, sequence),
        completes_message: message,
        ends_session: ends,
    }
}

fn ended_scan() -> LegacyEventScan {
    let mut scan = LegacyEventScan::new();
    scan.observe(&legacy_event(ObservedKind::Other, 1, true, false)).expect("a message");
    scan.observe(&legacy_event(ObservedKind::Other, 2, false, true)).expect("the end");
    scan
}

fn definition() -> LegacyDefinition {
    LegacyDefinition {
        flow_definition_id: checked("flow"),
        registry_hash: hash(),
        flow_definition_hash: hash(),
    }
}

fn plan() -> LegacyMigrationPlan {
    build_legacy_migration_plan(&ended_scan(), definition(), manifest()).expect("it ended")
}

#[test]
fn only_an_ended_session_is_planned() {
    let found = plan();
    assert_eq!(found.last_event_sequence, 2);
    assert_eq!(found.last_event_timestamp, "2026-01-01T00:00:02Z");
    let mut open = LegacyEventScan::new();
    open.observe(&legacy_event(ObservedKind::Other, 1, true, false)).expect("a message");
    assert!(build_legacy_migration_plan(&open, definition(), manifest()).is_err());
    assert!(build_legacy_migration_plan(&LegacyEventScan::new(), definition(), manifest()).is_err());
    let metadata = LegacyMetadata {
        flow_definition_id: Some(checked("flow")),
        registry_hash: Some(hash()),
        flow_definition_hash: None,
    };
    assert!(legacy_definition(metadata).is_err());
}

#[test]
fn sources_are_hashed_as_they_are_read() {
    let mut hash = FileHash::hash_reader(3);
    hash.read(b"ab", "p").expect("it fits");
    hash.read(b"c", "p").expect("it fits");
    assert_eq!(hash.finish(), (3, ABC_DIGEST.to_owned()));
    let mut long = FileHash::hash_reader(2);
    assert!(long.read(b"abc", "p").is_err());
    let found = source_file(
        "p",
        "logs",
        Ok(3),
        10,
        Ok((3, ABC_DIGEST.to_owned())),
        Some("run.jsonl".to_owned()),
    )
    .expect("the file is sound");
    assert_eq!(found.leaf, "run.jsonl");
    assert_eq!(found.bytes, 3);
    let none = legacy_object_manifest(Vec::new(), 0).expect("no object is sound");
    assert_eq!(none.count, 0);
    assert_eq!(none.inventory_sha256, sha256_hex(b""));
    let one = legacy_object_manifest(
        vec![LegacyObject {
            digest: ABC_DIGEST.to_owned(),
            path: "p".to_owned(),
            source: Ok(file(ABC_DIGEST)),
            canonical: "{}".to_owned(),
        }],
        3,
    )
    .expect("one object is sound");
    assert_eq!(one.count, 1);
    assert_eq!(one.bytes, 3);
}

#[test]
fn a_transaction_is_bound_to_its_session() {
    let transaction = MigrationTransaction::new("run", manifest());
    assert!(validate_migration_transaction(&transaction, "run").is_ok());
    assert!(validate_migration_transaction(&transaction, "other").is_err());
    assert!(same_manifest(&transaction.source_manifest, &manifest()));
    let mut forged = MigrationTransaction::new("run", manifest());
    forged.staging_identity = ABC_DIGEST.to_owned();
    assert!(validate_migration_transaction(&forged, "run").is_err());
    match migration_definition(&definition(), &transaction) {
        RunLogRecord::Definition { definition, .. } => {
            assert_eq!(definition.legacy_session_id.as_deref(), Some("run"));
            assert!(definition.legacy_source_manifest.is_some());
            assert!(definition.model.is_none());
        }
        _ => panic!("expected a definition"),
    }
    let entry = migration_root_entry(&plan(), &checked("run"), true, true);
    assert_eq!(entry.entry_type, ConversationEntryType::LegacyRun);
    assert!(entry.parent_entry_id.is_none());
    assert_eq!(entry.event_sequence, 2);
    assert_eq!(entry.entry_id.text, legacy_root_entry_id(&manifest()));
    let status = migration_status(&checked("run"), &entry.entry_id, 4);
    assert_eq!(status.run_count, 1);
    assert_eq!(status.uncertain_attempts, 4);
}

#[test]
fn a_copy_must_be_what_was_expected() {
    let mut copy = FileCopy::copy_anchored_file(3, &file("run.jsonl")).expect("the size fits");
    copy.copy_chunk(b"abc").expect("it fits");
    assert!(copy.finish().is_ok());
    assert!(FileCopy::copy_anchored_file(4, &file("run.jsonl")).is_err());
    let mut other = FileCopy::copy_anchored_file(3, &file("run.jsonl")).expect("the size fits");
    other.copy_chunk(b"abd").expect("it fits");
    assert!(other.finish().is_err());
    assert_eq!(
        create_migration_run_log(&vec!["{}".to_owned(), "[]".to_owned()]).expect("it fits"),
        "{}\n[]\n"
    );
}

#[test]
fn a_stage_is_filled_in_order() {
    let counts = StageCounts { events: 2, contexts: 1, objects: 1 };
    let mut action = PopulateAction::CreateMarker;
    let mut actions = Vec::new();
    while action != PopulateAction::Done {
        actions.push(action);
        action = populate_migration_stage(action, counts);
        assert!(actions.len() < 50);
    }
    let place = |wanted: PopulateAction| {
        actions.iter().position(|found| *found == wanted).expect("the action is taken")
    };
    assert_eq!(place(PopulateAction::CreateMarker), 0);
    assert!(
        place(PopulateAction::CopyEvents { index: 0 })
            < place(PopulateAction::CopyEvents { index: 1 })
    );
    assert!(
        place(PopulateAction::CopyObject { index: 0 }) < place(PopulateAction::CreateHistory)
    );
    assert_eq!(actions.last(), Some(&PopulateAction::SyncStage));
}

#[test]
fn a_stage_left_behind_must_be_its_own() {
    assert!(check_staging_marker(Ok(format!("{ABC_DIGEST}\n")), ABC_DIGEST).is_ok());
    assert!(check_staging_marker(Ok("x\n".to_owned()), ABC_DIGEST).is_err());
    let entries = vec![StageEntry {
        name: ListedName::Name(MIGRATION_IDENTITY_LEAF.to_owned()),
        checked: Ok(65),
    }];
    assert!(validate_recoverable_migration_stage(
        entries,
        Ok(format!("{ABC_DIGEST}\n")),
        ABC_DIGEST
    )
    .expect("the marker is its own"));
    let foreign = vec![StageEntry {
        name: ListedName::Name("notes".to_owned()),
        checked: Ok(1),
    }];
    assert!(validate_recoverable_migration_stage(
        foreign,
        Ok(format!("{ABC_DIGEST}\n")),
        ABC_DIGEST
    )
    .is_err());
    let runs = vec![StagedRun { name: ListedName::Name("run".to_owned()), checked: Ok(()) }];
    assert!(validate_migration_stage_runs(runs, "run").is_ok());
    let others = vec![StagedRun { name: ListedName::Name("other".to_owned()), checked: Ok(()) }];
    assert!(validate_migration_stage_runs(others, "run").is_err());
    let limits = StagedObjectLimits {
        max_object_bytes: 10,
        max_objects: 4,
        max_total_bytes: 100,
        count: 1,
        bytes: 3,
    };
    let object = || StagedObject {
        name: ListedName::Name(ABC_DIGEST.to_owned()),
        stored: Ok(3),
    };
    assert!(validate_migration_stage_objects(vec![object()], limits).is_ok());
    assert!(validate_migration_stage_objects(vec![object(), object()], limits).is_err());
    assert_eq!(
        remove_migration_stage_entry(
            ListedName::Name(MIGRATION_IDENTITY_LEAF.to_owned()),
            Ok(StagedKind::File),
            true
        )
        .expect("the marker is kept"),
        StagedRemoval::Keep
    );
    assert_eq!(
        protocol_text(remove_migration_stage_entry(
            ListedName::Name("x".to_owned()),
            Ok(StagedKind::Link),
            false
        )),
        "legacy migration staging cleanup refuses symlinks or reparse points"
    );
    assert!(check_staging_identity(Some(OTHER), IDENTITY).is_err());
    assert!(remove_published_staging_marker(
        RealFile::File,
        Ok(format!("{ABC_DIGEST}\n")),
        ABC_DIGEST
    )
    .expect("the marker is its own"));
}

#[test]
fn a_transaction_is_written_whole_or_not_at_all() {
    assert!(recover_migration_transaction_write(
        Artifact::Missing,
        Ok(()),
        Artifact::File { length: 3 },
        Ok(())
    )
    .is_ok());
    assert!(recover_migration_transaction_write(
        Artifact::NotAFile,
        Ok(()),
        Artifact::Missing,
        Ok(())
    )
    .is_err());
}

#[test]
fn a_stage_is_published_by_renaming_it() {
    let mut stage = PublishStage::Look;
    let mut seen = Vec::new();
    while stage != PublishStage::Done {
        seen.push(stage);
        stage = publish_migration_stage(stage, Ok(stage != PublishStage::Look))
            .expect("every step succeeds");
        assert!(seen.len() < 20);
    }
    assert!(seen.contains(&PublishStage::Populate));
    assert_eq!(seen.last(), Some(&PublishStage::Sync));
    assert!(publish_migration_stage(PublishStage::Populate, Err(protocol("io"))).is_err());
    let mut removal = StagingRemoval::remove_recoverable_staging();
    removal.advance(Ok(RemovalOutcome::Opened(None)), ABC_DIGEST).expect("none is there");
    assert_eq!(removal.stage, RemovalStage::Done);
    let mut found = StagingRemoval::remove_recoverable_staging();
    found.advance(Ok(RemovalOutcome::Opened(Some(IDENTITY))), ABC_DIGEST).expect("it is there");
    assert_eq!(found.stage, RemovalStage::Validate);
    assert!(found.advance(Err(protocol("foreign")), ABC_DIGEST).is_err());
}

fn target_facts() -> TargetFacts {
    let transaction = MigrationTransaction::new("run", manifest());
    TargetFacts {
        tree: Ok(()),
        place: Ok(()),
        log: Ok(MigratedLog {
            first: Some(migration_definition(&definition(), &transaction)),
            observations: Some(plan().legacy_tool_observations),
        }),
        lock: Ok(()),
        contexts: vec![Ok((3, ABC_DIGEST.to_owned()))],
        events: Ok(vec![(3, ABC_DIGEST.to_owned())]),
        history: Ok(vec![migration_root_entry(&plan(), &checked("run"), true, true)]),
        status: Ok(migration_status(
            &checked("run"),
            &migration_root_entry(&plan(), &checked("run"), true, true).entry_id,
            0,
        )),
        objects: Ok(LegacyObjectManifest {
            count: 0,
            bytes: 0,
            inventory_sha256: sha256_hex(b""),
        }),
    }
}

#[test]
fn a_migrated_target_is_faithful() {
    assert!(validate_migrated_target(target_facts(), &manifest(), &ended_scan()).is_ok());
    let mut changed = target_facts();
    changed.events = Ok(vec![(4, ABC_DIGEST.to_owned())]);
    assert!(validate_migrated_target(changed, &manifest(), &ended_scan()).is_err());
    let mut counted = target_facts();
    counted.objects = Ok(LegacyObjectManifest {
        count: 1,
        bytes: 0,
        inventory_sha256: sha256_hex(b""),
    });
    assert!(validate_migrated_target(counted, &manifest(), &ended_scan()).is_err());
    let mut unread = target_facts();
    unread.tree = Err(protocol("tree"));
    assert_eq!(
        protocol_text(validate_migrated_target(unread, &manifest(), &ended_scan())),
        "tree"
    );
    let mut short = target_facts();
    short.contexts = Vec::new();
    assert!(validate_migrated_target(short, &manifest(), &ended_scan()).is_err());
    let none = None;
    assert!(source_manifest_from_records(&none, "run").is_err());
    assert!(verify_path_source(Ok((3, ABC_DIGEST.to_owned())), &file("x")).is_ok());
    assert!(verify_path_source(Ok((2, ABC_DIGEST.to_owned())), &file("x")).is_err());
    let objects = target_object_manifest(
        vec![TargetObject {
            name: ABC_DIGEST.to_owned(),
            hashed: Ok((3, ABC_DIGEST.to_owned())),
            canonical: "{}".to_owned(),
        }],
        4,
        10,
    )
    .expect("one object fits");
    assert_eq!(objects.count, 1);
}

#[test]
fn sources_are_retired_when_they_are_unchanged() {
    let retirements = retire_legacy_sources(&manifest());
    let leaves: Vec<&str> =
        retirements.iter().map(|retirement| retirement.file.leaf.as_str()).collect();
    assert!(leaves.contains(&"run.jsonl"));
    assert!(leaves.contains(&"run.contexts.jsonl"));
    assert!(leaves.contains(&"run.meta.json"));
    assert!(compare_remove_source("p", Ok(file("run.jsonl")), &file("run.jsonl"))
        .expect("it is unchanged"));
    let mut other = file("run.jsonl");
    other.bytes = 9;
    assert!(compare_remove_source("p", Ok(other), &file("run.jsonl")).is_err());
    assert!(check_retirement(Ok(false)).is_ok());
    assert!(check_retirement(Ok(true)).is_err());
    assert_eq!(
        validate_tree_entry(
            ListedName::Name("d".to_owned()),
            Ok(StagedKind::Directory),
            Ok(())
        )
        .expect("a directory"),
        TreeStep::Directory
    );
    assert_eq!(
        protocol_text(validate_tree_entry(
            ListedName::Name("l".to_owned()),
            Ok(StagedKind::Link),
            Ok(())
        )),
        "directory tree must not contain symlinks"
    );
    assert_eq!(
        legacy_session_source_id(None, None, Some("run.1".to_owned())).as_deref(),
        Some("run")
    );
    assert!(legacy_dir_contains(
        vec![Ok(None), Ok(Some("run".to_owned()))],
        "run"
    )
    .expect("the directory could be read"));
}

#[test]
fn a_migration_goes_from_plan_to_cleared_transaction() {
    let mut migration = LegacyMigration::migrate_legacy_session_locked(false, false);
    let mut actions = Vec::new();
    while migration.action != MigrationAction::Done {
        actions.push(migration.action);
        migration.advance(MigrationReply::Done).expect("every step succeeds");
        assert!(actions.len() < 30);
    }
    let place = |wanted: MigrationAction| {
        actions.iter().position(|found| *found == wanted).expect("the action is taken")
    };
    assert!(place(MigrationAction::RecordTransaction) < place(MigrationAction::Publish));
    assert!(place(MigrationAction::ValidateTarget) < place(MigrationAction::RetireSources));
    assert_eq!(actions.last(), Some(&MigrationAction::ClearTransaction));
    let mut failed = LegacyMigration::migrate_legacy_session_locked(false, false);
    assert!(failed.advance(MigrationReply::Failed(protocol("io"))).is_err());
}

#[test]
fn leases_of_a_migration_are_given_back() {
    let mut leases = MigrationLeases::migrate_legacy_session(&checked("run")).expect("sound");
    assert_eq!(leases.stage, LeaseStage::AcquireLegacy);
    leases.advance(Ok(()));
    leases.advance(Ok(()));
    leases.advance(Err(protocol("run")));
    let mut stages = Vec::new();
    while leases.stage != LeaseStage::Done {
        stages.push(leases.stage);
        leases.advance(Ok(()));
    }
    assert!(!stages.contains(&LeaseStage::ReleaseRun));
    assert!(stages.contains(&LeaseStage::ReleaseConversation));
    assert!(stages.contains(&LeaseStage::ReleaseLegacy));
    assert_eq!(leases.failures.len(), 1);
    assert!(!leases.legacy && !leases.conversation && !leases.run);
}

#[test]
fn flat_sessions_stay_readable_until_they_are_migrated() {
    assert!(legacy_migration_is_present(Ok(false), Ok(true)).expect("sources are there"));
    assert!(!legacy_migration_is_present(Ok(false), Ok(false)).expect("nothing is there"));
    assert_eq!(
        legacy_flat_compatibility_is_available(&checked("run"), Ok(true), Ok(false), Ok(false))
            .expect("all could be looked at"),
        Compatibility::Available
    );
    assert_eq!(
        legacy_flat_compatibility_is_available(&checked("run"), Ok(false), Ok(false), Ok(false))
            .expect("all could be looked at"),
        Compatibility::Absent
    );
    let bad = Checked { text: "a\"b".to_owned(), valid: false };
    match legacy_flat_compatibility_is_available(&bad, Ok(true), Ok(false), Ok(false)) {
        Err(RuntimeError::Usage(text)) => assert_eq!(text, "invalid session_id \"a\\\"b\""),
        _ => panic!("expected a refusal"),
    }
    assert_eq!(legacy_session_is_terminal(Compatibility::Available, Some(true)), Some(true));
}
