use flow_agent_core::contract::{
    run_creation_identity_marker_name, Checked, DirectoryIdentity, RUN_CONTEXTS_LEAF,
    RUN_EVENTS_LEAF, RUN_LOG_LEAF, RUN_OBJECTS_DIR, RUN_SESSION_LOCK_LEAF,
};
use flow_agent_core::digest::sha256_hex;
use flow_agent_core::error::RuntimeError;
use flow_agent_core::history::model::{
    ConversationEntry, ConversationEntryType, CONVERSATION_ENTRY_SCHEMA_V1,
};
use flow_agent_core::listing::ListedName;
use flow_agent_core::names::SortedNames;
use flow_agent_core::runs::storage::StreamInventory;
use flow_agent_core::status::appending::{
    status_append_was_applied, AppendingStage, StatusAppending,
};
use flow_agent_core::status::query::{
    conversation_id_page, conversation_status, conversation_status_page_bytes,
    conversation_status_summary, parse_status_token, retain_status_candidate, status_token,
    ConversationStatus, EmitMode, EntryKind, InventoryEntry, StatusInventoryBudget,
    StatusPageBuilder,
};
use flow_agent_core::status::run_mutation::{
    check_reclamation_identity, check_stage_emptied, finish_recoverable_run_reclamation,
    remove_identity_bound_run_creation_stage, run_creation_mutation_was_applied,
    validate_complete_created_run, validate_run_reclamation_objects, CreationEvidence,
    CreationFound, ListedObject, LogFound, MarkerFound, ObjectsFound, ObjectsRemoval,
    ReclaimedObjects, RemovalStep, RunRemoval, RunShape,
};
use flow_agent_core::status::summary::{
    bounded_canonical_json_bytes, empty_status_summary, read_bounded_canonical_json_file,
    read_status_summary, same_summary, validate_status_summary, ConversationStatusSummary,
    DocumentForm,
};
use flow_agent_core::status::transaction::{
    append_transaction, check_appended, finalize_status_append_recovery, judge_append_target,
    planned_anchored_status_append, real_file_artifact_present, record_status_transaction,
    recover_looked, recover_removed, recover_status_transaction, recover_worked,
    replace_status_summary, run_creation_staging_name, run_creation_status_transaction,
    run_reclamation_status_transaction, selected_summary, status_after_append,
    status_append_base, status_line, status_recovery_is_required, validate_status_transaction,
    AppendBase, AppendEvidence, AppendTarget, AppendedEntry, Artifact,
    ConversationStatusMutation, ConversationStatusTransaction, RecoverStage, RunCreated,
    RunReclaimed, StatusAppend, StatusAppendKind,
};

const ABC_DIGEST: &str = "ba7816bf8f01cfea414140de5dae2223b00361a396177a9cb410ff61f20015ad";
const IDENTITY: DirectoryIdentity = DirectoryIdentity { device: 1, inode: 2 };
const OTHER: DirectoryIdentity = DirectoryIdentity { device: 1, inode: 3 };

fn checked(text: &str) -> Checked {
    Checked { text: text.to_owned(), valid: true }
}

fn unchecked(text: &str) -> Checked {
    Checked { text: text.to_owned(), valid: false }
}

fn protocol(text: &str) -> RuntimeError {
    RuntimeError::Protocol(text.to_owned())
}

fn protocol_text<T>(result: Result<T, RuntimeError>) -> String {
    match result {
        Err(RuntimeError::Protocol(text)) => text,
        Err(other) => panic!("expected a protocol error, got {other:?}"),
        Ok(_) => panic!("expected a protocol error"),
    }
}

fn usage_text<T>(result: Result<T, RuntimeError>) -> String {
    match result {
        Err(RuntimeError::Usage(text)) => text,
        Err(other) => panic!("expected a usage error, got {other:?}"),
        Ok(_) => panic!("expected a usage error"),
    }
}

fn summary(runs: u64, uncertain: u64) -> ConversationStatusSummary {
    let mut summary = empty_status_summary(&checked("talk"));
    summary.run_count = runs;
    summary.uncertain_attempts = uncertain;
    summary
}

fn listed(names: &[&str]) -> Vec<ListedName> {
    names.iter().map(|name| ListedName::Name((*name).to_owned())).collect()
}

#[test]
fn a_summary_is_of_its_conversation() {
    let empty = empty_status_summary(&checked("talk"));
    assert_eq!(empty.run_count, 0);
    assert!(validate_status_summary(&empty, "talk").is_ok());
    assert_eq!(
        protocol_text(validate_status_summary(&empty, "other")),
        "conversation status summary has the wrong conversation id"
    );
    let mut strange = empty_status_summary(&checked("talk"));
    strange.latest_entry_id = Some(unchecked("Bad"));
    assert_eq!(
        protocol_text(validate_status_summary(&strange, "talk")),
        "conversation status summary has an invalid latest entry id"
    );
    let mut old = empty_status_summary(&checked("talk"));
    old.schema = "v".to_owned();
    assert_eq!(
        protocol_text(validate_status_summary(&old, "talk")),
        "conversation status summary has an unsupported schema"
    );
    assert_eq!(
        protocol_text(read_status_summary(None, "talk")),
        "conversation status summary is missing"
    );
    assert!(same_summary(&summary(1, 2), &summary(1, 2)));
    assert!(!same_summary(&summary(1, 2), &summary(1, 3)));
}

#[test]
fn a_document_is_one_canonical_line() {
    assert_eq!(bounded_canonical_json_bytes("{}", "status").expect("it fits"), b"{}\n".to_vec());
    let long = "x".repeat(4096);
    assert_eq!(
        protocol_text(bounded_canonical_json_bytes(&long, "status")),
        "status exceeds its byte limit"
    );
    let form = DocumentForm::Canonical("{}".to_owned());
    assert!(read_bounded_canonical_json_file(3, b"{}\n", &form, "status").is_ok());
    assert_eq!(
        protocol_text(read_bounded_canonical_json_file(2, b"{}", &form, "status")),
        "status framing is invalid"
    );
    assert_eq!(
        protocol_text(read_bounded_canonical_json_file(4, b"{ }\n", &form, "status")),
        "status is not canonical JSON"
    );
    assert_eq!(
        protocol_text(read_bounded_canonical_json_file(2, b"\xff\n", &form, "status")),
        "status is not UTF-8"
    );
    let invalid = DocumentForm::Invalid("eof".to_owned());
    assert_eq!(
        protocol_text(read_bounded_canonical_json_file(2, b"{\n", &invalid, "status")),
        "status is not valid JSON: eof"
    );
}

#[test]
fn appends_change_the_summary() {
    let after = status_after_append(
        &summary(2, 1),
        StatusAppendKind::AttemptIntent,
        &None,
    )
    .expect("there is room");
    assert_eq!(after.uncertain_attempts, 2);
    let ended = status_after_append(&summary(2, 1), StatusAppendKind::AttemptResult, &None)
        .expect("an attempt is open");
    assert_eq!(ended.uncertain_attempts, 0);
    assert_eq!(
        protocol_text(status_after_append(
            &summary(2, 0),
            StatusAppendKind::AttemptResult,
            &None
        )),
        "uncertain attempt count is inconsistent"
    );
    assert_eq!(
        protocol_text(status_after_append(
            &summary(2, u64::MAX),
            StatusAppendKind::AttemptIntent,
            &None
        )),
        "uncertain attempt count is exhausted"
    );
    assert_eq!(
        protocol_text(status_after_append(&summary(2, 0), StatusAppendKind::History, &None)),
        "history status update lacks an entry id"
    );
    let latest = status_after_append(
        &summary(2, 0),
        StatusAppendKind::History,
        &Some(checked("entry-1")),
    )
    .expect("an entry is named");
    assert_eq!(latest.latest_entry_id.map(|id| id.text), Some("entry-1".to_owned()));
}

fn intent_transaction() -> ConversationStatusTransaction {
    append_transaction(
        summary(1, 0),
        StatusAppendKind::AttemptIntent,
        Some(checked("run")),
        &None,
        b"{}\n",
        Ok((1, 4)),
        true,
    )
    .expect("the append is sound")
}

#[test]
fn a_planned_append_is_recorded() {
    let transaction = intent_transaction();
    assert!(validate_status_transaction(&transaction, "talk", 100).is_ok());
    assert_eq!(
        protocol_text(validate_status_transaction(&transaction, "other", 100)),
        "conversation status transaction has the wrong conversation id"
    );
    match &transaction.mutation {
        ConversationStatusMutation::Append(append) => {
            assert_eq!(append.segment_ordinal, 1);
            assert_eq!(append.prior_bytes, 4);
            assert_eq!(append.appended_bytes, 3);
            assert_eq!(append.appended_sha256, sha256_hex(b"{}\n"));
        }
        _ => panic!("expected an append"),
    }
    assert!(record_status_transaction(
        &transaction,
        &summary(1, 0),
        Artifact::Missing,
        Artifact::Missing,
        100
    )
    .is_ok());
    assert_eq!(
        protocol_text(record_status_transaction(
            &transaction,
            &summary(1, 1),
            Artifact::Missing,
            Artifact::Missing,
            100
        )),
        "conversation status changed before its transaction was recorded"
    );
    assert_eq!(
        protocol_text(record_status_transaction(
            &transaction,
            &summary(1, 0),
            Artifact::File { length: 1 },
            Artifact::Missing,
            100
        )),
        "conversation status transaction already exists"
    );
    assert_eq!(
        protocol_text(replace_status_summary(
            &summary(1, 0),
            Ok(()),
            Artifact::File { length: 1 }
        )),
        "staged conversation status summary already exists"
    );
    assert_eq!(
        protocol_text(real_file_artifact_present(Artifact::NotAFile, "it")),
        "it must be a real file"
    );
}

#[test]
fn an_append_goes_to_the_segment_with_room() {
    let inventory = StreamInventory { total_bytes: 9, current_ordinal: 2, current_bytes: 9 };
    assert_eq!(
        planned_anchored_status_append(inventory, b"{}\n", 12).expect("it fits"),
        (2, 9)
    );
    assert_eq!(
        planned_anchored_status_append(inventory, b"{}\n", 11).expect("a further segment"),
        (3, 0)
    );
    assert!(matches!(
        status_append_base(StatusAppendKind::History, &None),
        Ok(AppendBase::History)
    ));
    assert_eq!(
        protocol_text(status_append_base(StatusAppendKind::AttemptIntent, &None)),
        "conversation status Run Log transaction lacks a Run id"
    );
    assert_eq!(status_line("{}").expect("it fits"), b"{}\n".to_vec());
}

fn appended() -> StatusAppend {
    StatusAppend {
        kind: StatusAppendKind::AttemptIntent,
        run_session_id: Some(checked("run")),
        segment_ordinal: 1,
        ordinal_valid: true,
        prior_bytes: 4,
        appended_bytes: 3,
        appended_sha256: sha256_hex(b"{}\n"),
    }
}

#[test]
fn an_append_is_found_or_not() {
    assert_eq!(
        judge_append_target(&appended(), AppendTarget::File { length: 4 }).expect("as before"),
        AppendEvidence::NotApplied
    );
    assert_eq!(
        judge_append_target(&appended(), AppendTarget::File { length: 7 }).expect("as after"),
        AppendEvidence::ReadBack
    );
    assert_eq!(
        protocol_text(judge_append_target(&appended(), AppendTarget::File { length: 5 })),
        "conversation status transaction target has a torn or foreign append"
    );
    assert!(check_appended(&appended(), &summary(1, 1), b"{}\n", &None).is_ok());
    assert_eq!(
        protocol_text(check_appended(&appended(), &summary(1, 1), b"[]\n", &None)),
        "conversation status transaction target append does not match"
    );
    assert!(
        finalize_status_append_recovery(&appended(), true, AppendTarget::File { length: 7 })
            .expect("the target is there")
    );
}

#[test]
fn an_appended_entry_must_be_the_latest() {
    let mut append = appended();
    append.kind = StatusAppendKind::History;
    append.run_session_id = None;
    let found = AppendedEntry {
        entry: ConversationEntry {
            schema: CONVERSATION_ENTRY_SCHEMA_V1.to_owned(),
            entry_id: checked("entry-1"),
            parent_entry_id: None,
            recovery_snapshot_hash: Some(ABC_DIGEST.to_owned()),
            run_session_id: checked("run"),
            event_sequence: 1,
            entry_type: ConversationEntryType::Checkpoint,
            timestamp: checked("2026-01-01T00:00:00Z"),
        },
        canonical: "{}".to_owned(),
    };
    let mut after = summary(1, 0);
    after.latest_entry_id = Some(checked("entry-2"));
    assert_eq!(
        protocol_text(check_appended(&append, &after, b"{}\n", &Some(found))),
        "conversation status history entry does not match its status summary"
    );
}

#[test]
fn recovery_looks_before_it_writes() {
    let start = RecoverStage::LookTransaction;
    let stale = recover_looked(start, Artifact::Missing).expect("nothing is there");
    assert_eq!(stale, RecoverStage::LookStaleStage);
    let remove = recover_looked(stale, Artifact::File { length: 1 }).expect("a stale stage");
    assert_eq!(remove, RecoverStage::RemoveStaleStage);
    let stray = recover_removed(remove);
    assert_eq!(stray, RecoverStage::LookStraySummary);
    assert_eq!(
        recover_looked(stray, Artifact::Missing).expect("nothing is left"),
        RecoverStage::Done
    );
    assert_eq!(
        protocol_text(recover_looked(stray, Artifact::File { length: 1 })),
        "staged conversation status summary lacks its transaction"
    );
    assert_eq!(
        protocol_text(recover_looked(
            RecoverStage::LookSecondStage,
            Artifact::File { length: 1 }
        )),
        "conversation status transaction has a second staged record"
    );
    let transaction = intent_transaction();
    assert!(recover_status_transaction(&transaction, &summary(1, 0), "talk", 100).is_ok());
    assert_eq!(
        protocol_text(recover_status_transaction(&transaction, &summary(5, 5), "talk", 100)),
        "conversation status summary does not match its transaction"
    );
    assert_eq!(
        recover_worked(RecoverStage::Sync { applied: true }, &transaction, &summary(1, 0)),
        RecoverStage::Replace { applied: true }
    );
    assert_eq!(
        recover_worked(RecoverStage::Sync { applied: true }, &transaction, &summary(1, 1)),
        RecoverStage::Clear
    );
    assert_eq!(selected_summary(&transaction, true).uncertain_attempts, 1);
    assert_eq!(selected_summary(&transaction, false).uncertain_attempts, 0);
    assert!(status_recovery_is_required(
        Artifact::Missing,
        Artifact::Missing,
        Artifact::File { length: 1 }
    )
    .expect("all could be looked at"));
}

fn created() -> RunCreated {
    let name = run_creation_staging_name(&checked("run"), ABC_DIGEST).expect("a digest");
    RunCreated {
        run_session_id: checked("run"),
        staging_name: name,
        staging_identity: ABC_DIGEST.to_owned(),
        run_identity_marker: run_creation_identity_marker_name(IDENTITY),
        run_log_sha256: ABC_DIGEST.to_owned(),
        unpublished_productive_run: false,
    }
}

#[test]
fn runs_are_counted_as_they_come_and_go() {
    assert_eq!(
        run_creation_staging_name(&checked("run"), ABC_DIGEST).expect("a digest"),
        format!(".run-run-{ABC_DIGEST}.staged")
    );
    let made = run_creation_status_transaction(summary(1, 0), created()).expect("there is room");
    assert_eq!(made.after.run_count, 2);
    assert!(validate_status_transaction(&made, "talk", 100).is_ok());
    assert_eq!(
        protocol_text(run_creation_status_transaction(summary(u64::MAX, 0), created())),
        "conversation Run count is exhausted"
    );
    let gone = |runs: u64| {
        run_reclamation_status_transaction(
            summary(runs, 0),
            RunReclaimed {
                run_session_id: checked("run"),
                run_identity_marker: run_creation_identity_marker_name(IDENTITY),
            },
        )
    };
    assert_eq!(gone(1).expect("a run is there").after.run_count, 0);
    assert_eq!(protocol_text(gone(0)), "conversation Run count is inconsistent");
}

fn shape(names: &[&str], log: &[u8]) -> RunShape {
    RunShape {
        listed: listed(names),
        identity: Ok(IDENTITY),
        marker: MarkerFound::Present(Ok(0)),
        events: Ok(0),
        contexts: Ok(0),
        lock: Ok(0),
        unpublished: Ok(0),
        objects: ObjectsFound::Empty,
        log: LogFound { length: Ok(log.len() as u64), bytes: Ok(log.to_vec()) },
    }
}

fn complete(log: &[u8]) -> RunShape {
    let marker = run_creation_identity_marker_name(IDENTITY);
    shape(
        &[
            RUN_CONTEXTS_LEAF,
            RUN_EVENTS_LEAF,
            RUN_LOG_LEAF,
            RUN_OBJECTS_DIR,
            RUN_SESSION_LOCK_LEAF,
            marker.as_str(),
        ],
        log,
    )
}

#[test]
fn a_created_run_is_whole() {
    let marker = run_creation_identity_marker_name(IDENTITY);
    assert!(
        validate_complete_created_run(complete(b"abc"), ABC_DIGEST, false, &marker).is_ok()
    );
    assert_eq!(
        protocol_text(validate_complete_created_run(
            complete(b"abd"),
            ABC_DIGEST,
            false,
            &marker
        )),
        "run-creation definition differs from its transaction"
    );
    assert_eq!(
        protocol_text(validate_complete_created_run(
            shape(&[marker.as_str()], b"abc"),
            ABC_DIGEST,
            false,
            &marker
        )),
        "created Run inventory is incomplete"
    );
    let mut filled = complete(b"abc");
    filled.events = Ok(3);
    assert_eq!(
        protocol_text(validate_complete_created_run(filled, ABC_DIGEST, false, &marker)),
        "run-creation empty file contains data"
    );
    let other = run_creation_identity_marker_name(OTHER);
    assert_eq!(
        protocol_text(validate_complete_created_run(
            complete(b"abc"),
            ABC_DIGEST,
            false,
            &other
        )),
        "run-creation directory identity changed"
    );
}

#[test]
fn what_came_of_a_creation_is_judged_by_what_is_there() {
    let marker = run_creation_identity_marker_name(IDENTITY);
    assert!(matches!(
        run_creation_mutation_was_applied(CreationFound::Absent, &marker, ABC_DIGEST, false),
        Ok(CreationEvidence::NotApplied)
    ));
    let published = CreationFound::Published { shape: complete(b"abc"), staged: Ok(false) };
    assert!(matches!(
        run_creation_mutation_was_applied(published, &marker, ABC_DIGEST, false),
        Ok(CreationEvidence::Applied)
    ));
    let twice = CreationFound::Published { shape: complete(b"abc"), staged: Ok(true) };
    assert_eq!(
        protocol_text(run_creation_mutation_was_applied(twice, &marker, ABC_DIGEST, false)),
        "published Run retains a second staging artifact"
    );
    let staged = CreationFound::Staged {
        shape: shape(&[RUN_EVENTS_LEAF, RUN_OBJECTS_DIR, marker.as_str()], b"abc"),
        identity: IDENTITY,
    };
    match run_creation_mutation_was_applied(staged, &marker, ABC_DIGEST, false) {
        Ok(CreationEvidence::Remove(plan)) => {
            assert_eq!(plan.marker.as_deref(), Some(marker.as_str()));
            let leaves: Vec<(String, bool)> = plan
                .removals
                .iter()
                .map(|removal| (removal.leaf.clone(), removal.directory))
                .collect();
            assert!(leaves.contains(&(RUN_EVENTS_LEAF.to_owned(), false)));
            assert!(leaves.contains(&(RUN_OBJECTS_DIR.to_owned(), true)));
            assert_eq!(leaves.len(), 2);
        }
        _ => panic!("expected a removal"),
    }
    assert_eq!(
        protocol_text(check_stage_emptied(listed(&["x"]))),
        "run-creation stage changed during cleanup"
    );
    assert_eq!(
        protocol_text(remove_identity_bound_run_creation_stage(Some(OTHER), IDENTITY)),
        "run-creation stage identity changed during cleanup"
    );
}

#[test]
fn a_run_is_reclaimed_under_its_marker() {
    let marker = run_creation_identity_marker_name(IDENTITY);
    let plan = finish_recoverable_run_reclamation(
        IDENTITY,
        &marker,
        listed(&[RUN_OBJECTS_DIR, RUN_LOG_LEAF, marker.as_str()]),
    )
    .expect("every entry is known");
    assert_eq!(plan.leaves, vec![RUN_LOG_LEAF.to_owned()]);
    assert!(plan.objects);
    assert_eq!(plan.marker.as_deref(), Some(marker.as_str()));
    let mut removal = RunRemoval::begin(plan, Some(ObjectsRemoval::Directory));
    let mut steps = Vec::new();
    while removal.step != RemovalStep::Done {
        steps.push((removal.step, removal.leaf().cloned()));
        removal.advance(Ok(())).expect("nothing failed");
    }
    assert_eq!(steps.len(), 9);
    assert_eq!(steps[0].0, RemovalStep::Open);
    assert_eq!(steps[1].0, RemovalStep::Open);
    assert_eq!(steps[2].0, RemovalStep::RemoveObjects);
    assert_eq!(steps[3], (RemovalStep::Remove, Some(RUN_LOG_LEAF.to_owned())));
    assert_eq!(steps[4].0, RemovalStep::Sync);
    assert_eq!(steps[5], (RemovalStep::RemoveMarker, Some(marker.clone())));
    assert_eq!(steps[8].0, RemovalStep::RemoveDirectory);
    assert_eq!(
        protocol_text(finish_recoverable_run_reclamation(
            IDENTITY,
            &marker,
            listed(&[RUN_LOG_LEAF])
        )),
        "run-reclamation identity marker is missing"
    );
    assert_eq!(
        protocol_text(finish_recoverable_run_reclamation(
            OTHER,
            &marker,
            listed(&[RUN_LOG_LEAF])
        )),
        "run-reclamation directory identity changed"
    );
    let objects = ReclaimedObjects::Directory(vec![ListedObject {
        name: ListedName::Name(ABC_DIGEST.to_owned()),
        opened: Ok(()),
    }]);
    assert_eq!(
        validate_run_reclamation_objects(objects, 1).expect("one object is allowed"),
        ObjectsRemoval::Directory
    );
    let objects = ReclaimedObjects::Directory(vec![ListedObject {
        name: ListedName::Name(ABC_DIGEST.to_owned()),
        opened: Ok(()),
    }]);
    assert_eq!(
        protocol_text(validate_run_reclamation_objects(objects, 0)),
        "run-reclamation object inventory is too large"
    );
    assert_eq!(
        protocol_text(check_reclamation_identity(None, IDENTITY)),
        "run-reclamation directory disappeared during cleanup"
    );
}

fn found(name: &str) -> InventoryEntry {
    InventoryEntry::Found {
        name: Some(name.to_owned()),
        kind: Ok(EntryKind::Directory),
        valid: true,
    }
}

#[test]
fn conversations_are_listed_in_order() {
    let (names, more) =
        conversation_id_page(vec![found("b"), found("a"), found("c")], Some("a"))
            .expect("the inventory is sound");
    assert_eq!(names, vec!["b".to_owned(), "c".to_owned()]);
    assert!(!more);
    let many: Vec<InventoryEntry> = (0..102).map(|n| found(&format!("c{n:03}"))).collect();
    let (names, more) = conversation_id_page(many, None).expect("the inventory is sound");
    assert_eq!(names.len(), 101);
    assert_eq!(names[0], "c000");
    assert_eq!(names[100], "c100");
    assert!(more);
    let link = InventoryEntry::Found {
        name: Some("x".to_owned()),
        kind: Ok(EntryKind::Link),
        valid: true,
    };
    assert_eq!(
        protocol_text(conversation_id_page(vec![link], None)),
        "conversation inventory must not contain symlinks"
    );
    assert_eq!(
        protocol_text(conversation_id_page(
            vec![InventoryEntry::Failed(protocol("io"))],
            None
        )),
        "io"
    );
    let mut kept = SortedNames::new();
    retain_status_candidate(&mut kept, "b".to_owned(), Some("b"));
    assert_eq!(kept.len(), 0);
    retain_status_candidate(&mut kept, "c".to_owned(), Some("b"));
    assert!(kept.contains("c"));
    let mut budget = StatusInventoryBudget::new();
    for _ in 0..4096 {
        budget.admit_entry().expect("there is room");
    }
    assert_eq!(
        protocol_text(budget.admit_entry()),
        "conversation status inventory exceeds one scan quantum"
    );
}

#[test]
fn a_token_names_the_last_conversation() {
    assert_eq!(status_token("talk"), "flow-status-v0:talk");
    assert_eq!(parse_status_token("flow-status-v0:talk", true).expect("a token"), "talk");
    assert_eq!(
        usage_text(parse_status_token("other:talk", true)),
        "invalid continuation token"
    );
    assert_eq!(
        usage_text(parse_status_token("flow-status-v0:Talk", false)),
        "invalid continuation token id"
    );
}

fn status(id: &str) -> ConversationStatus {
    ConversationStatus {
        conversation_id: id.to_owned(),
        latest_entry_id: Some("entry-1".to_owned()),
        run_count: 2,
        uncertain_attempts: 1,
    }
}

#[test]
fn a_page_of_statuses_is_shown() {
    let found = conversation_status_summary(summary(2, 1)).expect("the counts fit");
    assert_eq!(found.run_count, 2);
    assert_eq!(found.uncertain_attempts, 1);
    let mut builder = StatusPageBuilder::conversation_status_page(vec!["talk".to_owned()], true);
    assert!(builder.wants_more());
    assert_eq!(builder.next_conversation().map(String::as_str), Some("talk"));
    builder.add_status(status("talk"), "{\"c\":1}".to_owned());
    assert!(!builder.wants_more());
    let page = builder.finish();
    assert_eq!(page.continuation_token.as_deref(), Some("flow-status-v0:talk"));
    let human = conversation_status(&page, EmitMode::Human);
    assert_eq!(
        human,
        "conversation talk: 2 runs, 1 uncertain attempts, latest entry entry-1\nmore conversations available; continue with flow sessions status --emit jsonl --continuation-token flow-status-v0:talk\n"
    );
    let jsonl = conversation_status(&page, EmitMode::Jsonl);
    assert_eq!(
        jsonl,
        "{\"continuation_token\":\"flow-status-v0:talk\",\"conversations\":[{\"c\":1}],\"schema\":\"flow-conversation-status-page-v0\"}\n"
    );
    assert_eq!(
        conversation_status_page_bytes(7, 1, &page.continuation_token),
        jsonl.len() - 1
    );
}

#[test]
fn pages_of_status_hold_every_conversation_once() {
    let names: Vec<String> = (0..150).map(|k| format!("talk-{k:03}")).collect();
    let mut shown: Vec<String> = Vec::new();
    let mut after: Option<String> = None;
    let mut pages = 0;
    loop {
        let entries = names.iter().rev().map(|name| found(name)).collect();
        let (candidates, more) =
            conversation_id_page(entries, after.as_deref()).expect("the inventory is sound");
        let mut builder = StatusPageBuilder::conversation_status_page(candidates, more);
        while let Some(id) = builder.next_conversation() {
            let id = id.clone();
            builder.add_status(status(&id), "x".repeat(400));
        }
        let page = builder.finish();
        pages += 1;
        shown.extend(page.conversations.iter().map(|shown| shown.conversation_id.clone()));
        match page.continuation_token {
            None => break,
            Some(token) => {
                after = Some(parse_status_token(&token, true).expect("the token is its own"));
            }
        }
    }
    assert!(pages > 1);
    assert_eq!(shown, names);
}

#[test]
fn a_line_is_appended_under_its_transaction() {
    let mut appending = StatusAppending::append_jsonl_with_status_inner(
        "talk",
        "{}",
        StatusAppendKind::AttemptIntent,
        Some(checked("run")),
        None,
    )
    .expect("the line fits");
    assert_eq!(appending.line, b"{}\n".to_vec());
    appending.advance(Ok(()));
    appending.summary_read(Ok(Some(summary(1, 0))));
    assert_eq!(appending.stage, AppendingStage::Plan);
    appending.planned(Ok((1, 4)), true);
    assert_eq!(appending.stage, AppendingStage::Record);
    let transaction = appending.transaction.as_ref().expect("it is made");
    assert_eq!(transaction.after.uncertain_attempts, 1);
    assert!(validate_status_transaction(transaction, "talk", 100).is_ok());
    appending.advance(Ok(()));
    assert_eq!(appending.stage, AppendingStage::Append);
    appending.advance(Ok(()));
    appending.advance(Ok(()));
    assert_eq!(appending.stage, AppendingStage::Clear);
    appending.advance(Ok(()));
    assert_eq!(appending.stage, AppendingStage::Done);
    assert!(appending.failures.is_empty());

    let mut failing = StatusAppending::append_jsonl_with_status_inner(
        "talk",
        "{}",
        StatusAppendKind::AttemptResult,
        Some(checked("run")),
        None,
    )
    .expect("the line fits");
    failing.advance(Ok(()));
    failing.summary_read(Ok(Some(summary(1, 0))));
    assert_eq!(failing.stage, AppendingStage::Done);
    assert_eq!(
        protocol_text::<()>(Err(failing.failures.remove(0))),
        "uncertain attempt count is inconsistent"
    );
}

#[test]
fn a_failed_append_is_settled() {
    let mut appending = StatusAppending::append_jsonl_with_status_inner(
        "talk",
        "{}",
        StatusAppendKind::History,
        None,
        Some(checked("entry-1")),
    )
    .expect("the line fits");
    appending.advance(Ok(()));
    appending.summary_read(Ok(Some(summary(1, 0))));
    appending.planned(Ok((1, 0)), true);
    appending.advance(Ok(()));
    appending.advance(Err(protocol("disk")));
    assert_eq!(appending.stage, AppendingStage::RecoverAfterFailure);
    appending.advance(Err(protocol("recovery")));
    assert_eq!(appending.stage, AppendingStage::Done);
    assert_eq!(appending.failures.len(), 2);
}

#[test]
fn an_append_is_told_by_what_stands_there() {
    let transaction = intent_transaction();
    assert!(!status_append_was_applied(
        &transaction,
        AppendTarget::File { length: 4 },
        Ok(Vec::new()),
        &None
    )
    .expect("as before"));
    assert!(status_append_was_applied(
        &transaction,
        AppendTarget::File { length: 7 },
        Ok(b"{}\n".to_vec()),
        &None
    )
    .expect("as after"));
    assert_eq!(
        protocol_text(status_append_was_applied(
            &transaction,
            AppendTarget::Missing,
            Ok(Vec::new()),
            &None
        )),
        "conversation status transaction target disappeared"
    );
    let made = run_creation_status_transaction(summary(1, 0), created()).expect("there is room");
    assert_eq!(
        protocol_text(status_append_was_applied(
            &made,
            AppendTarget::Missing,
            Ok(Vec::new()),
            &None
        )),
        "conversation status mutation is not an append"
    );
}
