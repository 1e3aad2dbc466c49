use flow_agent_core::contract::{
    conversation_lifecycle_identity_marker_name, run_creation_identity_marker_name, Checked,
    DirectoryIdentity, CONVERSATION_HISTORY_LEAF, CONVERSATION_RUNS_DIR, CONVERSATION_STATUS_LEAF,
    RUN_CONTEXTS_LEAF, RUN_EVENTS_LEAF, RUN_LOG_LEAF, RUN_LOG_RECORD_SCHEMA_V1, RUN_OBJECTS_DIR,
    RUN_SESSION_LOCK_LEAF, UNPUBLISHED_PRODUCTIVE_RUN_MARKER,
};
use flow_agent_core::error::RuntimeError;
use flow_agent_core::lifecycle::creation::{
    check_creation_request, check_stage_for_publication, cleanup_partial_conversation_run,
    conversation_candidate_is_occupied, creation_definition, definition_digest, staging_identity,
    CandidateLook, CleanupStage, ConversationCleanup, CreationAction, CreationReply,
    CreationRequest, FileLook, ProductiveModel, RunCreation, RunsLook,
};
use flow_agent_core::lifecycle::reclamation::{
    reclaim_productive_run, remove_unpublished_productive_run_marker,
    validate_productive_run_creation_header, validate_productive_run_creation_object,
    validate_productive_run_creation_recovery, validate_productive_run_reclaim_inventory,
    validate_reclaimable_conversation_inventory, RealFile, ReclaimAction, ReclaimBoundary,
    ReclaimDecision, ReclaimFacts, ReclaimSearch, ReclaimStage, RunReclamation,
};
use flow_agent_core::lifecycle::recovery::{
    clear_conversation_lifecycle_marker, finish_incomplete_conversation_lifecycle, lifecycle_runs,
    prepare_conversation_lifecycle_marker, remove_lifecycle_root_contents, remove_lifecycle_runs,
    remove_verified_conversation, staged_run, valid_run_creation_stage_name,
    validate_lifecycle_objects, validate_lifecycle_root, validate_lifecycle_run,
    validate_lifecycle_runs, LifecycleAction, LifecycleLeaf, LifecycleState, MarkerLook,
    RunOfLifecycle,
};
use flow_agent_core::listing::ListedName;
use flow_agent_core::names::SortedNames;
use flow_agent_core::runs::attempts::{RunDefinition, RunLogRecord};
use flow_agent_core::runs::objects::ObjectUri;
use flow_agent_core::runs::recovery::{
    ProductiveRecoveryRecord, RecoveryHeader, RootInput, PRODUCTIVE_RECOVERY_SCHEMA_V0,
};
use flow_agent_core::status::run_mutation::MarkerFound;

const ABC_DIGEST: &str = "ba7816bf8f01cfea414140de5dae2223b00361a396177a9cb410ff61f20015ad";
const IDENTITY: DirectoryIdentity = DirectoryIdentity { device: 1, inode: 2 };
const OTHER: DirectoryIdentity = DirectoryIdentity { device: 1, inode: 3 };

fn checked(text: &str) -> Checked {
    Checked { text: text.to_owned(), valid: true }
}

fn hash() -> String {
    format!("sha256:{ABC_DIGEST}")
}

fn protocol(text: &str) -> RuntimeError {
    RuntimeError::Protocol(text.to_owned())
}

fn protocol_text<T>(result: Result<T, RuntimeError>) -> String {
    match result {
        Err(RuntimeError::Protocol(text)) => text,
        Err(other) => panic!("expected a protocol error, got {other:?}"),
        Ok(_) => panic!("expected a protocol error"),
    }
}

fn listed(names: &[&str]) -> Vec<ListedName> {
    names.iter().map(|name| ListedName::Name((*name).to_owned())).collect()
}

fn sorted(names: &[&str]) -> SortedNames {
    let mut found = SortedNames::new();
    for name in names {
        found.insert((*name).to_owned());
    }
    found
}

fn request(unpublished: bool) -> CreationRequest {
    CreationRequest {
        conversation_id: checked("talk"),
        run_session_id: checked("run"),
        flow_definition_id: checked("flow"),
        registry_hash: hash(),
        flow_definition_hash: hash(),
        productive_model: Some(ProductiveModel {
            model: "m".to_owned(),
            profile_id: "p".to_owned(),
            context_limit: 10,
            output_reserve: 2,
            safety_margin: 1,
        }),
        unpublished_productive_run: unpublished,
    }
}

#[test]
fn a_request_is_checked_before_anything_is_made() {
    assert!(check_creation_request(&request(false)).is_ok());
    let mut bad = request(false);
    bad.flow_definition_id.valid = false;
    assert_eq!(protocol_text(check_creation_request(&bad)), "Flow definition id is invalid");
    let mut short = request(false);
    short.registry_hash = "abc".to_owned();
    assert_eq!(
        protocol_text(check_creation_request(&short)),
        "registry hash must use sha256:<digest>"
    );
    assert_eq!(definition_digest("ab"), flow_agent_core::digest::sha256_hex(b"ab\n"));
    match creation_definition(&request(false)) {
        RunLogRecord::Definition { schema, definition } => {
            assert_eq!(schema, RUN_LOG_RECORD_SCHEMA_V1);
            assert_eq!(definition.model.as_deref(), Some("m"));
            assert_eq!(definition.model_context_limit, Some(10));
            assert!(definition.legacy_session_id.is_none());
        }
        _ => panic!("expected a definition"),
    }
    assert_eq!(staging_identity(&request(false)), staging_identity(&request(false)));
    assert_ne!(staging_identity(&request(false)), staging_identity(&request(true)));
}

#[test]
fn a_run_of_a_new_conversation_is_published_last() {
    let mut creation =
        RunCreation::create_conversation_run_with_publication_marker(&request(true), true)
            .expect("the request is sound");
    let mut actions = Vec::new();
    while creation.action != CreationAction::Done {
        actions.push(creation.action);
        creation.advance(CreationReply::Done);
    }
    assert_eq!(actions.first(), Some(&CreationAction::PrepareMarker));
    assert_eq!(actions.last(), Some(&CreationAction::ClearMarker));
    let place = |wanted: CreationAction| {
        actions.iter().position(|action| *action == wanted).expect("the action is taken")
    };
    assert!(place(CreationAction::RecordTransaction) < place(CreationAction::PublishStage));
    assert!(place(CreationAction::CreateUnpublishedMarker) < place(CreationAction::SyncStage));
    assert!(place(CreationAction::PublishStage) < place(CreationAction::FinishTransaction));
    assert!(creation.failures.is_empty());
}

#[test]
fn a_failed_creation_is_taken_back() {
    let mut creation =
        RunCreation::create_conversation_run_with_publication_marker(&request(false), true)
            .expect("the request is sound");
    while creation.action != CreationAction::CreateLog {
        creation.advance(CreationReply::Done);
    }
    creation.advance(CreationReply::Failed(protocol("disk")));
    assert_eq!(creation.action, CreationAction::CleanRun { published: false });
    creation.advance(CreationReply::Done);
    assert_eq!(creation.action, CreationAction::RecoverAfterFailure);
    creation.advance(CreationReply::Done);
    assert_eq!(creation.action, CreationAction::CleanConversation);
    creation.advance(CreationReply::Failed(protocol("cleanup")));
    assert_eq!(creation.action, CreationAction::Done);
    assert_eq!(creation.failures.len(), 2);

    let mut existing =
        RunCreation::create_conversation_run_with_publication_marker(&request(false), false)
            .expect("the request is sound");
    while existing.action != CreationAction::LookForRun {
        existing.advance(CreationReply::Done);
    }
    existing.advance(CreationReply::Found);
    assert_eq!(existing.action, CreationAction::Done);
    match &existing.failures[0] {
        RuntimeError::Usage(text) | RuntimeError::Protocol(text) | RuntimeError::PersistedState(text) => {
            assert!(text.contains("run already exists in conversation talk"), "{text}");
        }
        other => panic!("unexpected failure {other:?}"),
    }
}

#[test]
fn a_stage_is_published_as_it_was_made() {
    assert!(check_stage_for_publication(Some(IDENTITY), IDENTITY).is_ok());
    assert_eq!(
        protocol_text(check_stage_for_publication(None, IDENTITY)),
        "run-creation staging artifact disappeared before publication"
    );
    assert_eq!(
        protocol_text(check_stage_for_publication(Some(OTHER), IDENTITY)),
        "run-creation staging artifact identity changed before publication"
    );
    assert!(protocol_text(cleanup_partial_conversation_run("run", Some(OTHER), IDENTITY))
        .starts_with("partial run run"));
}

#[test]
fn an_empty_conversation_is_taken_away() {
    let mut cleanup = ConversationCleanup::cleanup_new_empty_conversation("talk", IDENTITY);
    let marker = conversation_lifecycle_identity_marker_name(IDENTITY);
    cleanup.identified(Some(IDENTITY)).expect("it is the same");
    cleanup
        .entries_listed(listed(&[
            CONVERSATION_HISTORY_LEAF,
            CONVERSATION_STATUS_LEAF,
            CONVERSATION_RUNS_DIR,
            marker.as_str(),
        ]))
        .expect("every entry is its own");
    assert_eq!(cleanup.stage, CleanupStage::LookAtHistory);
    cleanup.looked(FileLook::File { length: 0 }).expect("it is empty");
    assert_eq!(cleanup.stage, CleanupStage::RemoveHistory);
    cleanup.removed(Ok(())).expect("it is removed");
    cleanup.looked(FileLook::Missing).expect("there is no summary");
    assert_eq!(cleanup.stage, CleanupStage::LookAtRuns);
    cleanup.looked_at_runs(RunsLook::Empty).expect("there are no runs");
    cleanup.removed(Ok(())).expect("they are removed");
    cleanup.looked(FileLook::File { length: 0 }).expect("the marker is empty");
    assert_eq!(cleanup.stage, CleanupStage::Sync { marker: true });

    let mut foreign = ConversationCleanup::cleanup_new_empty_conversation("talk", IDENTITY);
    assert_eq!(
        protocol_text(foreign.identified(Some(OTHER))),
        "new conversation talk identity changed before cleanup"
    );
    let mut filled = ConversationCleanup::cleanup_new_empty_conversation("talk", IDENTITY);
    filled.identified(Some(IDENTITY)).expect("it is the same");
    assert_eq!(
        protocol_text(filled.entries_listed(listed(&["notes"]))),
        "new conversation talk gained foreign content before cleanup"
    );
    let mut written = ConversationCleanup::cleanup_new_empty_conversation("talk", IDENTITY);
    written.identified(Some(IDENTITY)).expect("it is the same");
    written.entries_listed(listed(&[CONVERSATION_HISTORY_LEAF])).expect("it is known");
    assert_eq!(
        protocol_text(written.looked(FileLook::File { length: 1 })),
        "new conversation talk history is not empty before cleanup"
    );
}

#[test]
fn a_candidate_is_occupied_by_anything_of_its_name() {
    assert!(!conversation_candidate_is_occupied(vec![
        CandidateLook::Missing,
        CandidateLook::Missing
    ])
    .expect("all could be looked at"));
    assert!(conversation_candidate_is_occupied(vec![
        CandidateLook::Missing,
        CandidateLook::Found
    ])
    .expect("all could be looked at"));
    assert_eq!(
        protocol_text(conversation_candidate_is_occupied(vec![CandidateLook::Failed(
            protocol("io")
        )])),
        "io"
    );
}

fn run_names(marker: &str) -> Vec<ListedName> {
    listed(&[
        RUN_CONTEXTS_LEAF,
        RUN_EVENTS_LEAF,
        RUN_OBJECTS_DIR,
        RUN_LOG_LEAF,
        RUN_SESSION_LOCK_LEAF,
        UNPUBLISHED_PRODUCTIVE_RUN_MARKER,
        marker,
    ])
}

fn definition_record() -> RunLogRecord {
    RunLogRecord::Definition {
        schema: RUN_LOG_RECORD_SCHEMA_V1.to_owned(),
        definition: RunDefinition {
            flow_definition_id: checked("flow"),
            registry_hash: hash(),
            flow_definition_hash: hash(),
            model: None,
            model_profile_id: None,
            model_context_limit: None,
            output_reserve: None,
            safety_margin: None,
            legacy_session_id: None,
            legacy_source_manifest: None,
        },
    }
}

fn facts() -> ReclaimFacts {
    let marker = run_creation_identity_marker_name(IDENTITY);
    ReclaimFacts {
        identity: Ok(IDENTITY),
        run_marker: MarkerFound::Present(Ok(0)),
        publication_marker: RealFile::File,
        recovery: RealFile::Missing,
        recovery_check: Ok(()),
        events_length: Ok(0),
        contexts_length: Ok(0),
        records: Ok(vec![definition_record()]),
        object_check: Ok(()),
        run_count: Ok(1),
        history_length: Ok(0),
        conversation_check: Ok(()),
        listed: run_names(&marker),
    }
}

#[test]
fn an_unpublished_run_is_reclaimed() {
    match reclaim_productive_run(facts(), ReclaimBoundary::Unpublished, false) {
        Ok(ReclaimDecision::Reclaim { conversation, run_marker }) => {
            assert!(!conversation);
            assert_eq!(run_marker, run_creation_identity_marker_name(IDENTITY));
        }
        Ok(ReclaimDecision::Nothing) => panic!("expected a reclamation"),
        Err(error) => panic!("unexpected failure {error:?}"),
    }
    match reclaim_productive_run(facts(), ReclaimBoundary::Unpublished, true) {
        Ok(ReclaimDecision::Reclaim { conversation, .. }) => assert!(conversation),
        _ => panic!("expected a reclamation"),
    }
    let mut published = facts();
    published.publication_marker = RealFile::Missing;
    assert!(matches!(
        reclaim_productive_run(published, ReclaimBoundary::Unpublished, false),
        Ok(ReclaimDecision::Nothing)
    ));
    let mut written = facts();
    written.events_length = Ok(1);
    assert!(protocol_text(reclaim_productive_run(written, ReclaimBoundary::Unpublished, false))
        .starts_with("unpublished productive run has committed "));
    let mut siblings = facts();
    siblings.run_count = Ok(2);
    assert_eq!(
        protocol_text(reclaim_productive_run(siblings, ReclaimBoundary::Unpublished, true)),
        "unpublished root productive run has sibling runs"
    );
    let mut logged = facts();
    logged.records = Ok(vec![definition_record(), definition_record()]);
    assert_eq!(
        protocol_text(reclaim_productive_run(logged, ReclaimBoundary::Unpublished, false)),
        "unpublished productive run has committed run-log records"
    );
}

#[test]
fn a_reclamation_goes_to_its_end_or_recovers() {
    let mut reclamation = RunReclamation::start(true);
    let mut actions = Vec::new();
    while reclamation.action != ReclaimAction::Done {
        actions.push(reclamation.action);
        reclamation.advance(Ok(()));
    }
    let place = |wanted: ReclaimAction| {
        actions.iter().position(|action| *action == wanted).expect("the action is taken")
    };
    assert!(place(ReclaimAction::RecordTransaction) < place(ReclaimAction::RemoveRun));
    assert!(place(ReclaimAction::FinishTransaction) < place(ReclaimAction::RemoveConversation));
    assert!(reclamation.failures.is_empty());
    let mut failed = RunReclamation::start(false);
    while failed.action != ReclaimAction::RemoveRun {
        failed.advance(Ok(()));
    }
    failed.advance(Err(protocol("io")));
    assert_eq!(failed.action, ReclaimAction::RecoverAfterFailure);
    failed.advance(Ok(()));
    assert_eq!(failed.action, ReclaimAction::Done);
    assert_eq!(failed.failures.len(), 1);
}

fn header() -> RecoveryHeader {
    RecoveryHeader {
        schema: PRODUCTIVE_RECOVERY_SCHEMA_V0.to_owned(),
        conversation_id: checked("talk"),
        run_session_id: checked("run"),
        flow_definition_id: checked("flow"),
        registry_hash: hash(),
        flow_definition_hash: hash(),
        root_input: RootInput::Null,
        parent_entry_id: None,
        event_clock_base_unix_seconds: 7,
        prior_history_object: ObjectUri {
            uri: format!("flow-object:sha256:{ABC_DIGEST}"),
            digest: Some(ABC_DIGEST.to_owned()),
        },
        prior_event_count: 0,
    }
}

#[test]
fn a_creation_left_behind_must_be_its_own() {
    let record = ProductiveRecoveryRecord::Header(header());
    assert!(validate_productive_run_creation_header(&record, "{}", "talk", "run").is_ok());
    assert_eq!(
        protocol_text(validate_productive_run_creation_header(&record, "{}", "talk", "other")),
        "productive run creation header does not match its addressed run"
    );
    assert!(validate_productive_run_creation_recovery(&vec![b"{}".to_vec()], "{}").is_ok());
    assert_eq!(
        protocol_text(validate_productive_run_creation_recovery(&vec![b"[]".to_vec()], "{}")),
        "productive run creation recovery is not its exact expected header"
    );
    let object = header().prior_history_object;
    assert!(validate_productive_run_creation_object(
        &object,
        Ok(true),
        Ok(vec![ABC_DIGEST.to_owned()]),
        Ok(()),
        Ok(())
    )
    .is_ok());
    assert_eq!(
        protocol_text(validate_productive_run_creation_object(
            &object,
            Ok(false),
            Ok(Vec::new()),
            Ok(()),
            Ok(())
        )),
        "productive run creation objects are missing"
    );
    assert_eq!(
        protocol_text(validate_productive_run_creation_object(
            &object,
            Ok(true),
            Ok(vec!["x".to_owned(), ABC_DIGEST.to_owned()]),
            Ok(()),
            Ok(())
        )),
        "productive run creation object inventory differs from its recovery header"
    );
    assert!(remove_unpublished_productive_run_marker(RealFile::File).expect("it is a file"));
    assert!(!remove_unpublished_productive_run_marker(RealFile::Missing).expect("none is there"));
    assert_eq!(
        protocol_text(remove_unpublished_productive_run_marker(RealFile::NotAFile)),
        "unpublished productive run marker must be a real file"
    );
}

#[test]
fn inventories_are_exact() {
    assert!(validate_reclaimable_conversation_inventory(listed(&[
        CONVERSATION_HISTORY_LEAF,
        CONVERSATION_RUNS_DIR,
        CONVERSATION_STATUS_LEAF
    ]))
    .is_ok());
    assert_eq!(
        protocol_text(validate_reclaimable_conversation_inventory(listed(&[
            CONVERSATION_HISTORY_LEAF,
            CONVERSATION_RUNS_DIR
        ]))),
        "conversation reclamation root inventory is incomplete"
    );
    let marker = run_creation_identity_marker_name(IDENTITY);
    assert!(
        validate_productive_run_reclaim_inventory(run_names(&marker), &marker, true, false).is_ok()
    );
    assert_eq!(
        protocol_text(validate_productive_run_reclaim_inventory(
            listed(&["x"]),
            &marker,
            false,
            false
        )),
        "unpublished productive run has an unknown entry"
    );
    assert_eq!(
        protocol_text(validate_productive_run_reclaim_inventory(
            listed(&[RUN_LOG_LEAF]),
            &marker,
            false,
            false
        )),
        "productive run reclaim inventory is incomplete"
    );
}

#[test]
fn a_lifecycle_is_marked_by_its_directory() {
    let marker = conversation_lifecycle_identity_marker_name(IDENTITY);
    assert_eq!(
        prepare_conversation_lifecycle_marker(Ok(IDENTITY), MarkerLook::Missing)
            .expect("there is none yet"),
        marker
    );
    assert_eq!(
        protocol_text(prepare_conversation_lifecycle_marker(Ok(IDENTITY), MarkerLook::Found)),
        "conversation lifecycle marker already exists"
    );
    assert!(clear_conversation_lifecycle_marker(Ok(IDENTITY), &marker).is_ok());
    assert!(clear_conversation_lifecycle_marker(Ok(OTHER), &marker).is_err());
    assert!(matches!(
        finish_incomplete_conversation_lifecycle(IDENTITY, listed(&[CONVERSATION_HISTORY_LEAF])),
        Ok(LifecycleState::Settled)
    ));
    match finish_incomplete_conversation_lifecycle(
        IDENTITY,
        listed(&[CONVERSATION_HISTORY_LEAF, marker.as_str()]),
    ) {
        Ok(LifecycleState::Incomplete { entries, marker: found }) => {
            assert_eq!(found, marker);
            assert_eq!(entries.len(), 2);
            let removal = remove_lifecycle_root_contents(&entries, &found);
            assert!(!removal.runs);
            assert_eq!(removal.leaves, vec![CONVERSATION_HISTORY_LEAF.to_owned()]);
        }
        _ => panic!("expected an incomplete lifecycle"),
    }
    assert_eq!(
        protocol_text(remove_verified_conversation(None, IDENTITY)),
        "conversation lifecycle directory disappeared"
    );
}

#[test]
fn runs_of_a_lifecycle_are_known() {
    let stage = format!(".run-run-{ABC_DIGEST}.staged");
    assert_eq!(staged_run(&stage), Some(("run".to_owned(), ABC_DIGEST.to_owned())));
    assert!(valid_run_creation_stage_name(&stage, true));
    assert!(!valid_run_creation_stage_name("run", true));
    assert_eq!(lifecycle_runs(listed(&["a"])).map(|runs| runs.len()).unwrap_or(0), 1);
    assert_eq!(
        protocol_text(lifecycle_runs(listed(&["b", "a"]))),
        "conversation lifecycle runs has too many entries"
    );
    assert!(validate_lifecycle_runs(Some(RunOfLifecycle {
        leaf: "run".to_owned(),
        valid: true,
        staged_valid: false,
        found: Ok(true),
        accepted: Ok(()),
    }))
    .is_ok());
    assert_eq!(
        protocol_text(validate_lifecycle_runs(Some(RunOfLifecycle {
            leaf: "Run".to_owned(),
            valid: false,
            staged_valid: false,
            found: Ok(true),
            accepted: Ok(()),
        }))),
        "conversation lifecycle runs contain an unknown entry"
    );
    let marker = run_creation_identity_marker_name(IDENTITY);
    let run = validate_lifecycle_run(
        listed(&[RUN_LOG_LEAF, RUN_OBJECTS_DIR, marker.as_str()]),
        Ok(IDENTITY),
    )
    .expect("every entry is known");
    assert!(run.objects);
    assert_eq!(
        protocol_text(validate_lifecycle_run(listed(&[RUN_LOG_LEAF]), Ok(IDENTITY))),
        "conversation lifecycle Run identity marker is missing"
    );
    assert!(validate_lifecycle_objects(listed(&[ABC_DIGEST]), 1).is_ok());
    assert!(protocol_text(validate_lifecycle_objects(listed(&["a", "b"]), 1))
        .starts_with("conversation lifecycle objects"));
    assert!(validate_lifecycle_root(vec![
        LifecycleLeaf::File(Ok(())),
        LifecycleLeaf::Directory { found: Ok(true), accepted: Ok(()) }
    ])
    .is_ok());
}

#[test]
fn the_marker_of_a_run_goes_last() {
    let marker = run_creation_identity_marker_name(IDENTITY);
    let entries = sorted(&[RUN_LOG_LEAF, RUN_OBJECTS_DIR, marker.as_str()]);
    let objects = sorted(&["o1", "o2"]);
    let actions = remove_lifecycle_runs(&entries, Some(&objects), IDENTITY);
    let files: Vec<&str> = actions
        .iter()
        .filter_map(|action| match action {
            LifecycleAction::RemoveFile(leaf) => Some(leaf.as_str()),
            _ => None,
        })
        .collect();
    assert_eq!(files, vec![RUN_LOG_LEAF, marker.as_str()]);
    let objects_removed = actions
        .iter()
        .filter(|action| matches!(action, LifecycleAction::RemoveObject(_)))
        .count();
    assert_eq!(objects_removed, 2);
    assert!(matches!(actions.last(), Some(LifecycleAction::RemoveRun)));
}

#[test]
fn a_run_that_is_not_there_is_nothing_to_take_back() {
    let mut search = ReclaimSearch::begin(&checked("talk"), &checked("run")).expect("valid ids");
    assert!(!search.root);
    let mut stages = Vec::new();
    for answer in [false, true, true, true, true, true] {
        stages.push(search.stage);
        search.advance(Ok(answer)).expect("nothing failed");
    }
    assert_eq!(
        stages,
        vec![
            ReclaimStage::FinishLifecycle,
            ReclaimStage::FindConversation,
            ReclaimStage::RecoverStatus,
            ReclaimStage::ReadSummary,
            ReclaimStage::OpenRuns,
            ReclaimStage::FindRun,
        ]
    );
    assert_eq!(search.stage, ReclaimStage::Judge);

    for missing in [ReclaimStage::FindConversation, ReclaimStage::FindRun] {
        let mut search = ReclaimSearch { root: true, stage: missing };
        search.advance(Ok(false)).expect("nothing failed");
        assert_eq!(search.stage, ReclaimStage::Nothing);
    }
    let mut finished = ReclaimSearch::begin(&checked("run"), &checked("run")).expect("valid ids");
    assert!(finished.root);
    finished.advance(Ok(true)).expect("nothing failed");
    assert_eq!(finished.stage, ReclaimStage::Nothing);

    let mut failing = ReclaimSearch { root: false, stage: ReclaimStage::ReadSummary };
    assert_eq!(protocol_text(failing.advance(Err(protocol("summary")))), "summary");
    assert_eq!(failing.stage, ReclaimStage::ReadSummary);
    let invalid = Checked { text: "..".to_owned(), valid: false };
    assert!(ReclaimSearch::begin(&checked("talk"), &invalid).is_err());
}

#[test]
fn a_run_of_an_unsound_request_is_not_begun() {
    let mut bad = request(false);
    bad.flow_definition_id.valid = false;
    assert_eq!(
        protocol_text(RunCreation::create_conversation_run_with_publication_marker(&bad, true)),
        "Flow definition id is invalid"
    );
}
