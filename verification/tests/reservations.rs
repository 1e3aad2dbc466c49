use flow_agent_core::contract::{Checked, RUN_LOG_RECORD_SCHEMA_V1};
use flow_agent_core::error::RuntimeError;
use flow_agent_core::history::model::{
    ConversationEntry, ConversationEntryType, CONVERSATION_ENTRY_SCHEMA_V1,
};
use flow_agent_core::runs::attempts::{
    RunAttemptIntent, RunAttemptKind, RunAttemptLifecycle, RunAttemptState, RunDefinition,
    RunLogRecord,
};
use flow_agent_core::runs::continuation::{Continuation, ContinuationStage, LookReply};
use flow_agent_core::runs::objects::ObjectUri;
use flow_agent_core::runs::ownership::{with_conversation_run_ownership, OwnershipStage};
use flow_agent_core::runs::recovery::{
    ParsedRecord, ProductiveRecoveryRecord, RecoveryHeader, RootInput,
    PRODUCTIVE_RECOVERY_SCHEMA_V0,
};
use flow_agent_core::runs::reservation::{CandidateSearch, CandidateStage};
use flow_agent_core::runs::resumption::{ContextLine, EventLine, RecoveryStep, RunRecovery};
use flow_agent_core::runs::selection::{
    check_ancestry_attempts, conversation_run_definition, AncestryEvents,
};

const ABC_DIGEST: &str = "ba7816bf8f01cfea414140de5dae2223b00361a396177a9cb410ff61f20015ad";

fn checked(text: &str) -> Checked {
    Checked { text: text.to_owned(), valid: true }
}

fn unchecked(text: &str) -> Checked {
    Checked { text: text.to_owned(), valid: false }
}

fn hash() -> String {
    format!("sha256:{ABC_DIGEST}")
}

fn protocol(text: &str) -> RuntimeError {
    RuntimeError::Protocol(text.to_owned())
}

fn active() -> RuntimeError {
    RuntimeError::ActiveSession("busy".to_owned())
}

fn message(error: &RuntimeError) -> String {
    match error {
        RuntimeError::Protocol(text) => text.clone(),
        RuntimeError::PersistedState(text) => text.clone(),
        RuntimeError::TerminalSession(text) => text.clone(),
        RuntimeError::ActiveSession(text) => text.clone(),
        RuntimeError::Usage(text) => text.clone(),
        RuntimeError::Json(text) => text.clone(),
        other => panic!("unexpected failure {other:?}"),
    }
}

fn messages(errors: &[RuntimeError]) -> Vec<String> {
    errors.iter().map(message).collect()
}

fn uri() -> ObjectUri {
    ObjectUri {
        uri: format!("flow-object:sha256:{ABC_DIGEST}"),
        digest: Some(ABC_DIGEST.to_owned()),
    }
}

fn header() -> RecoveryHeader {
    RecoveryHeader {
        schema: PRODUCTIVE_RECOVERY_SCHEMA_V0.to_owned(),
        conversation_id: checked("talk"),
        run_session_id: checked("run"),
        flow_definition_id: checked("flow"),
        registry_hash: hash(),
        flow_definition_hash: hash(),
        root_input: RootInput::Value { canonical: "{\"v\":1}".to_owned(), fault: None },
        parent_entry_id: None,
        event_clock_base_unix_seconds: 7,
        prior_history_object: uri(),
        prior_event_count: 3,
    }
}

fn parsed(record: ProductiveRecoveryRecord) -> ParsedRecord {
    ParsedRecord { canonical: Ok("{}".to_owned()), record: Ok(record) }
}

fn terminal_record() -> ProductiveRecoveryRecord {
    ProductiveRecoveryRecord::Terminal {
        schema: PRODUCTIVE_RECOVERY_SCHEMA_V0.to_owned(),
        failed: false,
        history_object: uri(),
        cumulative_event_count: 5,
    }
}

fn definition_records(flow: &str) -> Vec<RunLogRecord> {
    vec![RunLogRecord::Definition {
        schema: RUN_LOG_RECORD_SCHEMA_V1.to_owned(),
        definition: RunDefinition {
            flow_definition_id: checked(flow),
            registry_hash: hash(),
            flow_definition_hash: hash(),
            model: None,
            model_profile_id: None,
            model_context_limit: None,
            output_reserve: None,
            safety_margin: None,
            legacy_session_id: None,
            legacy_source_manifest: None,
        },
    }]
}

fn uncertain_attempt() -> RunAttemptState {
    RunAttemptState {
        intent: RunAttemptIntent {
            attempt_id: checked("a"),
            attempt_kind: RunAttemptKind::Provider,
            expected_enforcement: None,
            request_hash: hash(),
            timestamp: checked("2026-01-01T00:00:00Z"),
            tool_id: None,
        },
        lifecycle: RunAttemptLifecycle::Uncertain,
        outcome: None,
    }
}

fn entry() -> ConversationEntry {
    ConversationEntry {
        schema: CONVERSATION_ENTRY_SCHEMA_V1.to_owned(),
        entry_id: checked("entry-1"),
        parent_entry_id: None,
        recovery_snapshot_hash: Some(ABC_DIGEST.to_owned()),
        run_session_id: checked("run"),
        event_sequence: 4,
        entry_type: ConversationEntryType::Checkpoint,
        timestamp: checked("2026-01-01T00:00:00Z"),
    }
}

#[test]
fn leases_are_given_back_in_reverse() {
    let mut ownership = with_conversation_run_ownership(&checked("talk"), &checked("run"), false)
        .expect("the identifiers are sound");
    for expected in [
        OwnershipStage::Locate,
        OwnershipStage::EnsureStore,
        OwnershipStage::AcquireConversation,
        OwnershipStage::AcquireRun,
        OwnershipStage::Operating,
        OwnershipStage::ReleaseRun,
        OwnershipStage::ReleaseConversation,
    ] {
        assert_eq!(ownership.stage, expected);
        ownership.advance(Ok(()));
    }
    assert_eq!(ownership.stage, OwnershipStage::Released);
    assert!(ownership.failures.is_empty());

    let mut blocked = with_conversation_run_ownership(&checked("talk"), &checked("run"), true)
        .expect("the identifiers are sound");
    blocked.advance(Ok(()));
    blocked.advance(Ok(()));
    blocked.advance(Ok(()));
    blocked.advance(Err(active()));
    assert_eq!(blocked.stage, OwnershipStage::ReleaseConversation);
    blocked.advance(Err(protocol("store")));
    assert_eq!(blocked.stage, OwnershipStage::Released);
    assert_eq!(messages(&blocked.failures), vec!["busy", "store"]);

    match with_conversation_run_ownership(&unchecked("Talk"), &checked("run"), false) {
        Err(error) => assert_eq!(message(&error), "invalid conversation id"),
        Ok(_) => panic!("expected a refusal"),
    }
    match with_conversation_run_ownership(&checked("talk"), &unchecked("Run"), false) {
        Err(error) => assert_eq!(message(&error), "invalid run session id"),
        Ok(_) => panic!("expected a refusal"),
    }
}

fn searching(maximum: u64) -> CandidateSearch {
    let mut search = CandidateSearch::reserve_new_conversation_run(&checked("talk"), maximum)
        .expect("the identifier is sound");
    search.advance(Ok(()));
    search.advance(Ok(()));
    search
}

#[test]
fn a_free_candidate_is_reserved() {
    let mut search = searching(2);
    assert_eq!(search.stage, CandidateStage::AcquireConversation);
    assert_eq!(search.ordinal, 1);
    search.advance(Err(active()));
    assert_eq!(search.stage, CandidateStage::AcquireConversation);
    assert_eq!(search.ordinal, 2);
    search.advance(Ok(()));
    search.advance(Ok(()));
    assert_eq!(search.stage, CandidateStage::Reclaim);
    search.advance(Ok(()));
    assert_eq!(search.stage, CandidateStage::Inspect);
    search.inspected(Ok(false));
    assert_eq!(search.stage, CandidateStage::Reserved);
    assert_eq!(search.ordinal, 2);
    assert!(search.failures.is_empty());
}

#[test]
fn a_search_runs_out_of_candidates() {
    let mut search = searching(1);
    search.advance(Ok(()));
    search.advance(Ok(()));
    search.advance(Ok(()));
    search.inspected(Ok(true));
    assert_eq!(search.stage, CandidateStage::VacateRun);
    search.advance(Ok(()));
    search.advance(Ok(()));
    assert_eq!(search.stage, CandidateStage::Failed);
    assert_eq!(
        messages(&search.failures),
        vec!["could not allocate a unique conversation id for talk"]
    );

    let mut waiting = searching(1);
    waiting.advance(Ok(()));
    waiting.advance(Err(active()));
    assert_eq!(waiting.stage, CandidateStage::GiveUp);
    waiting.advance(Err(protocol("release")));
    assert_eq!(waiting.stage, CandidateStage::Failed);
    assert_eq!(messages(&waiting.failures), vec!["busy", "release"]);

    let mut broken = searching(3);
    broken.advance(Ok(()));
    broken.advance(Ok(()));
    broken.advance(Err(protocol("reclaim")));
    assert_eq!(broken.stage, CandidateStage::AbandonRun);
    broken.advance(Err(protocol("run")));
    broken.advance(Err(protocol("conversation")));
    assert_eq!(broken.stage, CandidateStage::Failed);
    assert_eq!(messages(&broken.failures), vec!["reclaim", "run", "conversation"]);
}

fn continuing() -> Continuation {
    let mut continuation =
        Continuation::reserve_conversation_continuation(&checked("talk"), None, 2)
            .expect("the identifiers are sound");
    continuation.advance(Ok(()));
    continuation.advance(Ok(()));
    continuation.advance(Ok(()));
    assert_eq!(continuation.stage, ContinuationStage::ReadHistory);
    continuation
}

#[test]
fn a_conversation_without_entries_is_not_continued() {
    let mut continuation = continuing();
    continuation.history_read(Ok((None, None)));
    assert_eq!(continuation.stage, ContinuationStage::CloseHistory);
    continuation.advance(Ok(()));
    assert_eq!(continuation.stage, ContinuationStage::ReleaseConversation);
    continuation.advance(Ok(()));
    assert_eq!(continuation.stage, ContinuationStage::Failed);
    assert_eq!(
        messages(&continuation.failures),
        vec!["conversation talk has no committed entry to continue"]
    );

    let mut missing = Continuation::reserve_conversation_continuation(
        &checked("talk"),
        Some(checked("entry-9")),
        2,
    )
    .expect("the identifiers are sound");
    missing.advance(Ok(()));
    missing.advance(Ok(()));
    missing.advance(Ok(()));
    missing.history_read(Ok((None, Some(entry()))));
    assert_eq!(
        messages(&missing.failures),
        vec!["conversation talk has no entry entry-9"]
    );

    let mut unread = continuing();
    unread.history_read(Err(protocol("index")));
    assert_eq!(unread.stage, ContinuationStage::ReleaseConversation);
}

#[test]
fn uncertain_attempts_stop_a_continuation() {
    let mut continuation = continuing();
    continuation.history_read(Ok((None, Some(entry()))));
    assert_eq!(continuation.stage, ContinuationStage::InspectAttempts);
    continuation.attempts_inspected(Ok(vec![uncertain_attempt()]));
    assert_eq!(
        messages(&continuation.failures),
        vec![
            "selected conversation run run has 1 uncertain productive attempt(s); reconcile them from external evidence before continuation"
        ]
    );
    match check_ancestry_attempts(&entry(), &vec![uncertain_attempt()]) {
        Err(error) => assert_eq!(
            message(&error),
            "conversation ancestry run run has 1 uncertain productive attempt(s); reconcile them from external evidence before continuation"
        ),
        Ok(()) => panic!("expected a refusal"),
    }
}

#[test]
fn a_snapshot_must_be_the_one_that_the_entry_names() {
    let mut continuation = continuing();
    continuation.history_read(Ok((None, Some(entry()))));
    continuation.attempts_inspected(Ok(Vec::new()));
    assert_eq!(continuation.stage, ContinuationStage::ReadSnapshot);
    let records = vec![
        parsed(ProductiveRecoveryRecord::Header(header())),
        parsed(terminal_record()),
    ];
    continuation.snapshot_read(Ok(b"{}\n{}\n".to_vec()), records);
    assert_eq!(
        messages(&continuation.failures),
        vec!["productive recovery snapshot does not match its conversation entry hash"]
    );
}

#[test]
fn a_continuation_gets_the_first_run_that_is_absent() {
    use_snapshot(|mut continuation| {
        continuation.object_read(Ok(()), Ok(()));
        assert_eq!(continuation.stage, ContinuationStage::ReadDefinition);
        assert_eq!(continuation.prior_event_count, 5);
        continuation.definition_read(Ok(definition_records("flow")));
        assert_eq!(continuation.stage, ContinuationStage::OpenRuns);
        assert!(!continuation.legacy_definition);
        continuation.advance(Ok(()));
        assert_eq!(continuation.stage, ContinuationStage::Look);
        continuation.looked(LookReply::Present);
        assert_eq!(continuation.ordinal, 2);
        continuation.looked(LookReply::Absent);
        continuation.advance(Ok(()));
        assert_eq!(continuation.stage, ContinuationStage::LookAgain);
        continuation.looked(LookReply::Absent);
        assert_eq!(continuation.stage, ContinuationStage::CloseHistory);
        continuation.advance(Ok(()));
        assert_eq!(continuation.stage, ContinuationStage::Reserved);
        assert_eq!(continuation.ordinal, 2);
    });
    use_snapshot(|mut continuation| {
        continuation.object_read(Ok(()), Ok(()));
        continuation.definition_read(Ok(definition_records("flow")));
        continuation.advance(Ok(()));
        continuation.looked(LookReply::Absent);
        continuation.advance(Ok(()));
        continuation.looked(LookReply::Failed(protocol("stat")));
        assert_eq!(continuation.stage, ContinuationStage::Abandon);
        continuation.advance(Err(protocol("release")));
        continuation.advance(Ok(()));
        continuation.advance(Ok(()));
        assert_eq!(continuation.stage, ContinuationStage::Failed);
        assert_eq!(messages(&continuation.failures), vec!["stat", "release"]);
    });
    use_snapshot(|mut continuation| {
        continuation.object_read(Ok(()), Ok(()));
        continuation.definition_read(Ok(definition_records("flow")));
        continuation.advance(Ok(()));
        continuation.looked(LookReply::Present);
        continuation.looked(LookReply::Absent);
        continuation.advance(Err(active()));
        assert_eq!(
            messages(&continuation.failures),
            vec!["could not allocate a unique run id for conversation talk"]
        );
    });
}

fn use_snapshot(check: impl FnOnce(Continuation)) {
    let mut continuation = continuing();
    let mut selected = entry();
    selected.recovery_snapshot_hash =
        Some(flow_agent_core::digest::sha256_hex(b"{}\n{}\n"));
    continuation.history_read(Ok((None, Some(selected))));
    continuation.attempts_inspected(Ok(Vec::new()));
    let records = vec![
        parsed(ProductiveRecoveryRecord::Header(header())),
        parsed(terminal_record()),
    ];
    continuation.snapshot_read(Ok(b"{}\n{}\n".to_vec()), records);
    assert_eq!(continuation.stage, ContinuationStage::ReadHistoryObject);
    check(continuation);
}

fn recovering() -> RunRecovery {
    let mut recovery =
        RunRecovery::reserve_conversation_run_recovery(&checked("talk"), &checked("run"))
            .expect("the identifiers are sound");
    for _ in 0..4 {
        recovery.hold(Ok(()));
    }
    assert_eq!(recovery.ownership.stage, OwnershipStage::Operating);
    recovery
}

#[test]
fn an_interrupted_run_is_reserved() {
    let mut recovery = recovering();
    recovery.history_searched(Ok(false));
    recovery.attempts_inspected(Ok(Vec::new()));
    recovery.event_line(EventLine::Line(Ok(())));
    recovery.event_line(EventLine::End);
    recovery.context_line(ContextLine::Line("{}\n".to_owned(), Ok("{}".to_owned())));
    recovery.context_line(ContextLine::End);
    assert_eq!(recovery.step, RecoveryStep::ReadHeader);
    recovery.header_read(
        Ok(Some(b"{}".to_vec())),
        parsed(ProductiveRecoveryRecord::Header(header())),
    );
    recovery.definition_read(Ok(definition_records("flow")));
    recovery.history_object_read(Ok(()));
    assert_eq!(recovery.step, RecoveryStep::Finished);
    assert_eq!(recovery.ownership.stage, OwnershipStage::Kept);
    let reservation = recovery.reservation.as_ref().expect("the run is reserved");
    assert_eq!(reservation.event_clock_base_unix_seconds, 7);
    assert_eq!(reservation.prior_event_count, 3);
    assert_eq!(reservation.root_input.as_deref(), Some("{\"v\":1}"));
    recovery.hold(Ok(()));
    recovery.hold(Ok(()));
    recovery.hold(Ok(()));
    assert_eq!(recovery.ownership.stage, OwnershipStage::Released);
}

fn refused(recovery: &RunRecovery) -> String {
    assert_eq!(recovery.ownership.stage, OwnershipStage::ReleaseRun);
    assert_eq!(recovery.ownership.failures.len(), 1);
    message(&recovery.ownership.failures[0])
}

#[test]
fn a_run_that_ended_is_not_recovered() {
    let mut ended = recovering();
    ended.history_searched(Ok(true));
    assert!(matches!(ended.ownership.failures[0], RuntimeError::TerminalSession(_)));
    assert_eq!(refused(&ended), "run");

    let mut uncertain = recovering();
    uncertain.history_searched(Ok(false));
    uncertain.attempts_inspected(Ok(vec![uncertain_attempt()]));
    assert_eq!(
        refused(&uncertain),
        "run run has 1 uncertain productive attempt(s); reconcile them from external evidence before Resume"
    );
}

#[test]
fn a_prefix_that_is_not_sound_is_not_recovered() {
    let mut events = recovering();
    events.history_searched(Ok(false));
    events.attempts_inspected(Ok(Vec::new()));
    events.event_line(EventLine::Line(Err(protocol("sequence"))));
    assert_eq!(refused(&events), "sequence");

    let mut contexts = recovering();
    contexts.history_searched(Ok(false));
    contexts.attempts_inspected(Ok(Vec::new()));
    contexts.event_line(EventLine::End);
    contexts.context_line(ContextLine::Line("{ }\n".to_owned(), Ok("{}".to_owned())));
    assert_eq!(
        refused(&contexts),
        "productive recovery context prefix is not canonical JSONL"
    );

    let mut torn = recovering();
    torn.history_searched(Ok(false));
    torn.attempts_inspected(Ok(Vec::new()));
    torn.event_line(EventLine::End);
    torn.context_line(ContextLine::Line("{\n".to_owned(), Ok("{}".to_owned())));
    assert!(refused(&torn).starts_with("productive recovery context prefix is invalid JSON: EOF"));
}

#[test]
fn a_header_must_fit_its_run() {
    let reading = || {
        let mut recovery = recovering();
        recovery.history_searched(Ok(false));
        recovery.attempts_inspected(Ok(Vec::new()));
        recovery.event_line(EventLine::End);
        recovery.context_line(ContextLine::End);
        recovery
    };
    let mut missing = reading();
    missing.header_read(Ok(None), parsed(terminal_record()));
    assert_eq!(refused(&missing), "productive recovery snapshot has no committed header");

    let mut other = reading();
    let mut strange = header();
    strange.run_session_id = checked("other");
    other.header_read(
        Ok(Some(b"{}".to_vec())),
        parsed(ProductiveRecoveryRecord::Header(strange)),
    );
    assert_eq!(refused(&other), "productive recovery header does not match its addressed run");

    let mut conflict = reading();
    conflict.header_read(
        Ok(Some(b"{}".to_vec())),
        parsed(ProductiveRecoveryRecord::Header(header())),
    );
    conflict.definition_read(Ok(definition_records("other")));
    assert_eq!(
        refused(&conflict),
        "productive recovery header conflicts with the run definition"
    );
}

#[test]
fn a_definition_is_read_off_the_log() {
    let records = definition_records("flow");
    let found = conversation_run_definition(&records, "run", &None).expect("a definition");
    assert!(!found.legacy_definition);
    assert_eq!(found.definition.flow_definition_id.text, "flow");
    match conversation_run_definition(&Vec::new(), "run", &None) {
        Err(error) => {
            assert_eq!(message(&error), "run log must begin with a definition record");
        }
        Ok(_) => panic!("expected a refusal"),
    }
    let mut legacy = entry();
    legacy.entry_type = ConversationEntryType::LegacyRun;
    match conversation_run_definition(&records, "run", &Some(legacy)) {
        Err(error) => {
            assert_eq!(message(&error), "run log legacy definition identity is invalid");
        }
        Ok(_) => panic!("expected a refusal"),
    }
}

#[test]
fn the_events_of_an_ancestry_are_counted_up_to_its_entry() {
    let selected = entry();
    let mut events = AncestryEvents::conversation_entry_ancestry_history();
    events.begin_entry();
    for sequence in 1..=6u64 {
        assert_eq!(events.observe(sequence, &selected), sequence <= 4);
    }
    assert!(events.end_entry(&selected).is_ok());
    assert_eq!(events.event_count, 4);
    events.begin_entry();
    match events.end_entry(&selected) {
        Err(error) => assert_eq!(
            message(&error),
            "conversation entry entry-1 does not address a committed event"
        ),
        Ok(()) => panic!("expected a refusal"),
    }
}
