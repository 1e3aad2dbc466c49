use flow_agent_core::contract::{Checked, RUN_LOG_RECORD_SCHEMA_V1};
use flow_agent_core::error::RuntimeError;
use flow_agent_core::keyed::KeyedList;
use flow_agent_core::runs::attempts::{
    inspect_run_attempts, validate_attempt_tool_identity, validate_tool_enforcement_expectation,
    AttemptStates, RunAttemptIntent, RunAttemptKind, RunAttemptLedger, RunAttemptLifecycle,
    RunAttemptResult, RunDefinition, RunLogRecord, TerminalRecord, ToolEnforcementExpectation,
};
use flow_agent_core::runs::objects::{
    check_stored_size, read_run_object_uri, validate_recovery_object_uri, ContextObject,
    ExistingObject, ObjectLimits, ObjectListing, ObjectUri, PersistStage, RunObjectStore,
    RunObjectUsageSnapshot,
};
use flow_agent_core::runs::page::{project_tool_run_log, LoggedRecord};
use flow_agent_core::runs::recovery::{
    check_record_position, parse_productive_recovery_record, parse_productive_recovery_records,
    snapshot_lines, validate_productive_recovery_record, ParsedRecord, ProductiveRecoveryRecord,
    RecoveredAttempt, RecoveryHeader, RootInput, PRODUCTIVE_RECOVERY_SCHEMA_V0,
};
use flow_agent_core::runs::replay::{
    committed_snapshot_len, completed_recovery_attempts, persist_value, AttemptRequest,
    BoundaryStep, PhaseBoundary, ProductiveRecoveryWriter, Recovery, RecoveryAttempt,
};
use flow_agent_core::runs::serial::{ConversationWriterBackend, EventOutcome};
use flow_agent_core::runs::storage::{
    canonical_json, ensure_productive_metadata_growth, existing_anchored_conversation,
    existing_anchored_run, productive_metadata_bytes, productive_storage_usage, BoundedNames,
    RunPlace, StreamInventory,
};
use flow_agent_core::runs::writer::{
    recovery_prefix_error, repair_context_only_tail, validate_context_manifest_pairing,
    AppendFailure, ConversationEventWriter, OpeningStage, RecoveryOpening, RepairOutcome,
    ReplayNext,
};
use flow_agent_core::stream::writer::CanonicalForm;

const ABC_DIGEST: &str = "ba7816bf8f01cfea414140de5dae2223b00361a396177a9cb410ff61f20015ad";
const EMPTY_DIGEST: &str = "e3b0c44298fc1c149afbf4c8996fb92427ae41e4649b934ca495991b7852b855";

fn checked(text: &str) -> Checked {
    Checked { text: text.to_owned(), valid: true }
}

fn unchecked(text: &str) -> Checked {
    Checked { text: text.to_owned(), valid: false }
}

fn hash() -> String {
    format!("sha256:{ABC_DIGEST}")
}

fn protocol(text: &str) -> RuntimeError {
    RuntimeError::Protocol(text.to_owned())
}

fn protocol_text<T>(result: Result<T, RuntimeError>) -> String {
    match result {
        Err(RuntimeError::Protocol(text)) => text,
        Err(other) => panic!("expected a protocol error, got {other:?}"),
        Ok(_) => panic!("expected a protocol error"),
    }
}

fn usage_text<T>(result: Result<T, RuntimeError>) -> String {
    match result {
        Err(RuntimeError::Usage(text)) => text,
        Err(other) => panic!("expected a usage error, got {other:?}"),
        Ok(_) => panic!("expected a usage error"),
    }
}

fn definition() -> RunDefinition {
    RunDefinition {
        flow_definition_id: checked("flow"),
        registry_hash: hash(),
        flow_definition_hash: hash(),
        model: None,
        model_profile_id: None,
        model_context_limit: None,
        output_reserve: None,
        safety_margin: None,
        legacy_session_id: None,
        legacy_source_manifest: None,
    }
}

fn definition_record() -> RunLogRecord {
    RunLogRecord::Definition {
        schema: RUN_LOG_RECORD_SCHEMA_V1.to_owned(),
        definition: definition(),
    }
}

fn tool_intent(id: &str) -> RunAttemptIntent {
    RunAttemptIntent {
        attempt_id: checked(id),
        attempt_kind: RunAttemptKind::Tool,
        expected_enforcement: Some(ToolEnforcementExpectation {
            applied_policy_digest: ABC_DIGEST.to_owned(),
            max_concurrent_processes_and_threads: 4,
        }),
        request_hash: hash(),
        timestamp: checked("2026-01-01T00:00:00Z"),
        tool_id: Some(checked("grep")),
    }
}

fn tool_result(id: &str) -> RunAttemptResult {
    RunAttemptResult {
        attempt_id: checked(id),
        attempt_kind: RunAttemptKind::Tool,
        outcome: "completed".to_owned(),
        classification: None,
        exit_code: Some(0),
        timestamp: checked("2026-01-01T00:00:01Z"),
        durable_output: Some("out".to_owned()),
    }
}

fn intent_record(id: &str) -> RunLogRecord {
    RunLogRecord::Intent {
        schema: RUN_LOG_RECORD_SCHEMA_V1.to_owned(),
        intent: tool_intent(id),
    }
}

fn result_record(id: &str) -> RunLogRecord {
    RunLogRecord::TerminalResult {
        schema: RUN_LOG_RECORD_SCHEMA_V1.to_owned(),
        terminal: TerminalRecord {
            result: tool_result(id),
            tool_id: Some(checked("grep")),
        },
    }
}

fn uri(digest: &str) -> ObjectUri {
    ObjectUri {
        uri: format!("flow-object:sha256:{digest}"),
        digest: Some(digest.to_owned()),
    }
}

fn header() -> RecoveryHeader {
    RecoveryHeader {
        schema: PRODUCTIVE_RECOVERY_SCHEMA_V0.to_owned(),
        conversation_id: checked("talk"),
        run_session_id: checked("run"),
        flow_definition_id: checked("flow"),
        registry_hash: hash(),
        flow_definition_hash: hash(),
        root_input: RootInput::Null,
        parent_entry_id: None,
        event_clock_base_unix_seconds: 7,
        prior_history_object: uri(ABC_DIGEST),
        prior_event_count: 3,
    }
}

fn recovered_attempt(id: &str) -> RecoveredAttempt {
    RecoveredAttempt {
        schema: PRODUCTIVE_RECOVERY_SCHEMA_V0.to_owned(),
        attempt_id: checked(id),
        request_hash: hash(),
        outcome: "completed".to_owned(),
        classification: None,
        exit_code: Some(0),
        timestamp: checked("2026-01-01T00:00:01Z"),
        durable_output: "out".to_owned(),
    }
}

fn terminal_record() -> ProductiveRecoveryRecord {
    ProductiveRecoveryRecord::Terminal {
        schema: PRODUCTIVE_RECOVERY_SCHEMA_V0.to_owned(),
        failed: false,
        history_object: uri(ABC_DIGEST),
        cumulative_event_count: 5,
    }
}

#[test]
fn attempts_of_a_log_are_followed() {
    let records = vec![
        definition_record(),
        intent_record("a"),
        intent_record("b"),
        result_record("a"),
    ];
    let attempts = inspect_run_attempts(&records).expect("the log is sound");
    assert_eq!(attempts.len(), 2);
    assert_eq!(attempts[0].intent.attempt_id.text, "a");
    assert_eq!(attempts[0].lifecycle, RunAttemptLifecycle::Completed);
    assert_eq!(attempts[0].outcome.as_deref(), Some("completed"));
    assert_eq!(attempts[1].lifecycle, RunAttemptLifecycle::Uncertain);
    assert_eq!(attempts[1].outcome, None);
}

#[test]
fn unsound_logs_are_refused() {
    assert_eq!(
        protocol_text(inspect_run_attempts(&Vec::new())),
        "run log must begin with a definition record"
    );
    assert_eq!(
        protocol_text(inspect_run_attempts(&vec![intent_record("a")])),
        "run log must begin with a definition record"
    );
    assert_eq!(
        protocol_text(inspect_run_attempts(&vec![definition_record(), definition_record()])),
        "run log contains more than one definition"
    );
    assert_eq!(
        protocol_text(inspect_run_attempts(&vec![
            definition_record(),
            intent_record("a"),
            intent_record("a"),
        ])),
        "run attempt id is duplicated"
    );
    assert_eq!(
        protocol_text(inspect_run_attempts(&vec![definition_record(), result_record("a")])),
        "run attempt result has no durable intent"
    );
    assert_eq!(
        protocol_text(inspect_run_attempts(&vec![
            definition_record(),
            intent_record("a"),
            result_record("a"),
            result_record("a"),
        ])),
        "run attempt result contradicts its durable intent"
    );
}

#[test]
fn intents_fit_their_kind() {
    assert_eq!(
        protocol_text(validate_attempt_tool_identity(RunAttemptKind::Tool, &None)),
        "Tool intents require tool_id and provider intents omit it"
    );
    assert_eq!(
        protocol_text(validate_attempt_tool_identity(
            RunAttemptKind::Tool,
            &Some(unchecked("Bad"))
        )),
        "Tool intent has an invalid tool_id"
    );
    assert!(validate_attempt_tool_identity(RunAttemptKind::Provider, &None).is_ok());
    assert_eq!(
        protocol_text(validate_tool_enforcement_expectation(RunAttemptKind::Tool, &None)),
        "Tool intent has no enforcement expectation"
    );
    let idle = ToolEnforcementExpectation {
        applied_policy_digest: ABC_DIGEST.to_owned(),
        max_concurrent_processes_and_threads: 0,
    };
    assert_eq!(
        protocol_text(validate_tool_enforcement_expectation(RunAttemptKind::Tool, &Some(idle))),
        "Tool intent process capacity must be positive"
    );
    let unexpected = ToolEnforcementExpectation {
        applied_policy_digest: ABC_DIGEST.to_owned(),
        max_concurrent_processes_and_threads: 1,
    };
    assert_eq!(
        protocol_text(validate_tool_enforcement_expectation(
            RunAttemptKind::Provider,
            &Some(unexpected)
        )),
        "provider intent has an unexpected enforcement expectation"
    );
}

#[test]
fn a_ledger_records_each_attempt_once() {
    let mut ledger = RunAttemptLedger { attempts: AttemptStates::new() };
    assert!(ledger.intent_record(&tool_intent("a")).is_ok());
    ledger.append_intent(&tool_intent("a"));
    assert_eq!(
        protocol_text(ledger.intent_record(&tool_intent("a"))),
        "run attempt id is duplicated"
    );
    assert_eq!(
        protocol_text(ledger.result_record(tool_result("b"))),
        "run attempt result has no durable intent"
    );
    match ledger.result_record(tool_result("a")).expect("the intent is there") {
        RunLogRecord::TerminalResult { terminal, .. } => {
            assert_eq!(terminal.tool_id.map(|id| id.text), Some("grep".to_owned()));
        }
        _ => panic!("expected a result"),
    }
    ledger.append_result(&tool_result("a"));
    assert_eq!(
        protocol_text(ledger.result_record(tool_result("a"))),
        "run attempt result contradicts its durable intent"
    );
}

#[test]
fn a_page_of_a_tool_holds_its_records() {
    let records = vec![
        LoggedRecord { record: definition_record(), canonical: "{\"d\":1}".to_owned() },
        LoggedRecord { record: intent_record("a"), canonical: "{\"i\":1}".to_owned() },
        LoggedRecord { record: result_record("a"), canonical: "{\"r\":1}".to_owned() },
    ];
    let page = project_tool_run_log(&records, &checked("grep"), None).expect("a page");
    assert_eq!(
        page,
        "{\"records\":[{\"i\":1},{\"r\":1}],\"schema\":\"flow-tool-run-log-page-v0\"}\n"
    );
    let later = project_tool_run_log(&records, &checked("grep"), Some(2)).expect("a page");
    assert_eq!(later, "{\"records\":[{\"r\":1}],\"schema\":\"flow-tool-run-log-page-v0\"}\n");
    let other = project_tool_run_log(&records, &checked("sed"), None).expect("a page");
    assert_eq!(other, "{\"records\":[],\"schema\":\"flow-tool-run-log-page-v0\"}\n");
    assert_eq!(
        usage_text(project_tool_run_log(&records, &unchecked("Bad"), None)),
        "invalid Tool id"
    );
}

fn limits() -> ObjectLimits {
    ObjectLimits { max_objects: 2, max_object_bytes: 10, max_total_bytes: 12 }
}

fn object(bytes: &[u8], digest: &str) -> ContextObject {
    ContextObject { digest: digest.to_owned(), bytes: bytes.to_vec() }
}

#[test]
fn new_objects_are_stored_once() {
    let mut store = RunObjectStore::open(&Vec::new(), limits()).expect("an empty store");
    let objects = vec![object(b"abc", ABC_DIGEST), object(b"abc", ABC_DIGEST)];
    let mut run = store.persist(&objects).expect("the objects fit");
    assert!(matches!(run.stage, PersistStage::Creating { at: 0 }));
    run.created(&mut store, &objects);
    assert_eq!(run.stage, PersistStage::Finished);
    run.finish(&mut store, &objects);
    let usage = store.usage_snapshot().expect("the store is open");
    assert_eq!(usage, RunObjectUsageSnapshot { object_bytes: 3, object_count: 1 });

    let mut again = store.persist(&objects).expect("the objects fit");
    assert_eq!(again.stage, PersistStage::Checking { at: 0 });
    let found = ExistingObject::Stored { is_file: true, length: 3, bytes: b"abc".to_vec() };
    again.existing_checked(&mut store, &objects, found).expect("the object is as stored");
    assert_eq!(again.stage, PersistStage::Syncing { at: 0 });
    again.existing_synced(&store, &objects);
    if again.stage == PersistStage::DirectorySync {
        again.directory_synced(&store, &objects);
    }
    assert_eq!(again.stage, PersistStage::Finished);

    let mut wrong = store.persist(&objects).expect("the objects fit");
    let found = ExistingObject::Stored { is_file: true, length: 3, bytes: b"abd".to_vec() };
    assert_eq!(
        protocol_text(wrong.existing_checked(&mut store, &objects, found)),
        "existing run object does not match its digest"
    );
    assert_eq!(
        protocol_text(store.persist(&objects)),
        "run object store is closed after a prior failure"
    );
}

#[test]
fn objects_stay_in_their_limits() {
    let store = RunObjectStore::open(&Vec::new(), limits()).expect("an empty store");
    assert_eq!(
        protocol_text(store.persist(&vec![object(b"abd", ABC_DIGEST)])),
        "run object digest does not match its bytes"
    );
    let long_digest = "f7846f55cf23e14eebeab5b4e1550cad5b509e3348fbc4efa3a1413d393cb650";
    assert_eq!(
        protocol_text(store.persist(&vec![object(b"message digest", long_digest)])),
        "run object exceeds its size limit"
    );
    let listings = vec![
        ObjectListing {
            name: Some(ABC_DIGEST.to_owned()),
            is_file: true,
            length: 3,
        },
        ObjectListing {
            name: Some(EMPTY_DIGEST.to_owned()),
            is_file: true,
            length: 0,
        },
    ];
    let full = RunObjectStore::open(&listings, limits()).expect("two objects fit");
    let a_digest = "ca978112ca1bbdcafac231b39a23dc4da786eff8147c4e72b9807785afee48bb";
    assert_eq!(
        protocol_text(full.persist(&vec![object(b"a", a_digest)])),
        "run object count exceeds its limit"
    );
    let unnamed = vec![ObjectListing { name: None, is_file: true, length: 0 }];
    assert_eq!(
        protocol_text(RunObjectStore::open(&unnamed, limits())),
        "run object name must be UTF-8"
    );
}

#[test]
fn an_object_is_read_back_by_its_uri() {
    assert_eq!(
        read_run_object_uri(&uri(ABC_DIGEST), 3, b"abc".to_vec(), limits()).expect("it fits"),
        b"abc".to_vec()
    );
    assert_eq!(
        protocol_text(read_run_object_uri(&uri(ABC_DIGEST), 3, b"abd".to_vec(), limits())),
        "productive recovery object does not match its URI digest"
    );
    assert_eq!(
        protocol_text(check_stored_size(11, limits())),
        "productive recovery object exceeds its byte limit"
    );
    let none = ObjectUri { uri: "x".to_owned(), digest: None };
    assert_eq!(
        protocol_text(validate_recovery_object_uri(&none)),
        "productive recovery object URI is invalid"
    );
}

#[test]
fn places_are_named_when_they_are_missing() {
    assert_eq!(
        protocol_text(existing_anchored_conversation(&checked("talk"), false)),
        "conversation does not exist"
    );
    let place = RunPlace { conversation: true, runs: true, run: false };
    assert_eq!(
        protocol_text(existing_anchored_run(&checked("talk"), &checked("run"), place)),
        "conversation run does not exist"
    );
    assert_eq!(
        usage_text(existing_anchored_run(
            &checked("talk"),
            &unchecked("run"),
            RunPlace { conversation: true, runs: true, run: true }
        )),
        "invalid run session id"
    );
}

#[test]
fn names_are_bounded() {
    let mut names = BoundedNames::new(1);
    assert!(!names.add_name(Some("a".to_owned()), "run").expect("there is room"));
    assert!(names.add_name(Some("b".to_owned()), "run").expect("no room is no failure"));
    assert_eq!(
        protocol_text(BoundedNames::new(1).add_name(None, "run")),
        "run name must be UTF-8"
    );
}

#[test]
fn storage_is_measured() {
    assert_eq!(productive_metadata_bytes(3, Some(4), 10).expect("it fits"), 7);
    assert_eq!(productive_metadata_bytes(3, None, 10).expect("it fits"), 3);
    assert_eq!(
        protocol_text(productive_metadata_bytes(6, Some(5), 10)),
        "productive metadata exceeds its byte limit"
    );
    assert!(ensure_productive_metadata_growth(6, 4, 10).is_ok());
    assert_eq!(
        protocol_text(ensure_productive_metadata_growth(6, 5, 10)),
        "productive metadata append exceeds its byte limit"
    );
    let stream = StreamInventory { total_bytes: 9, current_ordinal: 2, current_bytes: 4 };
    let usage = productive_storage_usage(
        stream,
        stream,
        7,
        5,
        RunObjectUsageSnapshot { object_bytes: 3, object_count: 1 },
    );
    assert_eq!(usage.event_bytes, 9);
    assert_eq!(usage.event_segment_count, 2);
    assert_eq!(usage.context_tail_bytes, 4);
    assert_eq!(usage.event_count, 5);
    assert_eq!(usage.metadata_bytes, 7);
    assert_eq!(usage.object_count, 1);
    assert_eq!(
        canonical_json(CanonicalForm::Text("{}".to_owned()), "bad").expect("a form"),
        "{}"
    );
}

#[test]
fn recovery_records_are_judged() {
    assert!(validate_productive_recovery_record(&ProductiveRecoveryRecord::Header(header())).is_ok());
    let mut other = header();
    other.schema = "flow-productive-recovery-v9".to_owned();
    assert_eq!(
        protocol_text(validate_productive_recovery_record(&ProductiveRecoveryRecord::Header(other))),
        "productive recovery record has an unsupported schema"
    );
    let mut unnamed = header();
    unnamed.run_session_id = unchecked("Run");
    assert_eq!(
        usage_text(validate_productive_recovery_record(&ProductiveRecoveryRecord::Header(unnamed))),
        "invalid recovery run session id"
    );
    let mut faulty = header();
    faulty.root_input = RootInput::Value {
        canonical: "{}".to_owned(),
        fault: Some("no type".to_owned()),
    };
    assert_eq!(
        protocol_text(validate_productive_recovery_record(&ProductiveRecoveryRecord::Header(faulty))),
        "recovery root input is invalid: no type"
    );
    let stray = ProductiveRecoveryRecord::Tool {
        attempt: recovered_attempt("a"),
        tool_id: unchecked("Bad"),
    };
    assert_eq!(
        protocol_text(validate_productive_recovery_record(&stray)),
        "recovery Tool id is invalid"
    );
    let phase = ProductiveRecoveryRecord::Phase {
        schema: PRODUCTIVE_RECOVERY_SCHEMA_V0.to_owned(),
        flow_execution_id: checked("f"),
        phase_execution_id: checked("p"),
        phase_id: unchecked("P"),
        iteration: 1,
        result_object: uri(ABC_DIGEST),
        will_repeat: false,
    };
    assert_eq!(
        protocol_text(validate_productive_recovery_record(&phase)),
        "recovery Phase boundary is invalid"
    );
}

#[test]
fn recovery_lines_are_read_as_json() {
    let parsed = ParsedRecord {
        canonical: Ok("{\"a\":1}".to_owned()),
        record: Ok(ProductiveRecoveryRecord::Header(header())),
    };
    assert!(parse_productive_recovery_record(b"{\"a\":1}", parsed).is_ok());
    let torn = ParsedRecord {
        canonical: Ok("{\"a\":1}".to_owned()),
        record: Ok(ProductiveRecoveryRecord::Header(header())),
    };
    match parse_productive_recovery_record(b"{\"a\":", torn) {
        Err(RuntimeError::Json(text)) => {
            assert_eq!(text, "EOF while parsing a value at line 1 column 5");
        }
        _ => panic!("expected a failure of JSON"),
    }
    let loose = ParsedRecord {
        canonical: Ok("{\"a\":1}".to_owned()),
        record: Ok(ProductiveRecoveryRecord::Header(header())),
    };
    assert_eq!(
        protocol_text(parse_productive_recovery_record(b"{ \"a\":1}", loose)),
        "productive recovery record must be canonical JSON"
    );
}

#[test]
fn a_snapshot_holds_one_header_and_one_end() {
    let lines = snapshot_lines(b"{}\n[]\n").expect("two lines");
    assert_eq!(lines, vec![b"{}".to_vec(), b"[]".to_vec()]);
    assert_eq!(
        protocol_text(snapshot_lines(b"{}")),
        "productive recovery snapshot must use non-empty LF-framed JSONL"
    );
    let before = vec![ProductiveRecoveryRecord::Header(header())];
    assert_eq!(
        protocol_text(check_record_position(
            &before,
            &ProductiveRecoveryRecord::Header(header())
        )),
        "productive recovery snapshot contains more than one header"
    );
    assert!(check_record_position(&before, &terminal_record()).is_ok());
    let ended = vec![ProductiveRecoveryRecord::Header(header()), terminal_record()];
    assert_eq!(
        protocol_text(check_record_position(
            &ended,
            &ProductiveRecoveryRecord::Provider(recovered_attempt("a"))
        )),
        "productive recovery terminal record must be last"
    );
    let parsed = vec![ParsedRecord {
        canonical: Ok("{}".to_owned()),
        record: Ok(ProductiveRecoveryRecord::Header(header())),
    }];
    let records = parse_productive_recovery_records(&vec![b"{}".to_vec()], parsed);
    assert_eq!(records.expect("one record").len(), 1);
}

fn tool_request(id: &str) -> AttemptRequest {
    AttemptRequest {
        kind: RunAttemptKind::Tool,
        attempt_id: checked(id),
        request_hash: hash(),
        tool_id: Some(checked("grep")),
    }
}

fn completed(id: &str) -> KeyedList<RecoveryAttempt> {
    let mut list = KeyedList::new();
    list.insert(
        id.to_owned(),
        RecoveryAttempt {
            request_hash: hash(),
            result: tool_result(id),
            tool_id: Some(checked("grep")),
        },
    );
    list
}

fn tool_record(id: &str) -> ProductiveRecoveryRecord {
    ProductiveRecoveryRecord::Tool {
        attempt: recovered_attempt(id),
        tool_id: checked("grep"),
    }
}

#[test]
fn a_recorded_attempt_is_replayed_once() {
    let records = vec![ProductiveRecoveryRecord::Header(header()), tool_record("a")];
    let mut writer =
        ProductiveRecoveryWriter::open_for_resume(records, b"{}\n", "talk", "run", completed("a"))
            .expect("the snapshot is of the run");
    match writer.recover_attempt(&tool_request("a")).expect("the attempt is recorded") {
        Recovery::Replayed(result) => assert_eq!(result.outcome, "completed"),
        _ => panic!("expected a replay"),
    }
    assert_eq!(
        protocol_text(writer.recover_attempt(&tool_request("a"))),
        "productive recovery completed attempt was already consumed"
    );
    assert!(matches!(writer.recover_attempt(&tool_request("b")), Ok(Recovery::Live)));
}

#[test]
fn a_completed_attempt_without_a_record_is_appended() {
    let records = vec![ProductiveRecoveryRecord::Header(header())];
    let mut writer =
        ProductiveRecoveryWriter::open_for_resume(records, b"{}\n", "talk", "run", completed("a"))
            .expect("the snapshot is of the run");
    assert_eq!(
        protocol_text(writer.recover_attempt(&tool_request("b"))),
        "productive recovery terminal boundary left completed attempts unreplayed"
    );
    match writer.recover_attempt(&tool_request("a")).expect("the attempt is complete") {
        Recovery::Append { record, .. } => {
            assert!(matches!(record, ProductiveRecoveryRecord::Tool { .. }));
        }
        _ => panic!("expected a record to append"),
    }
    writer.attempt_appended("a");
    assert!(matches!(writer.recover_attempt(&tool_request("b")), Ok(Recovery::Live)));
}

#[test]
fn another_request_diverges() {
    let records = vec![ProductiveRecoveryRecord::Header(header()), tool_record("a")];
    let mut writer =
        ProductiveRecoveryWriter::open_for_resume(records, b"{}\n", "talk", "run", completed("a"))
            .expect("the snapshot is of the run");
    let mut request = tool_request("a");
    request.request_hash = format!("sha256:{EMPTY_DIGEST}");
    assert_eq!(
        protocol_text(writer.recover_attempt(&request)),
        "productive recovery attempt diverged from its recorded request"
    );
    assert_eq!(
        protocol_text(writer.flow_boundary(&checked("f"), Ok(uri(ABC_DIGEST)))),
        "productive recovery replay reached a different boundary than Flow completion"
    );
}

#[test]
fn a_snapshot_of_another_run_is_refused() {
    let records = vec![ProductiveRecoveryRecord::Header(header())];
    assert_eq!(
        protocol_text(ProductiveRecoveryWriter::open_for_resume(
            records,
            b"{}\n",
            "talk",
            "other",
            KeyedList::new()
        )),
        "productive recovery header does not match its addressed run"
    );
    assert_eq!(
        protocol_text(ProductiveRecoveryWriter::open_for_resume(
            Vec::new(),
            b"",
            "talk",
            "run",
            KeyedList::new()
        )),
        "productive recovery snapshot has no header"
    );
}

#[test]
fn boundaries_are_recorded_where_nothing_is_replayed() {
    let records = vec![ProductiveRecoveryRecord::Header(header())];
    let mut writer =
        ProductiveRecoveryWriter::open_for_resume(records, b"{}\n", "talk", "run", KeyedList::new())
            .expect("the snapshot is of the run");
    let boundary = PhaseBoundary {
        flow_execution_id: checked("f"),
        phase_execution_id: checked("p"),
        phase_id: checked("phase"),
        iteration: 2,
        will_repeat: true,
    };
    match writer.phase_boundary(&boundary, Ok(uri(ABC_DIGEST))).expect("the writer is live") {
        BoundaryStep::Append(ProductiveRecoveryRecord::Phase {
            schema,
            phase_id,
            iteration,
            result_object,
            will_repeat,
            ..
        }) => {
            assert_eq!(schema, PRODUCTIVE_RECOVERY_SCHEMA_V0);
            assert_eq!(phase_id.text, "phase");
            assert_eq!(iteration, 2);
            assert_eq!(result_object.uri, uri(ABC_DIGEST).uri);
            assert!(will_repeat);
        }
        _ => panic!("expected a record of the phase"),
    }
    let refused = Err(RuntimeError::Protocol("the value is too large".to_owned()));
    assert_eq!(protocol_text(writer.phase_boundary(&boundary, refused)), "the value is too large");
    match writer
        .transition_boundary(&checked("f"), &checked("phase"), &Some(checked("next")))
        .expect("the writer is live")
    {
        BoundaryStep::Append(ProductiveRecoveryRecord::Transition {
            from_phase_id,
            to_phase_id,
            ..
        }) => {
            assert_eq!(from_phase_id.text, "phase");
            assert_eq!(to_phase_id.expect("a phase follows").text, "next");
        }
        _ => panic!("expected a record of the transition"),
    }
    match writer.flow_boundary(&checked("f"), Ok(uri(ABC_DIGEST))).expect("the writer is live") {
        BoundaryStep::Append(ProductiveRecoveryRecord::Flow {
            flow_execution_id,
            result_object,
            ..
        }) => {
            assert_eq!(flow_execution_id.text, "f");
            assert_eq!(result_object.uri, uri(ABC_DIGEST).uri);
        }
        _ => panic!("expected a record of the flow"),
    }
    match writer.terminal_boundary(true, 2, Ok(uri(ABC_DIGEST))).expect("the writer is live") {
        (
            BoundaryStep::Append(ProductiveRecoveryRecord::Terminal {
                failed,
                history_object,
                cumulative_event_count,
                ..
            }),
            count,
        ) => {
            assert!(failed);
            assert_eq!(history_object.uri, uri(ABC_DIGEST).uri);
            assert_eq!(cumulative_event_count, count);
        }
        _ => panic!("expected a record of the end"),
    }
}

#[test]
fn boundaries_are_replayed_and_appended() {
    let records = vec![
        ProductiveRecoveryRecord::Header(header()),
        ProductiveRecoveryRecord::Phase {
            schema: PRODUCTIVE_RECOVERY_SCHEMA_V0.to_owned(),
            flow_execution_id: checked("f"),
            phase_execution_id: checked("p"),
            phase_id: checked("phase"),
            iteration: 1,
            result_object: uri(ABC_DIGEST),
            will_repeat: false,
        },
        ProductiveRecoveryRecord::Transition {
            schema: PRODUCTIVE_RECOVERY_SCHEMA_V0.to_owned(),
            flow_execution_id: checked("f"),
            from_phase_id: checked("phase"),
            to_phase_id: None,
        },
        terminal_record(),
    ];
    let mut writer =
        ProductiveRecoveryWriter::open_for_resume(records, b"{}\n", "talk", "run", KeyedList::new())
            .expect("the snapshot is of the run");
    let boundary = PhaseBoundary {
        flow_execution_id: checked("f"),
        phase_execution_id: checked("p"),
        phase_id: checked("phase"),
        iteration: 1,
        will_repeat: false,
    };
    match writer.phase_boundary(&boundary, Ok(uri(EMPTY_DIGEST))).expect("the boundary is recorded") {
        BoundaryStep::Verify(object) => assert_eq!(object.uri, uri(ABC_DIGEST).uri),
        _ => panic!("expected an object to verify"),
    }
    assert!(writer.verify_value_object(b"\"v\"", &Ok("\"v\"".to_owned())).is_ok());
    assert_eq!(
        protocol_text(writer.transition_boundary(&checked("f"), &checked("other"), &None)),
        "productive recovery Transition boundary diverged from deterministic replay"
    );
    assert!(matches!(
        writer.transition_boundary(&checked("f"), &checked("phase"), &None),
        Ok(BoundaryStep::Replayed)
    ));
    assert_eq!(
        protocol_text(writer.terminal_boundary(false, 3, Ok(uri(ABC_DIGEST)))),
        "productive recovery terminal boundary diverged from deterministic replay"
    );
    assert!(matches!(
        writer.terminal_boundary(false, 2, Ok(uri(ABC_DIGEST))),
        Ok((BoundaryStep::Verify(_), 5))
    ));
    assert!(writer.verify_terminal_history(b"h", b"h").is_ok());
    assert_eq!(writer.append_terminal(Ok(b"abc".to_vec())).expect("a snapshot"), ABC_DIGEST);
}

#[test]
fn a_failed_append_closes_the_writer() {
    let prepared = ProductiveRecoveryWriter::prepare(header()).expect("the header is sound");
    let mut writer = prepared.writer;
    let record = writer
        .record_attempt(&Some(checked("grep")), &hash(), &tool_result("a"))
        .expect("the result is durable");
    let line = writer
        .append_record(&record, CanonicalForm::Text("{}".to_owned()), "w", 0, 100)
        .expect("the line fits");
    assert_eq!(line, "{}\n");
    writer.append_finished(false);
    assert_eq!(
        protocol_text(writer.recover_attempt(&tool_request("b"))),
        "productive recovery writer is closed after a prior failure"
    );
}

#[test]
fn values_and_attempts_are_gathered_for_recovery() {
    let object = persist_value(Ok("abc".to_owned()), 10).expect("the value fits");
    assert_eq!(object.digest, ABC_DIGEST);
    assert_eq!(object.bytes, b"abc".to_vec());
    assert_eq!(
        protocol_text(persist_value(Ok("abc".to_owned()), 2)),
        "productive recovery value exceeds its object byte limit"
    );
    assert_eq!(
        protocol_text(persist_value(Err("depth".to_owned()), 10)),
        "recovery value is invalid: depth"
    );
    assert_eq!(committed_snapshot_len(b"{}\n{").expect("a header"), 3);
    assert_eq!(
        protocol_text(committed_snapshot_len(b"{")),
        "productive recovery snapshot has no committed header"
    );
    let records = vec![definition_record(), intent_record("a"), result_record("a")];
    let states = inspect_run_attempts(&records).expect("the log is sound");
    let found = completed_recovery_attempts(&states, &records, "run").expect("all have ended");
    assert_eq!(found.len(), 1);
    assert_eq!(found.get("a").map(|attempt| attempt.request_hash.clone()), Some(hash()));
    let open = vec![definition_record(), intent_record("a")];
    let states = inspect_run_attempts(&open).expect("the log is sound");
    match completed_recovery_attempts(&states, &open, "run") {
        Err(RuntimeError::PersistedState(text)) => assert_eq!(
            text,
            "run run has uncertain productive attempts; reconcile them before Resume"
        ),
        _ => panic!("expected a refusal"),
    }
}

#[test]
fn a_batch_is_acknowledged_as_far_as_it_went() {
    let mut backend = ConversationWriterBackend::start();
    let failure = AppendFailure { error: protocol("disk"), committed_events: Some(1) };
    let outcomes = backend.commit_batch(3, Ok(()), Err(failure));
    assert!(matches!(outcomes[0], EventOutcome::Appended));
    assert!(matches!(&outcomes[1], EventOutcome::Failed(RuntimeError::Protocol(text)) if text == "disk"));
    assert!(matches!(outcomes[2], EventOutcome::Discarded));
    assert!(!backend.can_batch());

    let mut whole = ConversationWriterBackend::start();
    let failure = AppendFailure { error: protocol("late"), committed_events: Some(2) };
    let outcomes = whole.commit_batch(2, Ok(()), Err(failure));
    assert!(outcomes.iter().all(|outcome| matches!(outcome, EventOutcome::Appended)));
    assert!(whole.has_pending_error());

    let mut invalid = ConversationWriterBackend::start();
    let failure = AppendFailure { error: protocol("x"), committed_events: Some(9) };
    let outcomes = invalid.commit_batch(1, Ok(()), Err(failure));
    assert!(matches!(
        &outcomes[0],
        EventOutcome::Failed(RuntimeError::Protocol(text))
            if text == "conversation appender reported an invalid committed prefix"
    ));
}

#[test]
fn an_event_is_synced_at_a_checkpoint() {
    let mut backend = ConversationWriterBackend::start();
    assert!(matches!(
        backend.commit(Ok(()), Ok(()), Ok(()), Ok(()), false, Ok(())),
        EventOutcome::Appended
    ));
    assert!(backend.wants_sync(true));
    assert!(matches!(
        backend.commit(Ok(()), Ok(()), Ok(()), Ok(()), true, Err(protocol("sync"))),
        EventOutcome::AppendedThenFailed(RuntimeError::Protocol(_))
    ));
    let mut other = ConversationWriterBackend::start();
    assert!(matches!(
        other.commit(Ok(()), Err(protocol("pair")), Ok(()), Ok(()), false, Ok(())),
        EventOutcome::Failed(RuntimeError::Protocol(_))
    ));
    assert!(matches!(
        other.commit(Ok(()), Ok(()), Ok(()), Ok(()), false, Ok(())),
        EventOutcome::Discarded
    ));
    let mut idle = ConversationWriterBackend::start();
    idle.tick(true, Ok(()));
    assert!(idle.shutdown(Ok(())).is_empty());
}

#[test]
fn replayed_events_must_be_those_recorded() {
    let mut writer = ConversationEventWriter::open_with_run_objects(true);
    assert!(writer.begin_commit("{}\n", Ok("{}\n".to_owned())).is_ok());
    assert!(matches!(
        writer.replay_event("{}\n", Ok(Some("{}\n".to_owned())), false, false),
        Ok(ReplayNext::Replayed)
    ));
    assert!(writer.commit_replayed(Ok(()), 1, "2026-01-01T00:00:00Z").is_ok());
    assert_eq!(writer.event_count(), 1);
    assert_eq!(writer.last_checkpoint(), Some((1, "2026-01-01T00:00:00Z")));
    assert_eq!(
        protocol_text(writer.replay_event("{}\n", Ok(Some("[]\n".to_owned())), false, false)),
        "productive recovery event prefix diverged from deterministic replay"
    );
    assert_eq!(
        protocol_text(writer.begin_commit("{}\n", Ok("{}".to_owned()))),
        "conversation event writer is closed after a prior failure"
    );
}

#[test]
fn a_writer_ends_behind_its_prefix() {
    let mut writer = ConversationEventWriter::open_with_run_objects(false);
    let failures = writer.finish(Ok(true), Ok(false), Ok(()));
    assert_eq!(failures.len(), 1);
    assert!(matches!(
        &failures[0],
        RuntimeError::Protocol(text)
            if text == "productive recovery ended before its committed event/context prefix was replayed"
    ));
    let mut other = ConversationEventWriter::open_with_run_objects(false);
    assert!(other.commit_written(Ok(()), "{}\n", 1, "2026-01-01T00:00:00Z").is_ok());
    assert!(other.finish(Ok(false), Ok(false), Ok(())).is_empty());
    assert_eq!(
        protocol_text(other.begin_commit("{}\n", Ok("{}".to_owned()))),
        "conversation event writer is already finished"
    );
    let mut replaying = ConversationEventWriter::open_with_run_objects(false);
    assert_eq!(
        protocol_text(replaying.reserve_productive_dispatch(Ok(true), Ok(false), Ok(()))),
        "productive storage cannot be reserved while replaying a committed prefix"
    );
}

#[test]
fn a_context_without_its_event_is_repaired() {
    assert!(validate_context_manifest_pairing(true, true, "missing", "unexpected").is_ok());
    assert_eq!(
        protocol_text(validate_context_manifest_pairing(true, false, "missing", "unexpected")),
        "missing"
    );
    assert_eq!(
        protocol_text(validate_context_manifest_pairing(false, true, "missing", "unexpected")),
        "unexpected"
    );
    let mut writer = ConversationEventWriter::open_with_run_objects(false);
    assert_eq!(
        writer.tail_context(Ok(Some("{}\n".to_owned()))).expect("a line is left"),
        Some("{}\n".to_owned())
    );
    assert_eq!(
        protocol_text(writer.repair_tail(Ok(false), false, Some("{}\n"), "{}\n")),
        "productive recovery context prefix requires message.completed"
    );
    assert!(matches!(repair_context_only_tail(Ok(()), Ok(())), RepairOutcome::Written(None)));
    let failure = AppendFailure { error: protocol("disk"), committed_events: None };
    assert!(matches!(
        repair_context_only_tail(Err(failure), Ok(())),
        RepairOutcome::Rejected(_)
    ));
    assert!(recovery_prefix_error(Ok(false), Ok(false), "late").is_none());
    assert!(recovery_prefix_error(Ok(false), Ok(true), "late").is_some());
}

#[test]
fn a_prefix_is_read_before_a_writer_is_open() {
    let writer = ConversationEventWriter::open_with_run_objects(false);
    let mut opening = RecoveryOpening::open_for_recovery_with_run_objects(writer);
    opening.opened(Ok(())).expect("the events are there");
    opening.line(Ok(true), Ok(())).expect("a line");
    opening.line(Ok(false), Ok(())).expect("no further line");
    assert_eq!(opening.stage, OpeningStage::OpenContexts);
    opening.opened(Ok(())).expect("the contexts are there");
    assert_eq!(protocol_text(opening.line(Ok(true), Err(protocol("bad")))), "bad");
    assert_eq!(opening.events, 1);
}

#[test]
fn a_closed_store_takes_and_gives_nothing() {
    let mut store = RunObjectStore::open(&Vec::new(), limits()).expect("an empty store");
    let uri = uri(ABC_DIGEST);
    assert_eq!(store.read(&uri, 3, b"abc".to_vec()).expect("the object is sound"), b"abc");
    assert!(store.read(&uri, 3, b"abd".to_vec()).is_err());
    store.creation_failed();
    let none: Vec<ContextObject> = Vec::new();
    assert_eq!(store.persist(&none).expect("nothing is stored").stage, PersistStage::Finished);
    assert_eq!(
        protocol_text(store.read(&uri, 3, b"abc".to_vec())),
        "run object store is closed after a prior failure"
    );
    assert!(store.usage_snapshot().is_err());
}
