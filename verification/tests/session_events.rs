use flow_agent_core::contract::Checked;
use flow_agent_core::error::{IoKind, RuntimeError};
use flow_agent_core::event_visit::{
    CheckedEvent, IncrementalStage, IncrementalVisit, OpenedSegment, SegmentRead, VerifiedStage,
    VerifiedVisit,
};
use flow_agent_core::session_events::{
    ensure_in_memory_replay_output_limit, session_ownership_active, EventLogLimits, EventProgress,
    InactiveDecision, IncrementalRoute, LogPlace, RunLogSearch, SessionEventReader,
    MAX_IN_MEMORY_REPLAY_OUTPUT_BYTES,
};
use flow_agent_core::stream::reader::SegmentEnd;

const LIMITS: EventLogLimits = EventLogLimits { max_segment_bytes: 100, max_event_bytes: 150 };

fn checked(text: &str) -> Checked {
    Checked { text: text.to_owned(), valid: true }
}

fn protocol_text<T>(result: Result<T, RuntimeError>) -> String {
    match result {
        Err(RuntimeError::Protocol(text)) => text,
        Err(other) => panic!("expected a protocol error, got {other:?}"),
        Ok(_) => panic!("expected a protocol error"),
    }
}

fn usage_text<T>(result: Result<T, RuntimeError>) -> String {
    match result {
        Err(RuntimeError::Usage(text)) => text,
        Err(other) => panic!("expected a usage error, got {other:?}"),
        Ok(_) => panic!("expected a usage error"),
    }
}

fn progress(lines: usize, sequence: u64) -> EventProgress {
    EventProgress { line_count: lines, previous_sequence: sequence, terminal: false }
}

fn reader() -> SessionEventReader {
    SessionEventReader::open(&checked("run"), "events.jsonl").expect("the identifier is sound")
}

#[test]
fn identifiers_are_quoted_when_they_are_refused() {
    let bad = Checked { text: "a\"b\n".to_owned(), valid: false };
    assert_eq!(
        usage_text(SessionEventReader::open(&bad, "p")),
        "invalid session_id \"a\\\"b\\n\""
    );
    assert_eq!(
        usage_text(SessionEventReader::open_conversation_run(
            &checked("talk"),
            &bad,
            search(Ok(()))
        )),
        "invalid conversation or run session id"
    );
}

#[test]
fn replayed_events_are_bounded() {
    assert!(ensure_in_memory_replay_output_limit(MAX_IN_MEMORY_REPLAY_OUTPUT_BYTES).is_ok());
    match ensure_in_memory_replay_output_limit(MAX_IN_MEMORY_REPLAY_OUTPUT_BYTES + 1) {
        Err(RuntimeError::ReplayOutputLimitExceeded { limit_bytes }) => {
            assert_eq!(limit_bytes, MAX_IN_MEMORY_REPLAY_OUTPUT_BYTES);
        }
        _ => panic!("expected a refusal"),
    }
}

#[test]
fn an_open_end_needs_an_owner() {
    assert!(session_ownership_active(true, true, true));
    assert!(!session_ownership_active(true, true, false));
    let reader = reader();
    assert!(matches!(
        reader.judge_end(true, false, true, false, false),
        Ok(InactiveDecision::Proceed { .. })
    ));
    assert!(matches!(
        reader.judge_end(true, false, false, false, false),
        Ok(InactiveDecision::Retry)
    ));
    assert_eq!(
        protocol_text(reader.judge_end(true, false, false, true, false)),
        "events.jsonl contains an incomplete final JSONL line without active session ownership"
    );
    assert_eq!(
        protocol_text(reader.judge_end(false, true, false, true, false)),
        "events.jsonl is empty without active session ownership"
    );
    assert_eq!(
        protocol_text(reader.ensure_cursor(5, 4)),
        "events.jsonl no longer contains processed sequence 5"
    );
    assert!(reader.ensure_cursor(4, 4).is_ok());
}

fn observed() -> SessionEventReader {
    let mut reader = reader();
    let mut scan = reader.read_after(0);
    scan.add_segment(6, LIMITS).expect("it fits");
    assert!(scan.record(b"{}\n", 1, progress(1, 1)).expect("it is new"));
    assert!(scan.record(b"{}\n", 2, progress(2, 2)).expect("it is new"));
    scan.end_segment(6, true);
    reader.finish_scan(scan, 1, false, false, false).expect("nothing was seen before");
    reader
}

#[test]
fn what_was_seen_must_stay() {
    let mut reader = observed();
    let mut short = reader.read_after(0);
    short.add_segment(3, LIMITS).expect("it fits");
    short.record(b"{}\n", 1, progress(1, 1)).expect("a record");
    short.end_segment(3, true);
    assert_eq!(
        protocol_text(reader.finish_scan(short, 1, false, false, false)),
        "events.jsonl changed outside append-only session semantics"
    );
    assert_eq!(reader.observed_segment_count, 1);
    assert_eq!(reader.observed_current_segment_bytes, 6);
    let mut scan = reader.read_after(1);
    scan.add_segment(6, LIMITS).expect("it fits");
    assert!(!scan.record(b"{}\n", 1, progress(1, 1)).expect("it is behind the cursor"));
    assert!(scan.record(b"{}\n", 2, progress(2, 2)).expect("it is new"));
    scan.end_segment(6, true);
    reader.finish_scan(scan, 1, false, false, false).expect("the log is the same");

    let mut changed = reader.read_after(0);
    changed.add_segment(6, LIMITS).expect("it fits");
    changed.record(b"{}\n", 1, progress(1, 1)).expect("a record");
    assert_eq!(
        protocol_text(changed.record(b"[]\n", 2, progress(2, 2))),
        "events.jsonl changed outside append-only session semantics"
    );
}

#[test]
fn a_log_is_bounded() {
    let reader = reader();
    let mut scan = reader.read_after(0);
    scan.add_segment(100, LIMITS).expect("it fits");
    let text = protocol_text(scan.add_segment(60, LIMITS));
    assert!(text.contains("session event data exceeds max "), "{text}");
}

#[test]
fn a_known_log_is_read_on_from_its_end() {
    let mut reader = observed();
    let mut scan = match reader.read_incremental_after(2) {
        IncrementalRoute::Suffix(scan) => scan,
        _ => panic!("expected to read on"),
    };
    let index = reader.prior_final_index(1).expect("the segment is there");
    assert_eq!(index, 0);
    let offset = reader.segment_offset(index);
    assert_eq!(offset, 6);
    let length = scan.plan_read(9, offset, 0, LIMITS).expect("it fits");
    assert_eq!(length, 95);
    scan.check_read(3, offset, 0, "events.jsonl", LIMITS).expect("it fits");
    scan.add_final_segment(b"{}\n", LIMITS).expect("it fits");
    let (line, used) = scan
        .next_record(b"{}\n", 0)
        .expect("the line is text")
        .expect("a line is complete");
    assert_eq!(line, "{}\n");
    assert_eq!(used, 3);
    assert!(scan.accept(b"{}\n", 3, progress(3, 3)).expect("it is new"));
    assert!(scan.next_record(b"{}\n", 3).expect("no line is left").is_none());
    scan.end_segment(0, offset, 3);
    reader.finish_incremental(scan, false, false).expect("the log has grown");
    assert_eq!(reader.observed_current_segment_bytes, 9);
    assert_eq!(reader.progress.line_count, 3);
    assert_eq!(reader.progress.previous_sequence, 3);
}

fn search(conversation: Result<(), RuntimeError>) -> RunLogSearch {
    RunLogSearch {
        conversation,
        runs: Ok(()),
        run: Ok(()),
        run_log: LogPlace { path: "talk/runs/r/events.jsonl".to_owned(), found: Ok(()) },
        flat_log: LogPlace { path: "r.events.jsonl".to_owned(), found: Ok(()) },
    }
}

fn nothing_there() -> RuntimeError {
    RuntimeError::Io {
        path: "talk".to_owned(),
        kind: IoKind::NotFound,
        message: "entity not found".to_owned(),
    }
}

#[test]
fn the_log_of_a_run_is_looked_for_in_its_conversation() {
    let inside =
        SessionEventReader::open_conversation_run(&checked("talk"), &checked("r"), search(Ok(())))
            .expect("the run is there");
    assert_eq!(inside.path, "talk/runs/r/events.jsonl");
    assert_eq!(inside.session_id, "r");
    let flat = SessionEventReader::open_conversation_run(
        &checked("r"),
        &checked("r"),
        search(Err(nothing_there())),
    )
    .expect("the session stands on its own");
    assert_eq!(flat.path, "r.events.jsonl");
    let none = SessionEventReader::open_conversation_run(
        &checked("talk"),
        &checked("r"),
        search(Err(nothing_there())),
    );
    assert!(matches!(none, Err(RuntimeError::Io { kind: IoKind::NotFound, .. })));
    let broken = SessionEventReader::open_conversation_run(
        &checked("r"),
        &checked("r"),
        search(Err(RuntimeError::Protocol("talk must be a real directory".to_owned()))),
    );
    assert_eq!(protocol_text(broken), "talk must be a real directory");
}

#[test]
fn a_segment_that_is_too_large_is_refused() {
    let reader = reader();
    let mut visit = VerifiedVisit::visit_verified_after_with(reader.read_after(0));
    let end = SegmentEnd { has_partial_line: false, is_empty: false };
    let large = OpenedSegment { path: "events.jsonl".to_owned(), stored_bytes: 101, end };
    assert!(visit.inspected(&reader, 1, &large, false, LIMITS).is_err());
    assert_eq!(visit.stage, VerifiedStage::Inspect);
    visit.inspected(&reader, 1, &opened(end), false, LIMITS).expect("it fits");
    assert!(visit.segment_opened("events.jsonl", 101, LIMITS).is_err());
    assert_eq!(visit.stage, VerifiedStage::Segment);
}

fn opened(end: SegmentEnd) -> OpenedSegment {
    OpenedSegment { path: "events.jsonl".to_owned(), stored_bytes: 6, end }
}

fn event(lines: usize, sequence: u64) -> Result<CheckedEvent, RuntimeError> {
    Ok(CheckedEvent { sequence, progress: progress(lines, sequence) })
}

#[test]
fn a_whole_log_is_visited_segment_by_segment() {
    let mut reader = reader();
    let mut visit = VerifiedVisit::visit_verified_after_with(reader.read_after(0));
    let open = SegmentEnd { has_partial_line: true, is_empty: false };
    let whole = SegmentEnd { has_partial_line: false, is_empty: false };
    visit.inspected(&reader, 2, &opened(open), false, LIMITS).expect("it is looked at once more");
    assert_eq!(visit.stage, VerifiedStage::Inspect);
    visit.inspected(&reader, 2, &opened(whole), false, LIMITS).expect("the line was ended");
    assert_eq!(visit.stage, VerifiedStage::Segment);
    visit.segment_opened("events.jsonl", 3, LIMITS).expect("it fits");
    assert!(visit.visit_verified_record(b"{}\n", event(1, 1)).expect("it is new"));
    visit.segment_ended(3);
    assert_eq!(visit.stage, VerifiedStage::Segment);
    visit.segment_opened("events.2.jsonl", 6, LIMITS).expect("it fits");
    assert!(visit.visit_verified_record(b"{}\n", event(2, 2)).expect("it is new"));
    assert_eq!(
        protocol_text(
            visit.visit_verified_record(b"[]\n", Err(RuntimeError::Protocol("bad".to_owned())))
        ),
        "bad"
    );
    visit.segment_ended(6);
    assert_eq!(visit.stage, VerifiedStage::Finish);
    visit.finish(&mut reader).expect("nothing is wrong");
    assert_eq!(reader.observed_segment_count, 2);
    assert_eq!(reader.progress.previous_sequence, 2);
}

#[test]
fn an_early_end_is_refused_at_the_second_look() {
    let reader = reader();
    let scan = reader.visit_verified_after(0, 9);
    let deferred = scan.deferred;
    let mut visit = VerifiedVisit::visit_verified_after_with(scan);
    let end = SegmentEnd { has_partial_line: true, is_empty: false };
    visit.inspected(&reader, 1, &opened(end), false, LIMITS).expect("it is looked at once more");
    let again = visit.inspected(&reader, 1, &opened(end), false, LIMITS);
    assert_eq!(again.is_err(), !deferred);
}

#[test]
fn what_was_appended_is_visited() {
    let mut reader = observed();
    let scan = match reader.visit_incremental_after(2, 9) {
        IncrementalRoute::Suffix(scan) => scan,
        _ => panic!("expected to read on"),
    };
    let mut visit = IncrementalVisit::visit_incremental_after_with(scan);
    visit.listed(&reader, 2).expect("the segments are there");
    assert_eq!(visit.stage, IncrementalStage::ReadFinal);
    assert_eq!(visit.final_offset(), 0);
    let last = || SegmentRead {
        path: "events.2.jsonl".to_owned(),
        stored_bytes: 4,
        bytes: b"{}\n{".to_vec(),
    };
    visit.final_read(last(), LIMITS).expect("it fits");
    visit.judged(false);
    assert_eq!(visit.stage, IncrementalStage::List);
    visit.listed(&reader, 2).expect("the segments are there");
    visit.final_read(last(), LIMITS).expect("it fits");
    visit.judged(true);
    assert_eq!(visit.stage, IncrementalStage::Segment);
    let first = SegmentRead {
        path: "events.jsonl".to_owned(),
        stored_bytes: 9,
        bytes: b"{}\n".to_vec(),
    };
    visit.segment_read(first, LIMITS).expect("it fits");
    let (line, length) = visit.next_record().expect("text").expect("a line");
    assert_eq!(line, "{}\n");
    assert!(visit.visit_incremental_record(length, event(3, 3)).expect("it is new"));
    assert!(visit.next_record().expect("no line is left").is_none());
    visit.segment_ended();
    assert_eq!(visit.stage, IncrementalStage::Segment);
    visit.final_segment(LIMITS).expect("it fits");
    let (_, length) = visit.next_record().expect("text").expect("a line");
    assert!(visit.visit_incremental_record(length, event(4, 4)).expect("it is new"));
    visit.segment_ended();
    assert_eq!(visit.stage, IncrementalStage::Finish);
    assert!(visit.has_partial_line);
    visit.finish(&mut reader).expect("the session is owned");
    assert_eq!(reader.observed_segment_count, 2);
    assert_eq!(reader.observed_current_segment_bytes, 3);
    assert_eq!(reader.progress.previous_sequence, 4);
}

#[test]
fn a_segment_that_shrank_is_refused() {
    let reader = observed();
    let scan = match reader.visit_incremental_after(2, 9) {
        IncrementalRoute::Suffix(scan) => scan,
        _ => panic!("expected to read on"),
    };
    let mut visit = IncrementalVisit::visit_incremental_after_with(scan);
    assert_eq!(
        protocol_text(visit.listed(&reader, 0)),
        "events.jsonl changed outside append-only session semantics"
    );
    visit.listed(&reader, 1).expect("the segment is there");
    assert_eq!(visit.final_offset(), 6);
    let read = SegmentRead {
        path: "events.jsonl".to_owned(),
        stored_bytes: 5,
        bytes: Vec::new(),
    };
    assert_eq!(
        protocol_text(visit.final_read(read, LIMITS)),
        "events.jsonl changed outside append-only session semantics"
    );
}

/// Reads on from a cursor in a log of one segment, and gives the sequences returned.
fn read_on(reader: &mut SessionEventReader, log: &[&[u8]], cursor: u64) -> Vec<u64> {
    let length = |lines: &[&[u8]]| lines.iter().map(|line| line.len()).sum::<usize>();
    let mut sequences = Vec::new();
    match reader.read_incremental_after(cursor) {
        IncrementalRoute::Verified(mut scan) => {
            scan.add_segment(length(log) as u64, LIMITS).expect("it fits");
            for (place, line) in log.iter().enumerate() {
                let sequence = place as u64 + 1;
                if scan.record(line, sequence, progress(place + 1, sequence)).expect("sound") {
                    sequences.push(sequence);
                }
            }
            scan.end_segment(length(log) as u64, true);
            reader.finish_scan(scan, 1, false, false, false).expect("the log only grew");
        }
        IncrementalRoute::Current => {}
        IncrementalRoute::Suffix(mut scan) => {
            let known = reader.progress.line_count;
            let offset = reader.observed_current_segment_bytes;
            for (place, line) in log.iter().enumerate().skip(known) {
                let sequence = place as u64 + 1;
                if scan.accept(line, sequence, progress(place + 1, sequence)).expect("sound") {
                    sequences.push(sequence);
                }
            }
            scan.end_segment(0, offset, length(&log[known..]));
            reader.finish_incremental(scan, false, false).expect("the log only grew");
        }
    }
    sequences
}

#[test]
fn reads_of_a_growing_log_are_together_one_read() {
    let log: Vec<&[u8]> = vec![b"{}\n", b"[]\n", b"{ }\n", b"[1]\n", b"{}\n"];
    let mut reader = reader();
    let mut returned: Vec<u64> = Vec::new();
    for there in [2, 2, 3, 5] {
        let cursor = returned.last().copied().unwrap_or(0);
        returned.extend(read_on(&mut reader, &log[..there], cursor));
    }
    assert_eq!(returned, vec![1, 2, 3, 4, 5]);
    assert_eq!(reader.progress, progress(5, 5));
    let mut fresh = SessionEventReader::open(&checked("run"), "events.jsonl").expect("sound");
    assert_eq!(read_on(&mut fresh, &log, 0), returned);
}
