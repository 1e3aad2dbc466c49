use flow_agent_core::error::{IoKind, RuntimeError};
use flow_agent_core::stream::framing::{
    complete_jsonl_prefix_len, line_length, ConversationScanQuantum, LineAssembly,
};
use flow_agent_core::stream::layout::{
    conversation_segment_inventory, conversation_segment_path, run_segment_count, RunListing,
    SegmentLeaf, SegmentListing, StreamBase,
};
use flow_agent_core::stream::prefix::{
    canonical_jsonl_record, judge_jsonl_record, PrefixRead, PrefixStep, SegmentFound,
};
use flow_agent_core::stream::reader::{
    admit_read_request, admit_segment, segment_end, validate_jsonl_segment_snapshot, LineOffer,
    QuantumRead, SegmentScan,
};
use flow_agent_core::stream::writer::{
    append_validated_jsonl_line, jsonl_line, judge_canonical_jsonl_line,
    validate_canonical_jsonl_line, AppendTarget,
};

const BASE: StreamBase = StreamBase { has_parent: true, is_text: true, is_jsonl: true };

fn protocol_text<T>(result: Result<T, RuntimeError>) -> String {
    match result {
        Err(RuntimeError::Protocol(text)) => text,
        Err(other) => panic!("expected a protocol error, got {other:?}"),
        Ok(_) => panic!("expected a protocol error"),
    }
}

fn listing(leaf: SegmentLeaf, is_base: bool) -> SegmentListing {
    SegmentListing { is_base, leaf, is_symlink: false, is_file: true, bytes: 10 }
}

fn run_listing(ordinal: Option<usize>, is_base: bool) -> RunListing {
    RunListing { is_symlink: false, is_text: true, is_base, ordinal, is_file: true }
}

#[test]
fn the_complete_prefix_ends_with_the_last_line_end() {
    assert_eq!(complete_jsonl_prefix_len(b""), 0);
    assert_eq!(complete_jsonl_prefix_len(b"{}"), 0);
    assert_eq!(complete_jsonl_prefix_len(b"{}\n{"), 3);
    assert_eq!(complete_jsonl_prefix_len(b"{}\n{}\n"), 6);
    assert_eq!(line_length(b"ab\ncd"), 3);
}

#[test]
fn lines_are_put_together_from_pieces() {
    let mut assembly = LineAssembly::new(8);
    let (taken, line) = assembly.take(b"ab", "too long").expect("it is taken");
    assert_eq!((taken, line), (2, None));
    let (taken, line) = assembly.take(b"c\nrest", "too long").expect("it is taken");
    assert_eq!(taken, 2);
    assert_eq!(line.as_deref(), Some(b"abc\n".as_slice()));
    let mut narrow = LineAssembly::new(2);
    assert_eq!(protocol_text(narrow.take(b"abcd\n", "too long")), "too long");
}

#[test]
fn a_quantum_is_full_at_its_record_limit() {
    let mut quantum = ConversationScanQuantum::new();
    for _ in 0..4096 {
        assert!(quantum.admit_record(1).expect("a record is admitted").is_none());
    }
    let finished = quantum.admit_record(1).expect("the next quantum begins").expect("one is full");
    assert_eq!((finished.entries, finished.stored_bytes), (4096, 4096));
    assert_eq!(quantum.entries, 1);
    assert_eq!(
        protocol_text(quantum.admit_record(16 * 1024 * 1024 + 1)),
        "conversation record exceeds one scan quantum"
    );
}

#[test]
fn segments_are_contiguous_from_the_base() {
    let listings = vec![
        listing(SegmentLeaf::Ordinal(2), false),
        listing(SegmentLeaf::Unrelated, false),
        listing(SegmentLeaf::Ordinal(1), true),
        listing(SegmentLeaf::Ordinal(1), false),
    ];
    assert_eq!(
        conversation_segment_inventory(BASE, &listings, None, 100, "h.jsonl").expect("two"),
        2
    );
    assert_eq!(
        protocol_text(conversation_segment_inventory(
            BASE,
            &vec![listing(SegmentLeaf::Ordinal(3), false)],
            None,
            100,
            "h.jsonl"
        )),
        "conversation stream segment ordinals are not contiguous"
    );
    assert_eq!(
        protocol_text(conversation_segment_inventory(BASE, &listings, None, 9, "h.jsonl")),
        "conversation stream segment exceeds its byte limit"
    );
    match conversation_segment_inventory(BASE, &Vec::new(), None, 100, "h.jsonl") {
        Err(RuntimeError::Io { path, kind, .. }) => {
            assert_eq!(path, "h.jsonl");
            assert_eq!(kind, IoKind::NotFound);
        }
        other => panic!("expected a missing stream, got {other:?}"),
    }
    assert_eq!(
        protocol_text(conversation_segment_inventory(
            StreamBase { is_jsonl: false, ..BASE },
            &listings,
            None,
            100,
            "h"
        )),
        "conversation stream name must end in .jsonl"
    );
    assert_eq!(
        protocol_text(conversation_segment_path(BASE, 1, true)),
        "conversation stream segment ordinal is exhausted"
    );
}

#[test]
fn the_segments_of_a_run_are_counted() {
    let listings = vec![run_listing(None, true), run_listing(Some(2), false)];
    assert_eq!(run_segment_count(&listings, None, "events", 2).expect("two segments"), 2);
    assert_eq!(
        protocol_text(run_segment_count(&listings, None, "events", 1)),
        "productive recovery events prefix has too many segments"
    );
    assert_eq!(
        protocol_text(run_segment_count(&vec![run_listing(Some(2), false)], None, "events", 9)),
        "run events stream is missing"
    );
    let link = RunListing { is_symlink: true, ..run_listing(None, true) };
    assert_eq!(
        protocol_text(run_segment_count(&vec![link], None, "events", 9)),
        "run stream inventory must not contain symlinks"
    );
}

#[test]
fn lines_are_appended_to_the_segment_with_room() {
    assert_eq!(
        append_validated_jsonl_line(Ok(1), Ok(90), 10, 100, BASE, true).expect("it fits"),
        AppendTarget { ordinal: 1, prior_bytes: 90 }
    );
    assert_eq!(
        append_validated_jsonl_line(Ok(1), Ok(91), 10, 100, BASE, true).expect("a new one"),
        AppendTarget { ordinal: 2, prior_bytes: 0 }
    );
    assert_eq!(
        protocol_text(append_validated_jsonl_line(Ok(1), Ok(0), 101, 100, BASE, true)),
        "conversation record exceeds its segment byte limit"
    );
    assert_eq!(
        protocol_text(append_validated_jsonl_line(Ok(1), Ok(91), 10, 100, BASE, false)),
        "conversation stream segment ordinal is exhausted"
    );
}

#[test]
fn only_canonical_json_is_appended() {
    let canonical = Ok("{\"a\":1}".to_owned());
    assert!(validate_canonical_jsonl_line("{\"a\":1}\n", &canonical).is_ok());
    assert_eq!(
        protocol_text(validate_canonical_jsonl_line("{\"a\": 1}\n", &canonical)),
        "conversation record is not canonical JSON"
    );
    assert_eq!(
        protocol_text(validate_canonical_jsonl_line("{\"a\":\n", &canonical)),
        "conversation record is not JSON"
    );
    assert_eq!(
        protocol_text(validate_canonical_jsonl_line("{\"a\":1}", &canonical)),
        "conversation record framing is invalid"
    );
    assert_eq!(
        protocol_text(validate_canonical_jsonl_line("{\"a\":1}\r\n", &canonical)),
        "conversation record framing is invalid"
    );
    assert_eq!(
        protocol_text(validate_canonical_jsonl_line("1.5\n", &Err("float".to_owned()))),
        "conversation record is invalid: float"
    );
    assert_eq!(
        protocol_text(judge_canonical_jsonl_line(
            "{\"a\":1}\n",
            &Err("no".to_owned()),
            &canonical
        )),
        "conversation record is not JSON"
    );
    assert_eq!(jsonl_line("{}").expect("it is short"), "{}\n");
    assert_eq!(
        protocol_text(jsonl_line(&"x".repeat(256 * 1024 + 1))),
        "conversation record exceeds its byte limit"
    );
}

#[test]
fn a_recovered_line_is_canonical_json() {
    let canonical = Ok("{\"a\":1}".to_owned());
    assert_eq!(
        canonical_jsonl_record("{\"a\":1}\n", &canonical, "event").expect("it is canonical"),
        "{\"a\":1}\n"
    );
    assert_eq!(
        protocol_text(canonical_jsonl_record("?\n", &canonical, "event")),
        "productive recovery event prefix is invalid JSON: expected value at line 1 column 1"
    );
    assert_eq!(
        protocol_text(canonical_jsonl_record("{\"a\": 1}\n", &canonical, "context")),
        "productive recovery context prefix is not canonical JSONL"
    );
    assert_eq!(
        protocol_text(judge_jsonl_record("{}\n", &Ok(()), &Err("deep".to_owned()), "event")),
        "productive recovery event prefix is invalid: deep"
    );
}

#[test]
fn a_prefix_is_read_segment_by_segment() {
    let segments = vec![
        SegmentFound { bytes: 3, last: Some(b'\n') },
        SegmentFound { bytes: 3, last: Some(b'\n') },
    ];
    let mut read = PrefixRead::open(&segments, "events", 100, 100, 50)
        .unwrap_or_else(|error| panic!("the prefix is accepted: {error:?}"));
    assert!(read.has_segment());
    assert!(matches!(read.next_line(b"{}\n"), Ok(PrefixStep::Line)));
    assert!(matches!(read.next_line(b""), Ok(PrefixStep::NextSegment)));
    assert!(matches!(read.next_line(b"{}\n"), Ok(PrefixStep::Line)));
    read.reset();
    assert_eq!((read.segment_index, read.byte_offset), (0, 0));
    assert!(PrefixRead::open(&segments, "events", 2, 100, 50).is_err());
}

#[test]
fn reads_and_segments_are_bounded() {
    assert!(admit_read_request(1024 * 1024, "p").is_ok());
    match admit_read_request(1024 * 1024 + 1, "p") {
        Err(RuntimeError::Io { path, kind, message }) => {
            assert_eq!(path, "p");
            assert_eq!(kind, IoKind::InvalidInput);
            assert_eq!(message, "conversation read request exceeds its buffer limit");
        }
        other => panic!("expected an I/O error, got {other:?}"),
    }
    assert_eq!(
        protocol_text(admit_segment("events.jsonl", 11, 10)),
        "events.jsonl read size 11 bytes exceeds max 10"
    );
    assert!(validate_jsonl_segment_snapshot("p", 5, true, 0, 0).is_ok());
    assert!(validate_jsonl_segment_snapshot("p", 5, true, 6, 0).is_err());
}

#[test]
fn a_segment_is_scanned_line_by_line() {
    let end = segment_end(Some(b'\n'));
    let mut quantum = ConversationScanQuantum::new();
    let mut scan = SegmentScan::scan("events.jsonl", 6, end, 10, true)
        .unwrap_or_else(|error| panic!("the segment ends with a line end: {error:?}"));
    let (taken, line) = scan.take(b"{}\n{}\n", &mut quantum).expect("a line is taken");
    assert_eq!((taken, line.as_deref()), (3, Some("{}\n")));
    scan.take(b"{}\n", &mut quantum).expect("a line is taken");
    assert_eq!(scan.finish().expect("everything is read"), 6);
    let partial = segment_end(Some(b'}'));
    assert_eq!(
        protocol_text(SegmentScan::scan("events.jsonl", 6, partial, 10, true)),
        "events.jsonl non-final segment must end with LF"
    );
}

#[test]
fn a_stream_is_read_in_quanta() {
    let mut read = QuantumRead::read_jsonl_quantum_from_segments(1, None).expect("there is a segment");
    let (offset, _) = read.open_segment("history.jsonl", 3).expect("the segment is opened");
    assert_eq!(offset, 0);
    match read.offer_line("history.jsonl", &b"{}\n".to_vec()) {
        Ok(LineOffer::Record(text)) => assert_eq!(text, "{}"),
        _ => panic!("the line is a record"),
    }
    read.accept_record("{}", "{}", 3).expect("it is canonical");
    assert!(read.accept_record("{ }", "{}", 4).is_err());
    assert!(!read.end_segment("history.jsonl").expect("the segment ends"));
}

#[test]
fn two_segments_are_read_in_one_pass() {
    let mut read =
        QuantumRead::read_jsonl_quantum_from_segments(2, None).expect("there are segments");
    let mut texts = Vec::new();
    for (path, line, more) in
        [("history.jsonl", "{\"a\":1}\n", true), ("history-2.jsonl", "{\"b\":2}\n", false)]
    {
        let (offset, remaining) =
            read.open_segment(path, line.len() as u64).expect("the segment is opened");
        assert_eq!((offset, remaining), (0, line.len() as u64));
        match read.offer_line(path, &line.as_bytes().to_vec()) {
            Ok(LineOffer::Record(text)) => {
                read.accept_record(&text, &text, line.len()).expect("it is canonical");
                texts.push(text);
            }
            _ => panic!("the line is a record"),
        }
        assert_eq!(read.end_segment(path).expect("the segment ends"), more);
    }
    assert_eq!(texts, vec!["{\"a\":1}".to_owned(), "{\"b\":2}".to_owned()]);
}
