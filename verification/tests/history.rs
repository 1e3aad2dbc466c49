use flow_agent_core::contract::{Checked, DirectoryIdentity};
use flow_agent_core::error::RuntimeError;
use flow_agent_core::history::construction::{
    append_conversation_entry, BuildStage, ConversationHistoryIndex, IndexBuild, KnownHistory,
};
use flow_agent_core::history::external_sort::{
    event_pointer_sort_record_limit, index_sort_record_limit, sort_run, MergeSchedule, RecordMerge,
};
use flow_agent_core::history::identifiers::{
    collect_identifiers, decode_event_identifier_record, encode_event_identifier_record,
    event_identifier_record, identifier_kind_from_byte, EventStateIdentifierKind, IdentifierValue,
};
use flow_agent_core::history::index::{
    revisit_ancestor, AncestryWalk, EntryCount, IndexScanStep, SortedIndexScan,
};
use flow_agent_core::history::model::{
    productive_run_checkpoint, validate_conversation_entry, ConversationEntry,
    ConversationEntryType,
};
use flow_agent_core::history::pointers::{decode_index_id, segment_spans, CommittedScan};
use flow_agent_core::history::records::{
    encode_event_pointer_record, encode_record, event_pointer_sequence, record_fits, record_id,
    record_ordinal, record_parent, IndexLayout,
};
use flow_agent_core::history::scratch::{
    available_bytes, created_usage, event_identifier_run_leaf, event_pointer_run_leaf,
    index_run_leaf, new_marker, read_marker, remove_scratch_dir, scratch_leaf, scratch_members,
    valid_scratch_leaf, valid_scratch_member, validate_inactive_scratch, CreationReply,
    HistoryScratch, InactiveScratch, RemovalReply, ScratchCreation, ScratchMembers, ScratchRemoval,
};
use flow_agent_core::history::search::{
    find_record_in_memory, validate_sorted_index_in_memory, IndexSearch,
};
use flow_agent_core::history::tokens::{
    assign_event_identifier_group, assign_event_identifier_tokens, event_identifier_token,
    IdentifierGroups, IdentifierTokenLocation,
};
use flow_agent_core::history::validation::{
    identifier, EventReply, EventStage, EventValidation, PointerBuild, PointerStage, PointerStep,
    SortedPointerScan,
};
use flow_agent_core::history::work::{history_scratch_limit, history_work_limit, WorkBudget};
use flow_agent_core::listing::ListedName;

const LAYOUT: IndexLayout = IndexLayout { max_id_bytes: 128 };
const SNAPSHOT: &str = "ba7816bf8f01cfea414140de5dae2223b00361a396177a9cb410ff61f20015ad";

fn protocol_text<T>(result: Result<T, RuntimeError>) -> String {
    match result {
        Err(RuntimeError::Protocol(text)) => text,
        Err(other) => panic!("expected a protocol error, got {other:?}"),
        Ok(_) => panic!("expected a protocol error"),
    }
}

fn id(text: &str) -> Checked {
    Checked { text: text.to_owned(), valid: true }
}

fn entry(name: &str, parent: Option<&str>, run: &str, sequence: u64) -> ConversationEntry {
    ConversationEntry {
        schema: "flow-conversation-entry-v1".to_owned(),
        entry_id: id(name),
        parent_entry_id: parent.map(id),
        recovery_snapshot_hash: Some(SNAPSHOT.to_owned()),
        run_session_id: id(run),
        event_sequence: sequence,
        entry_type: if parent.is_some() {
            ConversationEntryType::Continuation
        } else {
            ConversationEntryType::Checkpoint
        },
        timestamp: id("2026-01-01T00:00:00Z"),
    }
}

fn plenty() -> WorkBudget {
    WorkBudget { used: 0, limit: 1_000_000 }
}

fn build_of(entries: u64, sort_limit: usize) -> IndexBuild {
    let mut build = ConversationHistoryIndex::build(
        Ok(entries),
        LAYOUT,
        sort_limit,
        Some("b".to_owned()),
        Some("run-2".to_owned()),
    )
    .unwrap_or_else(|error| panic!("the limits are within bounds: {error:?}"));
    build.reserved(true);
    build
}

#[test]
fn budgets_grow_with_the_history() {
    assert_eq!(history_work_limit(0).expect("a budget is given"), 256);
    assert_eq!(history_work_limit(1).expect("a budget is given"), 256);
    assert_eq!(history_work_limit(8).expect("a budget is given"), 4096);
    assert_eq!(
        protocol_text(history_work_limit(u64::MAX)),
        "conversation history work budget overflow"
    );
    assert_eq!(history_scratch_limit(3).expect("a budget is given"), 16_780_288);
    assert!(history_scratch_limit(u64::MAX).is_err());
}

#[test]
fn work_beyond_the_budget_is_refused() {
    let mut work = WorkBudget { used: 1, limit: 3 };
    assert!(work.add(2).is_ok());
    assert_eq!(
        protocol_text(work.add(1)),
        "conversation history exceeds its O(n log n) work budget"
    );
    let mut full = WorkBudget { used: u64::MAX, limit: u64::MAX };
    assert_eq!(protocol_text(full.add(1)), "conversation history work count overflow");
}

#[test]
fn entries_are_checked_against_their_schema() {
    assert!(validate_conversation_entry(&entry("a", None, "run-1", 1)).is_ok());
    let mut wrong = entry("a", None, "run-1", 1);
    wrong.recovery_snapshot_hash = None;
    assert_eq!(
        protocol_text(validate_conversation_entry(&wrong)),
        "conversation entry v1 must address a recovery snapshot"
    );
    wrong.schema = "flow-conversation-entry-v0".to_owned();
    assert!(validate_conversation_entry(&wrong).is_ok());
    wrong.schema = "flow-conversation-entry-v9".to_owned();
    assert_eq!(
        protocol_text(validate_conversation_entry(&wrong)),
        "conversation entry has an unsupported schema"
    );
    let mut typed = entry("a", Some("root"), "run-1", 1);
    typed.entry_type = ConversationEntryType::Checkpoint;
    assert_eq!(
        protocol_text(validate_conversation_entry(&typed)),
        "conversation entry v1 type does not match its ancestry"
    );
    assert_eq!(
        protocol_text(validate_conversation_entry(&entry("a", None, "run-1", 0))),
        "conversation entry event_sequence must be positive"
    );
}

#[test]
fn a_checkpoint_is_named_by_what_it_records() {
    let checkpoint = productive_run_checkpoint(
        "c",
        &id("run-1"),
        None,
        SNAPSHOT,
        7,
        &id("2026-01-01T00:00:00Z"),
        true,
    )
    .unwrap_or_else(|error| panic!("the checkpoint is made: {error:?}"));
    assert!(checkpoint.entry_id.text.starts_with("entry-"));
    assert_eq!(checkpoint.entry_id.text.len(), 70);
    assert_eq!(checkpoint.entry_type, ConversationEntryType::Checkpoint);
    assert!(validate_conversation_entry(&checkpoint).is_ok());
}

#[test]
fn records_give_back_what_they_were_made_of() {
    let record = encode_record(LAYOUT, &entry("b", Some("a"), "run-1", 9), 4)
        .unwrap_or_else(|error| panic!("the record is laid out: {error:?}"));
    assert_eq!(record.len(), 3 * 129 + 16);
    assert!(record_fits(LAYOUT, &record));
    assert_eq!(record_id(&record), b"b");
    assert_eq!(record_parent(LAYOUT, &record), Some(b"a".as_slice()));
    assert_eq!(record_ordinal(LAYOUT, &record), 4);
    let pointer = encode_event_pointer_record(LAYOUT, &record);
    assert_eq!(record_id(&pointer), b"run-1");
    assert_eq!(event_pointer_sequence(LAYOUT, &pointer), 9);
    let long = "x".repeat(129);
    assert_eq!(
        protocol_text(encode_record(LAYOUT, &entry(&long, None, "run-1", 1), 0)),
        "conversation history index id is oversized"
    );
}

#[test]
fn sort_limits_follow_from_the_record_widths() {
    assert_eq!(index_sort_record_limit(LAYOUT), 16 * 1024 * 1024 / 403);
    assert_eq!(event_pointer_sort_record_limit(LAYOUT), 16 * 1024 * 1024 / 137);
}

#[test]
fn runs_are_sorted_and_merged_in_order() {
    let record = |name: &str| {
        encode_record(LAYOUT, &entry(name, None, "run-1", 1), 0).expect("the record is laid out")
    };
    let mut chunk = vec![record("c"), record("a"), record("b")];
    let mut work = plenty();
    sort_run(&mut chunk, &mut work).expect("the chunk is sorted");
    let ids: Vec<&[u8]> = chunk.iter().map(record_id).collect();
    assert_eq!(ids, vec![b"a".as_slice(), b"b", b"c"]);
    assert!(work.used > 0);

    let runs = [vec!["a", "d"], vec!["b", "c"]];
    let mut next = [1usize, 1];
    let mut merge =
        RecordMerge::merge_record_run_group(vec![Some(record("a")), Some(record("b"))]);
    let mut written = Vec::new();
    while let Some(run) = merge.choose_run(&mut work).expect("the budget is enough") {
        written.push(record_id(merge.heads[run].as_ref().expect("a record is chosen")).to_vec());
        let following = runs[run].get(next[run]).map(|name| record(name));
        next[run] += 1;
        merge.replace_head(following);
    }
    assert_eq!(written, vec![b"a".to_vec(), b"b".to_vec(), b"c".to_vec(), b"d".to_vec()]);
}

#[test]
fn runs_are_merged_in_groups_until_one_is_left() {
    let mut schedule = MergeSchedule::merge_all_record_runs(65);
    let first = schedule.next_group("overflow").expect("a group is given").expect("runs are left");
    assert_eq!((first.first, first.length, first.output, first.next_generation), (0, 64, 0, 1));
    let second = schedule.next_group("overflow").expect("a group is given").expect("one is left");
    assert_eq!((second.first, second.length, second.output), (64, 1, 1));
    assert_eq!((schedule.generation, schedule.count), (1, 2));
    let third = schedule.next_group("overflow").expect("a group is given").expect("two are left");
    assert_eq!((third.first, third.length, third.next_generation), (0, 2, 2));
    assert!(schedule.next_group("overflow").expect("it is done").is_none());
    assert_eq!(schedule.count, 1);
}

#[test]
fn generations_grow_with_the_logarithm_of_the_runs() {
    for (runs, generations) in [(0, 0), (1, 0), (2, 1), (64, 1), (65, 2), (4096, 2), (4097, 3)] {
        let mut schedule = MergeSchedule::merge_all_record_runs(runs);
        while schedule.next_group("overflow").expect("generations are left").is_some() {}
        assert_eq!((schedule.generation, schedule.count), (generations, runs.min(1)));
    }
}

#[test]
fn an_index_is_built_entry_by_entry() {
    let mut build = build_of(3, 2);
    assert_eq!(build.stage, BuildStage::Read);
    assert_eq!(build.scratch_limit, 3 * 1024 + 16 * 1024 * 1024);
    build.quantum_read(Ok((
        vec![
            entry("a", None, "run-1", 1),
            entry("b", Some("a"), "run-1", 2),
            entry("c", Some("b"), "run-2", 1),
        ],
        false,
    )));
    assert_eq!(build.stage, BuildStage::Entry);
    build.take_entry();
    assert_eq!(build.stage, BuildStage::CheckRun);
    build.run_checked(Ok(()));
    build.take_entry();
    assert_eq!(build.stage, BuildStage::Sort { last: false });
    let (run, leaf) = build.sort_chunk().expect("the chunk is sorted");
    assert_eq!(run.len(), 2);
    assert_eq!(leaf, "g000-r0000000000000000.bin");
    build.run_written(Ok(()));
    build.take_entry();
    assert_eq!(build.stage, BuildStage::CheckRun);
    build.run_checked(Ok(()));
    assert_eq!(build.stage, BuildStage::Sort { last: true });
    build.sort_chunk().expect("the chunk is sorted");
    build.run_written(Ok(()));
    assert_eq!(build.stage, BuildStage::Merge);
    build.merged(Ok((1, 1)));
    assert_eq!(build.stage, BuildStage::Scan);
    assert_eq!(build.leaf(), "g001-r0000000000000000.bin");
    for (ordinal, (name, parent)) in [("a", None), ("b", Some("a")), ("c", Some("b"))]
        .into_iter()
        .enumerate()
    {
        let record = encode_record(LAYOUT, &entry(name, parent, "run-1", 1), ordinal as u64)
            .expect("the record is laid out");
        let named = build.scan_record(Ok(Some(record)));
        assert_eq!(named, parent.map(|parent| parent.as_bytes().to_vec()));
        if named.is_some() {
            build.parent_looked_up(Ok(Some(ordinal as u64 - 1)));
        }
        assert_eq!(build.stage, BuildStage::Scan);
    }
    assert!(build.scan_record(Ok(None)).is_none());
    assert_eq!(build.stage, BuildStage::Pointers);
    build.checked(Ok(()));
    assert_eq!(build.stage, BuildStage::Built);
    let (index, summary) = build.finish();
    assert_eq!(index.entries, 3);
    assert_eq!(summary.entry_count, 3);
    assert_eq!(summary.latest.map(|entry| entry.entry_id.text).as_deref(), Some("c"));
    assert_eq!(summary.selected.map(|entry| entry.entry_id.text).as_deref(), Some("b"));
    assert!(summary.contains_run);
}

#[test]
fn an_index_that_cannot_be_built_is_taken_away() {
    let mut build = build_of(1, 2);
    build.quantum_read(Ok((vec![entry("a", Some("nobody"), "run-1", 1)], false)));
    build.take_entry();
    assert_eq!(build.stage, BuildStage::Cleanup);
    build.cleaned(Err(RuntimeError::Protocol("cleanup failed".to_owned())));
    assert_eq!(build.stage, BuildStage::Failed);
    let texts: Vec<String> = build
        .failures
        .into_iter()
        .map(|error| protocol_text::<()>(Err(error)))
        .collect();
    assert_eq!(
        texts,
        vec!["the conversation root must omit its parent", "cleanup failed"]
    );

    let mut refused = ConversationHistoryIndex::build(Ok(1), LAYOUT, 2, None, None)
        .unwrap_or_else(|error| panic!("the limits are within bounds: {error:?}"));
    refused.reserved(false);
    assert_eq!(
        protocol_text::<()>(Err(refused.failures.remove(0))),
        "conversation history sort memory admission failed"
    );
}

#[test]
fn an_empty_history_has_an_empty_index() {
    let mut build = build_of(0, 2);
    build.quantum_read(Ok((Vec::new(), false)));
    assert_eq!(build.stage, BuildStage::Merge);
    build.merged(Ok((0, 0)));
    assert_eq!(build.stage, BuildStage::CreateEmpty);
    build.checked(Ok(()));
    assert_eq!(build.stage, BuildStage::Scan);
    assert!(build.scan_record(Ok(None)).is_none());
    assert_eq!(build.stage, BuildStage::Pointers);
}

#[test]
fn an_appended_entry_needs_its_place() {
    let append = |entry: &ConversationEntry, history: KnownHistory| {
        append_conversation_entry(&id("c"), entry, Ok(()), Ok(history), Ok(()), Ok(()))
    };
    let root = entry("a", None, "run-1", 1);
    let child = entry("b", Some("a"), "run-1", 2);
    assert!(append(&root, KnownHistory::Missing).is_ok());
    assert_eq!(
        protocol_text(append(&child, KnownHistory::Missing)),
        "the conversation root must omit its parent"
    );
    let indexed = |count: u64, duplicate: bool, parent: bool| KnownHistory::Indexed {
        count,
        duplicate: Ok(duplicate),
        parent: Ok(parent),
    };
    assert!(append(&child, indexed(1, false, true)).is_ok());
    assert_eq!(
        protocol_text(append(&child, indexed(1, true, true))),
        "conversation entry id is duplicated"
    );
    assert_eq!(
        protocol_text(append(&child, indexed(1, false, false))),
        "conversation parent entry does not exist"
    );
    assert_eq!(
        protocol_text(append(&root, indexed(1, false, false))),
        "only the conversation root may omit its parent"
    );
    assert!(append_conversation_entry(
        &Checked { text: "?".to_owned(), valid: false },
        &root,
        Ok(()),
        Ok(KnownHistory::Missing),
        Ok(()),
        Ok(())
    )
    .is_err());
}

#[test]
fn records_are_found_in_a_sorted_index() {
    let records: Vec<Vec<u8>> = [("a", None), ("b", Some("a")), ("c", Some("b"))]
        .iter()
        .enumerate()
        .map(|(ordinal, (name, parent))| {
            encode_record(LAYOUT, &entry(name, *parent, "run-1", 1), ordinal as u64)
                .expect("the record is laid out")
        })
        .collect();
    let mut work = plenty();
    assert_eq!(find_record_in_memory(&records, b"b", &mut work).expect("it is looked for"), Some(1));
    assert_eq!(find_record_in_memory(&records, b"x", &mut work).expect("it is looked for"), None);
    assert!(validate_sorted_index_in_memory(LAYOUT, &records, &mut work).is_ok());
    let doubled = vec![records[0].clone(), records[0].clone()];
    assert_eq!(
        protocol_text(validate_sorted_index_in_memory(LAYOUT, &doubled, &mut work)),
        "conversation entry id is duplicated"
    );
    let orphan = vec![records[1].clone()];
    assert_eq!(
        protocol_text(validate_sorted_index_in_memory(LAYOUT, &orphan, &mut work)),
        "conversation parent entry does not precede its child"
    );

    let mut search = IndexSearch::start(3);
    let mut found = None;
    while let Some(middle) = search.next_probe(&mut work).expect("the budget is enough") {
        found = search
            .find_record_in(Some(records[middle as usize].clone()), b"c")
            .expect("a record is read");
        if found.is_some() {
            break;
        }
    }
    assert_eq!(found.as_deref().map(|record| record.len()), Some(403));
    let mut truncated = IndexSearch::start(1);
    assert_eq!(
        protocol_text(truncated.find_record_in(None, b"c")),
        "conversation history index lookup ended early"
    );
}

#[test]
fn a_stored_index_is_read_in_order() {
    let record = |name: &str, parent: Option<&str>, ordinal: u64| {
        encode_record(LAYOUT, &entry(name, parent, "run-1", 1), ordinal)
            .expect("the record is laid out")
    };
    let mut work = plenty();
    let mut scan = SortedIndexScan::validate_sorted_index(LAYOUT, 2);
    assert!(matches!(
        scan.observe(Some(record("a", None, 0)), &mut work),
        Ok(IndexScanStep::Next)
    ));
    match scan.observe(Some(record("b", Some("a"), 1)), &mut work) {
        Ok(IndexScanStep::LookUpParent(parent)) => assert_eq!(parent, b"a"),
        _ => panic!("the parent is looked up"),
    }
    assert_eq!(
        protocol_text(scan.parent_found(Some(1))),
        "conversation parent entry does not precede its child"
    );
    assert_eq!(
        protocol_text(scan.parent_found(None)),
        "conversation parent entry does not precede its child"
    );
    scan.parent_found(Some(0)).expect("the parent comes first");
    assert!(matches!(scan.observe(None, &mut work), Ok(IndexScanStep::Complete)));
    let mut short = SortedIndexScan::validate_sorted_index(LAYOUT, 1);
    assert_eq!(
        protocol_text(short.observe(None, &mut work)),
        "conversation history index ended early"
    );
    let mut long = SortedIndexScan::validate_sorted_index(LAYOUT, 0);
    assert_eq!(
        protocol_text(long.observe(Some(record("a", None, 0)), &mut work)),
        "conversation history index has trailing records"
    );
}

#[test]
fn ancestry_is_walked_to_the_root_and_given_from_it() {
    let mut walk = AncestryWalk::for_each_ancestry(2, b"b");
    assert!(walk.step(Some(Some(b"a".to_vec()))).expect("the entry is there"));
    assert!(!walk.step(Some(None)).expect("the root is there"));
    assert_eq!(walk.finish(), vec![b"a".to_vec(), b"b".to_vec()]);
    let mut cycle = AncestryWalk::for_each_ancestry(1, b"a");
    assert!(cycle.step(Some(Some(b"a".to_vec()))).expect("the entry is there"));
    assert_eq!(
        protocol_text(cycle.step(Some(Some(b"a".to_vec())))),
        "conversation ancestry cycle exceeds history"
    );
    let mut lost = AncestryWalk::for_each_ancestry(1, b"a");
    assert_eq!(protocol_text(lost.step(None)), "conversation ancestry has a missing parent");
}

#[test]
fn history_lines_are_counted() {
    let mut count = EntryCount::history_entry_count();
    count.begin_segment(8, 100).expect("the segment is small enough");
    count.line(b"{}\n").expect("the line is framed");
    count.line(b"{\"\"}\n").expect("the line is framed");
    assert_eq!(count.count, 2);
    assert!(count.end_segment(8, "history.jsonl").is_ok());
    assert_eq!(
        protocol_text(count.end_segment(9, "history.jsonl")),
        "history.jsonl changed while it was scanned"
    );
    assert_eq!(
        protocol_text(count.line(b"{}\r\n")),
        "conversation JSONL stream must use LF framing"
    );
    assert_eq!(
        protocol_text(count.begin_segment(101, 100)),
        "conversation stream segment exceeds its byte limit"
    );
}

#[test]
fn event_pointers_are_sorted_by_run_and_checked_once_each() {
    let record = |name: &str, run: &str, sequence: u64| {
        encode_record(LAYOUT, &entry(name, None, run, sequence), 0).expect("it is laid out")
    };
    let mut work = plenty();
    let mut build = PointerBuild::validate_history_event_pointers(LAYOUT, 3, 8);
    build.reserved(true).expect("memory is there");
    for record in [record("a", "run-2", 1), record("b", "run-1", 5), record("c", "run-1", 3)] {
        build.record_read(Some(record), &mut work).expect("the record is taken");
    }
    build.record_read(None, &mut work).expect("the index ends");
    assert_eq!(build.stage, PointerStage::Sort { last: true });
    let (pointers, leaf) = build.sort_chunk(&mut work).expect("they are sorted");
    assert_eq!(leaf, "pointer-g000-r0000000000000000.bin");
    build.run_written();
    build.merged(0, 1).expect("one run is left");
    assert_eq!(build.stage, PointerStage::Validate);
    assert_eq!(build.leaf(), "pointer-g000-r0000000000000000.bin");

    let mut scan = SortedPointerScan::validate_sorted_event_pointers(LAYOUT, 3);
    let mut checked = Vec::new();
    for pointer in pointers {
        if let PointerStep::Check(run) =
            scan.observe(Some(pointer), &mut work).expect("the pointer is taken")
        {
            checked.push((run.run_session_id, run.event_sequence));
        }
    }
    match scan.observe(None, &mut work).expect("the pointers end") {
        PointerStep::Complete(Some(run)) => checked.push((run.run_session_id, run.event_sequence)),
        _ => panic!("the last run is checked"),
    }
    assert_eq!(checked, vec![("run-1".to_owned(), 5), ("run-2".to_owned(), 1)]);
    build.finished();
    build.finished();
    assert_eq!(build.stage, PointerStage::Done);
}

#[test]
fn event_pointers_that_do_not_add_up_are_refused() {
    let mut work = plenty();
    let none = PointerBuild::validate_history_event_pointers(LAYOUT, 0, 8);
    assert_eq!(none.stage, PointerStage::Done);
    let mut build = PointerBuild::validate_history_event_pointers(LAYOUT, 1, 8);
    assert_eq!(
        protocol_text(build.reserved(false)),
        "conversation history pointer sort memory admission failed"
    );
    build.reserved(true).expect("memory is there");
    assert_eq!(
        protocol_text(build.record_read(None, &mut work)),
        "conversation history index ended early"
    );
    let mut scan = SortedPointerScan::validate_sorted_event_pointers(LAYOUT, 1);
    assert_eq!(
        protocol_text(scan.observe(None, &mut work)),
        "conversation history pointer index ended early"
    );
}

#[test]
fn the_events_of_a_run_are_read_in_three_passes() {
    let mut validation = EventValidation::validate_committed_event_pointer();
    let mut stages = Vec::new();
    while validation.stage != EventStage::Done {
        stages.push(validation.stage);
        let reply = if validation.stage == EventStage::Collect(1) {
            EventReply::Empty
        } else {
            EventReply::Done
        };
        validation.advance(Ok(reply)).expect("the stage is done");
    }
    assert_eq!(stages.len(), 4 + 5 + 2 + 5 + 2);
    assert_eq!(stages[9], EventStage::ReserveRecords(1));
    assert_eq!(stages[11], EventStage::ReserveRecords(2));
    let mut lacking = EventValidation::validate_committed_event_pointer();
    assert_eq!(
        protocol_text(lacking.advance(Ok(EventReply::Lacking))),
        "conversation runs directory disappeared"
    );
}

#[test]
fn identifiers_are_read_back_from_their_line() {
    let values = || {
        Ok(vec![
            IdentifierValue { kind: EventStateIdentifierKind::Flow, value: "f1".to_owned() },
            IdentifierValue { kind: EventStateIdentifierKind::Flow, value: "f2".to_owned() },
        ])
    };
    assert_eq!(
        identifier("events", b"{}\n", values(), EventStateIdentifierKind::Flow)
            .expect("it is there"),
        "f2"
    );
    assert_eq!(
        protocol_text(identifier("events", b"{}\n", values(), EventStateIdentifierKind::Tool)),
        "event identifier source no longer contains its field"
    );
    assert_eq!(
        protocol_text(identifier("events", b"{}", values(), EventStateIdentifierKind::Flow)),
        "committed event identifier source must end with LF"
    );
    let invalid =
        protocol_text(identifier("events", b"\xff\n", values(), EventStateIdentifierKind::Flow));
    assert_eq!(
        invalid,
        "events is not valid UTF-8: invalid utf-8 sequence of 1 bytes from index 0"
    );
}

#[test]
fn identifier_records_give_back_what_they_were_made_of() {
    let record = event_identifier_record(EventStateIdentifierKind::Tool, "abc", 77);
    assert_eq!(record.digest[0], 0xba);
    let bytes = encode_event_identifier_record(&record);
    assert_eq!(bytes.len(), 48);
    let decoded = decode_event_identifier_record(&bytes)
        .unwrap_or_else(|error| panic!("the record is decoded: {error:?}"));
    assert_eq!(decoded.kind, EventStateIdentifierKind::Tool);
    assert_eq!(decoded.digest, record.digest);
    assert_eq!(decoded.offset, 77);
    assert_eq!(
        protocol_text(identifier_kind_from_byte(9)),
        "event identifier index has an invalid kind"
    );
    let mut chunk = Vec::new();
    let values = vec![
        IdentifierValue { kind: EventStateIdentifierKind::Event, value: "e".to_owned() },
        IdentifierValue { kind: EventStateIdentifierKind::Flow, value: "f".to_owned() },
    ];
    collect_identifiers(&values, 1, 5, 1, &mut chunk).expect("one is collected");
    assert_eq!(chunk.len(), 1);
    assert_eq!(
        protocol_text(collect_identifiers(&values, 1, 5, 1, &mut chunk)),
        "event identifier sort record budget exceeded"
    );
}

#[test]
fn equal_identifiers_get_equal_tokens() {
    let values: Vec<String> = ["x", "y", "x"].iter().map(|value| (*value).to_owned()).collect();
    let mut next = 10u32;
    let mut work = plenty();
    let assigned =
        assign_event_identifier_group(&values, false, &mut next, &mut work).expect("tokens");
    let token = |position: usize| {
        assigned.iter().find(|given| given.position == position).expect("a token is given").token
    };
    assert_eq!(token(0), token(2));
    assert_ne!(token(0), token(1));
    assert_eq!(next, 12);
    assert_eq!(
        protocol_text(assign_event_identifier_group(&values, true, &mut next, &mut work)),
        "event stream must use unique event_id values"
    );
    let location = IdentifierTokenLocation::new(7, EventStateIdentifierKind::Flow, 255)
        .unwrap_or_else(|error| panic!("the offset fits: {error:?}"));
    assert_eq!(
        event_identifier_token(&vec![location], 7, EventStateIdentifierKind::Flow)
            .expect("it has a token"),
        "iff"
    );
    assert_eq!(
        protocol_text(event_identifier_token(&vec![location], 8, EventStateIdentifierKind::Flow)),
        "event identifier token mapping is incomplete"
    );
}

#[test]
fn offsets_are_located_in_their_segment() {
    let spans = segment_spans(&vec![3, 0, 5])
        .unwrap_or_else(|error| panic!("the segments fit: {error:?}"));
    assert_eq!(spans.locate(2).expect("it is in the first"), (0, 2));
    assert_eq!(spans.locate(3).expect("it is in the third"), (2, 0));
    assert_eq!(
        protocol_text(spans.locate(8)),
        "event identifier source offset is outside its segments"
    );
    assert!(segment_spans(&vec![u64::MAX, 1]).is_err());
    assert_eq!(decode_index_id(b"run").expect("it is text"), "run");
    assert_eq!(
        protocol_text(decode_index_id(&[0xff])),
        "conversation history index id is not UTF-8"
    );
}

#[test]
fn a_committed_event_is_reached_or_missing() {
    let mut scan = CommittedScan::new();
    assert!(scan.begin_line(b"{}\n").expect("the line is framed"));
    scan.end_line(3, 1, 1);
    assert!(scan.finish("run-1", 1).is_ok());
    assert!(!scan.begin_line(b"rest").expect("the rest is passed over"));
    let missing = CommittedScan::new();
    assert_eq!(
        protocol_text(missing.finish("run-1", 4)),
        "conversation history run run-1 has no committed event at sequence 4"
    );
}

#[test]
fn scratch_names_are_members_of_a_scratch() {
    let leaf = scratch_leaf(1, "c", 2, 3);
    assert!(valid_scratch_leaf(&leaf));
    assert_ne!(leaf, scratch_leaf(1, "c", 2, 4));
    assert_eq!(index_run_leaf(2, 17), "g002-r0000000000000017.bin");
    for member in [
        index_run_leaf(0, 0),
        event_pointer_run_leaf(1, 2),
        event_identifier_run_leaf(2),
        "marker.json".to_owned(),
        "lease".to_owned(),
    ] {
        assert!(valid_scratch_member(&member), "{member}");
    }
    assert!(!valid_scratch_member("event-ident-3.bin"));
    assert!(!valid_scratch_member("g1-r1.bin"));
}

#[test]
fn a_scratch_is_made_or_taken_away_again() {
    let identity = DirectoryIdentity { device: 1, inode: 2 };
    let mut scratch = HistoryScratch::create_in_root(100);
    scratch.advance(Ok(CreationReply::Space(100)));
    scratch.advance(Ok(CreationReply::Done));
    scratch.advance(Ok(CreationReply::Identity(identity)));
    scratch.measure_marker(60);
    scratch.advance(Ok(CreationReply::Done));
    scratch.advance(Ok(CreationReply::Done));
    scratch.advance(Ok(CreationReply::Lock { taken: true }));
    assert_eq!(scratch.stage, ScratchCreation::Created);
    let mut usage = created_usage(&scratch);
    assert_eq!(usage.plan_write(40).expect("it fits"), 100);
    assert_eq!(
        protocol_text(usage.plan_write(41)),
        "conversation history scratch exceeds its budget"
    );
    usage.record_write(100);
    usage.record_removal(30).expect("so much was written");
    assert_eq!(usage.current, 70);
    assert_eq!(
        protocol_text(usage.record_removal(71)),
        "conversation history scratch accounting underflow"
    );

    let mut cramped = HistoryScratch::create_in_root(100);
    cramped.advance(Ok(CreationReply::Space(99)));
    assert_eq!(cramped.stage, ScratchCreation::Refused);
    let mut active = HistoryScratch::create_in_root(100);
    active.advance(Ok(CreationReply::Space(100)));
    active.advance(Ok(CreationReply::Done));
    active.advance(Ok(CreationReply::Identity(identity)));
    active.advance(Ok(CreationReply::Done));
    active.advance(Ok(CreationReply::Done));
    active.advance(Ok(CreationReply::Lock { taken: false }));
    assert_eq!(active.stage, ScratchCreation::Rollback);
    active.advance(Ok(CreationReply::Done));
    assert_eq!(active.stage, ScratchCreation::Refused);
    assert_eq!(
        protocol_text::<()>(Err(active.failures.remove(0))),
        "history validation scratch is active"
    );
    assert_eq!(available_bytes(3, 4096).expect("it fits"), 12_288);
    assert!(available_bytes(u64::MAX, 2).is_err());
}

#[test]
fn a_leftover_scratch_is_known_by_its_marker() {
    let identity = DirectoryIdentity { device: 1, inode: 2 };
    let named = |names: &[&str]| {
        scratch_members(
            names.iter().map(|name| ListedName::Name((*name).to_owned())).collect(),
        )
    };
    let members = named(&["marker.json", "lease"]);
    assert!(matches!(
        validate_inactive_scratch(
            Ok(Some(identity)),
            members,
            Ok(new_marker("leaf", identity)),
            "leaf"
        ),
        Ok(InactiveScratch::TryLease)
    ));
    assert_eq!(
        protocol_text(validate_inactive_scratch(
            Ok(Some(identity)),
            named(&["marker.json"]),
            Ok(new_marker("leaf", DirectoryIdentity { device: 1, inode: 3 })),
            "leaf"
        )),
        "history validation scratch identity is invalid"
    );
    assert_eq!(
        protocol_text(named(&["passwords"])),
        "history validation scratch contains foreign bytes"
    );
    assert_eq!(
        protocol_text(read_marker(Ok(b"{}".to_vec()), None)),
        "history validation scratch marker framing is invalid"
    );
    assert_eq!(
        protocol_text(read_marker(Ok(b"{}\n".to_vec()), None)),
        "history validation scratch marker is invalid"
    );
    assert!(read_marker(Ok(b"{}\n".to_vec()), Some(new_marker("leaf", identity))).is_ok());
}

#[test]
fn a_scratch_goes_only_where_it_is_the_same_one() {
    let identity = DirectoryIdentity { device: 1, inode: 2 };
    let other = DirectoryIdentity { device: 1, inode: 3 };
    let opened =
        remove_scratch_dir(ScratchRemoval::Open, RemovalReply::Opened(Some(identity)), "l", identity);
    assert!(matches!(opened, Ok(ScratchRemoval::List)));
    assert_eq!(
        protocol_text(remove_scratch_dir(
            ScratchRemoval::Open,
            RemovalReply::Opened(Some(other)),
            "l",
            identity
        )),
        "history validation scratch identity changed before cleanup"
    );
    let members = ScratchMembers { count: 0, lease: false, marker: false };
    assert!(matches!(
        remove_scratch_dir(ScratchRemoval::List, RemovalReply::Listed(members), "l", identity),
        Ok(ScratchRemoval::InspectEmpty)
    ));
    assert_eq!(
        protocol_text(remove_scratch_dir(
            ScratchRemoval::InspectEmpty,
            RemovalReply::Empty { identity, has_entry: false, reopened: Some(other) },
            "l",
            identity
        )),
        "history validation scratch was replaced before removal"
    );
    assert!(matches!(
        remove_scratch_dir(
            ScratchRemoval::TryLease,
            RemovalReply::Lease { taken: false },
            "l",
            identity
        ),
        Ok(ScratchRemoval::Done)
    ));
}

#[test]
fn identifiers_get_tokens_by_group() {
    let mut groups = IdentifierGroups::new();
    let first = event_identifier_record(EventStateIdentifierKind::Flow, "f", 0);
    let again = event_identifier_record(EventStateIdentifierKind::Flow, "f", 9);
    let other = event_identifier_record(EventStateIdentifierKind::Flow, "g", 9);
    assert!(groups.observe(first).is_none());
    assert!(groups.observe(again).is_none());
    let ended = groups.observe(other).expect("another identifier ends the group");
    assert_eq!(ended.len(), 2);
    let mut tokens = Vec::new();
    let mut next_token = 0u32;
    let mut work = WorkBudget { used: 0, limit: 1000 };
    let values = vec!["f".to_owned(), "f".to_owned()];
    assign_event_identifier_tokens(&ended, &values, &mut tokens, &mut next_token, &mut work)
        .expect("there is room");
    let last = groups.finish().expect("a record is left");
    assert_eq!(last.len(), 1);
    let values = vec!["g".to_owned()];
    assign_event_identifier_tokens(&last, &values, &mut tokens, &mut next_token, &mut work)
        .expect("there is room");
    assert_eq!(next_token, 2);
    let found: Vec<(u32, u32)> = tokens.iter().map(|found| (found.offset, found.token)).collect();
    assert_eq!(found, vec![(0, 0), (9, 0), (9, 1)]);

    let twice = vec![
        event_identifier_record(EventStateIdentifierKind::Event, "e", 0),
        event_identifier_record(EventStateIdentifierKind::Event, "e", 9),
    ];
    let values = vec!["e".to_owned(), "e".to_owned()];
    assert_eq!(
        protocol_text(assign_event_identifier_tokens(
            &twice,
            &values,
            &mut tokens,
            &mut next_token,
            &mut work
        )),
        "event stream must use unique event_id values"
    );
    let far = vec![event_identifier_record(
        EventStateIdentifierKind::Tool,
        "t",
        u64::from(u32::MAX) + 1,
    )];
    assert_eq!(
        protocol_text(assign_event_identifier_tokens(
            &far,
            &vec!["t".to_owned()],
            &mut tokens,
            &mut next_token,
            &mut work
        )),
        "event identifier mapping offset overflow"
    );
}

#[test]
fn an_ancestor_is_looked_up_again() {
    assert_eq!(revisit_ancestor(Some(vec![1])).expect("it is there"), vec![1]);
    assert_eq!(
        protocol_text(revisit_ancestor(None)),
        "conversation ancestry index lost an existing entry"
    );
}
