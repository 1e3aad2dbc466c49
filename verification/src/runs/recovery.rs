//! The recovery snapshot of a run: what it had done, record by record.

use crate::contract::{validate_attempt_id, validate_hash, validate_id, validate_timestamp, Checked, MAX_CONVERSATION_RECORD_BYTES};
use crate::contract;
use crate::error::{protocol, ErrorModel, RuntimeError};
use crate::error;
use crate::json::read_json_bytes;
use crate::json;
use crate::runs::objects::{validate_recovery_object_uri, ObjectUri};
use crate::runs::objects;
use crate::stream::framing::{CARRIAGE_RETURN, LINE_FEED};
use crate::stream::writer::contains_byte;
use crate::stream::writer;
use crate::text::{join2, same_bytes, same_text};
use vstd::prelude::*;
use vstd::utf8::*;

verus! {

pub const PRODUCTIVE_RECOVERY_SCHEMA_V0: &'static str = "flow-productive-recovery-v0";

/// What a run was given: nothing, or a value in its canonical form, with what its
/// grammar has against it.
pub enum RootInput {
    Null,
    Value { canonical: String, fault: Option<String> },
}

/// The first record of a snapshot: which run it is of, and what it began with.
pub struct RecoveryHeader {
    pub schema: String,
    pub conversation_id: Checked,
    pub run_session_id: Checked,
    pub flow_definition_id: Checked,
    pub registry_hash: String,
    pub flow_definition_hash: String,
    pub root_input: RootInput,
    pub parent_entry_id: Option<Checked>,
    pub event_clock_base_unix_seconds: i64,
    pub prior_history_object: ObjectUri,
    pub prior_event_count: u64,
}

/// What came of an attempt that is not to be made again.
pub struct RecoveredAttempt {
    pub schema: String,
    pub attempt_id: Checked,
    pub request_hash: String,
    pub outcome: String,
    pub classification: Option<String>,
    pub exit_code: Option<i32>,
    pub timestamp: Checked,
    pub durable_output: String,
}

/// A record of a snapshot.
pub enum ProductiveRecoveryRecord {
    Header(RecoveryHeader),
    Provider(RecoveredAttempt),
    Tool { attempt: RecoveredAttempt, tool_id: Checked },
    Phase {
        schema: String,
        flow_execution_id: Checked,
        phase_execution_id: Checked,
        phase_id: Checked,
        iteration: u32,
        result_object: ObjectUri,
        will_repeat: bool,
    },
    Transition {
        schema: String,
        flow_execution_id: Checked,
        from_phase_id: Checked,
        to_phase_id: Option<Checked>,
    },
    Flow { schema: String, flow_execution_id: Checked, result_object: ObjectUri },
    Terminal {
        schema: String,
        failed: bool,
        history_object: ObjectUri,
        cumulative_event_count: u64,
    },
}

/// What is wrong with what a run was given.
pub open spec fn root_input_failure(input: RootInput) -> Option<ErrorModel> {
    match input {
        RootInput::Value { fault: Some(words), .. } => error::protocol_failure(
            "recovery root input is invalid: "@ + words@,
        ),
        _ => None,
    }
}

/// What is wrong with a block identifier, said in given words.
pub open spec fn block_failure(valid: bool, words: Seq<char>) -> Option<ErrorModel> {
    if valid {
        None
    } else {
        error::protocol_failure(words)
    }
}

/// What is wrong with a header, but for its schema.
pub open spec fn header_failure(header: RecoveryHeader) -> Option<ErrorModel> {
    error::first_failure(
        contract::id_failure(header.conversation_id@, "recovery conversation"@),
        error::first_failure(
            contract::id_failure(header.run_session_id@, "recovery run session"@),
            error::first_failure(
                block_failure(
                    header.flow_definition_id.valid,
                    "recovery Flow definition id is invalid"@,
                ),
                error::first_failure(
                    contract::hash_failure(header.registry_hash@, "recovery registry hash"@),
                    error::first_failure(
                        contract::hash_failure(
                            header.flow_definition_hash@,
                            "recovery Flow definition hash"@,
                        ),
                        error::first_failure(
                            match header.parent_entry_id {
                                Some(id) => contract::id_failure(id@, "recovery parent entry"@),
                                None => None,
                            },
                            error::first_failure(
                                root_input_failure(header.root_input),
                                objects::uri_failure(header.prior_history_object),
                            ),
                        ),
                    ),
                ),
            ),
        ),
    )
}

/// What is wrong with an attempt, but for its schema.
pub open spec fn attempt_failure(attempt: RecoveredAttempt, kind: Seq<char>) -> Option<ErrorModel> {
    error::first_failure(
        contract::id_failure(attempt.attempt_id@, "run attempt"@),
        error::first_failure(
            contract::hash_failure(attempt.request_hash@, kind),
            contract::timestamp_failure(attempt.timestamp@),
        ),
    )
}

/// What is wrong with a record, but for its schema.
pub open spec fn parts_failure(record: ProductiveRecoveryRecord) -> Option<ErrorModel> {
    match record {
        ProductiveRecoveryRecord::Header(header) => header_failure(header),
        ProductiveRecoveryRecord::Provider(attempt) => attempt_failure(
            attempt,
            "provider request hash"@,
        ),
        ProductiveRecoveryRecord::Tool { attempt, tool_id } => error::first_failure(
            attempt_failure(attempt, "Tool request hash"@),
            block_failure(tool_id.valid, "recovery Tool id is invalid"@),
        ),
        ProductiveRecoveryRecord::Phase {
            flow_execution_id,
            phase_execution_id,
            phase_id,
            iteration,
            result_object,
            ..
        } => error::first_failure(
            contract::id_failure(flow_execution_id@, "recovery Flow execution"@),
            error::first_failure(
                contract::id_failure(phase_execution_id@, "recovery Phase execution"@),
                error::first_failure(
                    block_failure(
                        phase_id.valid && iteration != 0,
                        "recovery Phase boundary is invalid"@,
                    ),
                    objects::uri_failure(result_object),
                ),
            ),
        ),
        ProductiveRecoveryRecord::Transition {
            flow_execution_id,
            from_phase_id,
            to_phase_id,
            ..
        } => error::first_failure(
            contract::id_failure(flow_execution_id@, "recovery Flow execution"@),
            block_failure(
                from_phase_id.valid && (to_phase_id matches Some(id) ==> id.valid),
                "recovery Transition boundary is invalid"@,
            ),
        ),
        ProductiveRecoveryRecord::Flow { flow_execution_id, result_object, .. } => error::first_failure(
            contract::id_failure(flow_execution_id@, "recovery Flow execution"@),
            objects::uri_failure(result_object),
        ),
        ProductiveRecoveryRecord::Terminal { history_object, .. } => objects::uri_failure(history_object),
    }
}

/// The schema of a record.
pub open spec fn schema_of(record: ProductiveRecoveryRecord) -> Seq<char> {
    match record {
        ProductiveRecoveryRecord::Header(header) => header.schema@,
        ProductiveRecoveryRecord::Provider(attempt) => attempt.schema@,
        ProductiveRecoveryRecord::Tool { attempt, .. } => attempt.schema@,
        ProductiveRecoveryRecord::Phase { schema, .. } => schema@,
        ProductiveRecoveryRecord::Transition { schema, .. } => schema@,
        ProductiveRecoveryRecord::Flow { schema, .. } => schema@,
        ProductiveRecoveryRecord::Terminal { schema, .. } => schema@,
    }
}

/// What is wrong with a record.
pub open spec fn recovery_record_failure(record: ProductiveRecoveryRecord) -> Option<ErrorModel> {
    error::first_failure(
        parts_failure(record),
        if schema_of(record) == PRODUCTIVE_RECOVERY_SCHEMA_V0@ {
            None
        } else {
            error::protocol_failure("productive recovery record has an unsupported schema"@)
        },
    )
}

fn validate_header(header: &RecoveryHeader) -> (result: Result<(), RuntimeError>)
    ensures
        error::failure(result) == header_failure(*header),
{
    validate_id(&header.conversation_id, "recovery conversation")?;
    validate_id(&header.run_session_id, "recovery run session")?;
    if !header.flow_definition_id.valid {
        return Err(protocol("recovery Flow definition id is invalid"));
    }
    validate_hash(header.registry_hash.as_str(), "recovery registry hash")?;
    validate_hash(header.flow_definition_hash.as_str(), "recovery Flow definition hash")?;
    if let Some(parent) = &header.parent_entry_id {
        validate_id(parent, "recovery parent entry")?;
    }
    if let RootInput::Value { fault: Some(words), .. } = &header.root_input {
        let message = join2("recovery root input is invalid: ", words.as_str());
        return Err(protocol(message.as_str()));
    }
    let _ = validate_recovery_object_uri(&header.prior_history_object)?;
    Ok(())
}

fn validate_attempt(attempt: &RecoveredAttempt, kind: &str) -> (result: Result<(), RuntimeError>)
    ensures
        error::failure(result) == attempt_failure(*attempt, kind@),
{
    validate_attempt_id(&attempt.attempt_id)?;
    validate_hash(attempt.request_hash.as_str(), kind)?;
    validate_timestamp(&attempt.timestamp)
}

/// Accepts a record of a snapshot.
pub fn validate_productive_recovery_record(record: &ProductiveRecoveryRecord) -> (result: Result<
    (),
    RuntimeError,
>)
    ensures
        error::failure(result) == recovery_record_failure(*record),
{
    let schema = match record {
        ProductiveRecoveryRecord::Header(header) => {
            validate_header(header)?;
            &header.schema
        },
        ProductiveRecoveryRecord::Provider(attempt) => {
            validate_attempt(attempt, "provider request hash")?;
            &attempt.schema
        },
        ProductiveRecoveryRecord::Tool { attempt, tool_id } => {
            validate_attempt(attempt, "Tool request hash")?;
            if !tool_id.valid {
                return Err(protocol("recovery Tool id is invalid"));
            }
            &attempt.schema
        },
        ProductiveRecoveryRecord::Phase {
            schema,
            flow_execution_id,
            phase_execution_id,
            phase_id,
            iteration,
            result_object,
            ..
        } => {
            validate_id(flow_execution_id, "recovery Flow execution")?;
            validate_id(phase_execution_id, "recovery Phase execution")?;
            if !phase_id.valid || *iteration == 0 {
                return Err(protocol("recovery Phase boundary is invalid"));
            }
            let _ = validate_recovery_object_uri(result_object)?;
            schema
        },
        ProductiveRecoveryRecord::Transition {
            schema,
            flow_execution_id,
            from_phase_id,
            to_phase_id,
        } => {
            validate_id(flow_execution_id, "recovery Flow execution")?;
            let known = match to_phase_id {
                Some(id) => id.valid,
                None => true,
            };
            if !from_phase_id.valid || !known {
                return Err(protocol("recovery Transition boundary is invalid"));
            }
            schema
        },
        ProductiveRecoveryRecord::Flow { schema, flow_execution_id, result_object } => {
            validate_id(flow_execution_id, "recovery Flow execution")?;
            let _ = validate_recovery_object_uri(result_object)?;
            schema
        },
        ProductiveRecoveryRecord::Terminal { schema, history_object, .. } => {
            let _ = validate_recovery_object_uri(history_object)?;
            schema
        },
    };
    if !same_text(schema.as_str(), PRODUCTIVE_RECOVERY_SCHEMA_V0) {
        return Err(protocol("productive recovery record has an unsupported schema"));
    }
    Ok(())
}

/// What reading a line gave: its canonical form or why it has none, and the record in it
/// or why there is none.
pub struct ParsedRecord {
    pub canonical: Result<String, String>,
    pub record: Result<ProductiveRecoveryRecord, String>,
}

/// Whether a line is framed as a record is.
pub open spec fn record_framed(raw: Seq<u8>) -> bool {
    &&& raw.len() > 0
    &&& raw.len() <= MAX_CONVERSATION_RECORD_BYTES
    &&& !writer::holds(raw, CARRIAGE_RETURN)
}

/// What is wrong with a line and the record in it, given why it is not JSON, where it is
/// not.
pub open spec fn judged_line_failure(
    raw: Seq<u8>,
    json: Option<Seq<char>>,
    parsed: ParsedRecord,
) -> Option<ErrorModel> {
    if !record_framed(raw) {
        error::protocol_failure("productive recovery record has invalid framing"@)
    } else if json is Some {
        Some(ErrorModel::Json(json->0))
    } else {
        match parsed.canonical {
            Err(words) => error::protocol_failure(
                "productive recovery record is invalid: "@ + words@,
            ),
            Ok(canonical) => if encode_utf8(canonical@) != raw {
                error::protocol_failure("productive recovery record must be canonical JSON"@)
            } else {
                match parsed.record {
                    Err(words) => Some(ErrorModel::Json(words@)),
                    Ok(record) => recovery_record_failure(record),
                }
            },
        }
    }
}

/// What is wrong with a line and the record in it.
pub open spec fn line_failure(raw: Seq<u8>, parsed: ParsedRecord) -> Option<ErrorModel> {
    judged_line_failure(raw, json::json_bytes_error(raw), parsed)
}

/// Accepts a line of a snapshot, by what reading it as JSON gave, and gives the record in
/// it.
pub fn judge_productive_recovery_record(
    raw: &[u8],
    json: Result<(), String>,
    parsed: ParsedRecord,
) -> (result: Result<ProductiveRecoveryRecord, RuntimeError>)
    ensures
        error::failure(result) == judged_line_failure(raw@, json::json_failure(json), parsed),
        result matches Ok(record) ==> parsed.record == Ok::<ProductiveRecoveryRecord, String>(
            record,
        ),
{
    if raw.len() == 0 || raw.len() > MAX_CONVERSATION_RECORD_BYTES || contains_byte(
        raw,
        CARRIAGE_RETURN,
    ) {
        return Err(protocol("productive recovery record has invalid framing"));
    }
    if let Err(words) = json {
        return Err(RuntimeError::Json(words));
    }
    match &parsed.canonical {
        Err(words) => {
            let message = join2("productive recovery record is invalid: ", words.as_str());
            return Err(protocol(message.as_str()));
        },
        Ok(canonical) => {
            if !same_bytes(canonical.as_str().as_bytes(), raw) {
                return Err(protocol("productive recovery record must be canonical JSON"));
            }
        },
    }
    match parsed.record {
        Err(words) => Err(RuntimeError::Json(words)),
        Ok(record) => {
            validate_productive_recovery_record(&record)?;
            Ok(record)
        },
    }
}

/// Accepts a line of a snapshot, and gives the record in it.
pub fn parse_productive_recovery_record(raw: &[u8], parsed: ParsedRecord) -> (result: Result<
    ProductiveRecoveryRecord,
    RuntimeError,
>)
    ensures
        error::failure(result) == line_failure(raw@, parsed),
        result matches Ok(record) ==> parsed.record == Ok::<ProductiveRecoveryRecord, String>(
            record,
        ),
{
    let json = read_json_bytes(raw);
    judge_productive_recovery_record(raw, json, parsed)
}

/// Whether a snapshot is framed: it is not empty, ends with a line end, and holds no
/// carriage return.
pub open spec fn snapshot_framed(bytes: Seq<u8>) -> bool {
    &&& bytes.len() > 0
    &&& bytes.last() == LINE_FEED
    &&& !writer::holds(bytes, CARRIAGE_RETURN)
}

/// The pieces between line ends, the ends left out.
pub open spec fn split_lines(bytes: Seq<u8>) -> Seq<Seq<u8>>
    decreases bytes.len(),
{
    if bytes.len() == 0 {
        seq![Seq::<u8>::empty()]
    } else {
        let before = split_lines(bytes.drop_last());
        if bytes.last() == LINE_FEED {
            before.push(Seq::empty())
        } else {
            before.drop_last().push(before.last().push(bytes.last()))
        }
    }
}

proof fn lemma_split_lines(bytes: Seq<u8>)
    ensures
        split_lines(bytes).len() >= 1,
    decreases bytes.len(),
{
    if bytes.len() > 0 {
        lemma_split_lines(bytes.drop_last());
    }
}

/// The lines of a snapshot, as bytes.
pub open spec fn lines_view(lines: Seq<Vec<u8>>) -> Seq<Seq<u8>> {
    lines.map_values(|line: Vec<u8>| line@)
}

/// What is wrong with how the lines of a snapshot are ended.
pub open spec fn framing_failure(bytes: Seq<u8>) -> Option<ErrorModel> {
    if snapshot_framed(bytes) {
        None
    } else {
        error::protocol_failure("productive recovery snapshot must use non-empty LF-framed JSONL"@)
    }
}

/// Splits a snapshot into its lines.
pub fn snapshot_lines(bytes: &[u8]) -> (result: Result<Vec<Vec<u8>>, RuntimeError>)
    ensures
        error::failure(result) == framing_failure(bytes@),
        result matches Ok(lines) ==> lines_view(lines@) == split_lines(bytes@.drop_last()),
{
    if bytes.len() == 0 || bytes[bytes.len() - 1] != LINE_FEED || contains_byte(
        bytes,
        CARRIAGE_RETURN,
    ) {
        return Err(
            protocol("productive recovery snapshot must use non-empty LF-framed JSONL"),
        );
    }
    let mut lines: Vec<Vec<u8>> = Vec::new();
    let mut current: Vec<u8> = Vec::new();
    let last: usize = bytes.len() - 1;
    let mut i: usize = 0;
    assert(bytes@.take(0) =~= Seq::<u8>::empty());
    assert(lines_view(lines@).push(current@) =~= split_lines(bytes@.take(0)));
    while i < last
        invariant
            i <= last,
            last == bytes.len() - 1,
            lines_view(lines@).push(current@) == split_lines(bytes@.take(i as int)),
        decreases last - i,
    {
        let byte: u8 = bytes[i];
        let ghost head = bytes@.take(i + 1);
        let ghost before = lines_view(lines@);
        let ghost line = current@;
        assert(head.drop_last() =~= bytes@.take(i as int));
        assert(head.last() == byte);
        if byte == LINE_FEED {
            lines.push(current);
            current = Vec::new();
            assert(lines_view(lines@) =~= before.push(line));
            assert(lines_view(lines@).push(current@) =~= split_lines(head));
        } else {
            current.push(byte);
            assert(before.push(line).drop_last() =~= before);
            assert(lines_view(lines@).push(current@) =~= split_lines(head));
        }
        i = i + 1;
    }
    let ghost before = lines_view(lines@);
    let ghost line = current@;
    lines.push(current);
    assert(lines_view(lines@) =~= before.push(line));
    assert(bytes@.take(i as int) =~= bytes@.drop_last());
    Ok(lines)
}

/// Whether records end the snapshot.
pub open spec fn has_terminal(records: Seq<ProductiveRecoveryRecord>) -> bool {
    exists|k: int| 0 <= k < records.len() && (#[trigger] records[k]) is Terminal
}

/// What is wrong with a record where it stands.
pub open spec fn position_failure(
    before: Seq<ProductiveRecoveryRecord>,
    record: ProductiveRecoveryRecord,
) -> Option<ErrorModel> {
    if record is Header && before.len() > 0 {
        error::protocol_failure("productive recovery snapshot contains more than one header"@)
    } else if has_terminal(before) {
        error::protocol_failure("productive recovery terminal record must be last"@)
    } else {
        None
    }
}

/// Accepts a record where it stands.
pub fn check_record_position(
    before: &Vec<ProductiveRecoveryRecord>,
    record: &ProductiveRecoveryRecord,
) -> (result: Result<(), RuntimeError>)
    ensures
        error::failure(result) == position_failure(before@, *record),
{
    if let ProductiveRecoveryRecord::Header(_) = record {
        if before.len() > 0 {
            return Err(protocol("productive recovery snapshot contains more than one header"));
        }
    }
    let mut i: usize = 0;
    while i < before.len()
        invariant
            i <= before.len(),
            !(*record is Header && before@.len() > 0),
            forall|k: int| 0 <= k < i ==> !((#[trigger] before@[k]) is Terminal),
        decreases before.len() - i,
    {
        if let ProductiveRecoveryRecord::Terminal { .. } = &before[i] {
            assert(before@[i as int] is Terminal);
            return Err(protocol("productive recovery terminal record must be last"));
        }
        i = i + 1;
    }
    Ok(())
}

/// The records that were read of some lines.
pub open spec fn parsed_records(parsed: Seq<ParsedRecord>, count: int) -> Seq<
    ProductiveRecoveryRecord,
> {
    Seq::new(count as nat, |k: int| parsed[k].record->Ok_0)
}

/// What is wrong with the first lines of a snapshot, taken in order.
pub open spec fn snapshot_failure(lines: Seq<Seq<u8>>, parsed: Seq<ParsedRecord>, count: nat) -> Option<
    ErrorModel,
>
    decreases count,
{
    if count == 0 {
        None
    } else {
        let last = count - 1;
        error::first_failure(
            snapshot_failure(lines, parsed, last as nat),
            error::first_failure(
                line_failure(lines[last], parsed[last]),
                position_failure(parsed_records(parsed, last), parsed[last].record->Ok_0),
            ),
        )
    }
}

proof fn lemma_snapshot_prefix(
    lines: Seq<Seq<u8>>,
    parsed: Seq<ParsedRecord>,
    count: nat,
    whole: nat,
)
    requires
        count <= whole,
    ensures
        snapshot_failure(lines, parsed, count) is Some ==> snapshot_failure(lines, parsed, whole)
            == snapshot_failure(lines, parsed, count),
    decreases whole - count,
{
    if count < whole {
        lemma_snapshot_prefix(lines, parsed, count + 1, whole);
    }
}

/// Accepts the lines of a snapshot, and gives the records in them.
pub fn parse_productive_recovery_records(lines: &Vec<Vec<u8>>, parsed: Vec<ParsedRecord>) -> (result:
    Result<Vec<ProductiveRecoveryRecord>, RuntimeError>)
    requires
        lines@.len() == parsed@.len(),
    ensures
        error::failure(result) == snapshot_failure(lines_view(lines@), parsed@, parsed@.len()),
        result matches Ok(records) ==> records@ == parsed_records(parsed@, parsed@.len() as int),
{
    let ghost all = parsed@;
    let ghost raw = lines_view(lines@);
    let mut rest = parsed;
    let mut records: Vec<ProductiveRecoveryRecord> = Vec::new();
    let mut i: usize = 0;
    assert(all.skip(0) =~= all);
    while i < lines.len()
        invariant
            i <= lines.len(),
            lines@.len() == all.len(),
            all == parsed@,
            raw == lines_view(lines@),
            rest@ == all.skip(i as int),
            records@ == parsed_records(all, i as int),
            snapshot_failure(raw, all, i as nat) is None,
        decreases lines.len() - i,
    {
        proof {
            lemma_snapshot_prefix(raw, all, (i + 1) as nat, all.len());
            assert(raw[i as int] == lines@[i as int]@);
        }
        let next = rest.remove(0);
        assert(next == all[i as int]);
        assert(rest@ =~= all.skip(i + 1));
        let record = parse_productive_recovery_record(lines[i].as_slice(), next)?;
        check_record_position(&records, &record)?;
        records.push(record);
        assert(records@ =~= parsed_records(all, i + 1));
        i = i + 1;
    }
    Ok(records)
}

/// A snapshot that is accepted has at most one header, at its beginning, and nothing
/// stands behind a terminal record.
pub proof fn law_snapshot_shape(
    lines: Seq<Seq<u8>>,
    parsed: Seq<ParsedRecord>,
    count: nat,
    k: int,
)
    requires
        count <= parsed.len(),
        snapshot_failure(lines, parsed, count) is None,
        0 <= k < count,
    ensures
        parsed_records(parsed, count as int)[k] is Header ==> k == 0,
        parsed_records(parsed, count as int)[k] is Terminal ==> k == count - 1,
    decreases count,
{
    let last = count - 1;
    let before = parsed_records(parsed, last);
    if k < last {
        law_snapshot_shape(lines, parsed, last as nat, k);
        if before[k] is Terminal {
            assert(has_terminal(before));
        }
    }
}

/// Lines with a line feed between each two.
pub open spec fn rejoined(lines: Seq<Seq<u8>>) -> Seq<u8>
    decreases lines.len(),
{
    if lines.len() == 0 {
        Seq::empty()
    } else if lines.len() == 1 {
        lines[0]
    } else {
        rejoined(lines.drop_last()) + seq![LINE_FEED] + lines.last()
    }
}

/// The lines of bytes are what stands between their line feeds: none of them holds one, and
/// joined with line feeds they are the bytes again.
pub proof fn law_lines_are_what_line_feeds_part(bytes: Seq<u8>)
    ensures
        split_lines(bytes).len() > 0,
        rejoined(split_lines(bytes)) == bytes,
        forall|k: int|
            0 <= k < split_lines(bytes).len() ==> !(#[trigger] split_lines(bytes)[k]).contains(
                LINE_FEED,
            ),
    decreases bytes.len(),
{
    let lines = split_lines(bytes);
    if bytes.len() == 0 {
        assert(lines[0] =~= Seq::<u8>::empty());
        assert(rejoined(lines) =~= bytes);
    } else {
        let rest = bytes.drop_last();
        let before = split_lines(rest);
        law_lines_are_what_line_feeds_part(rest);
        if bytes.last() == LINE_FEED {
            assert(lines.drop_last() =~= before);
            assert(lines.last() =~= Seq::<u8>::empty());
            assert(rejoined(lines) =~= bytes);
            assert forall|k: int| 0 <= k < lines.len() implies !(#[trigger] lines[k]).contains(
                LINE_FEED,
            ) by {
                if k < before.len() {
                    assert(lines[k] == before[k]);
                }
            }
        } else {
            let longer = before.last().push(bytes.last());
            assert(lines.drop_last() =~= before.drop_last());
            assert(lines.last() == longer);
            if before.len() == 1 {
                assert(rejoined(before) == before[0]);
                assert(lines[0] == longer);
                assert(rejoined(lines) =~= bytes);
            } else {
                assert(rejoined(before) == rejoined(before.drop_last()) + seq![LINE_FEED]
                    + before.last());
                assert(rejoined(lines) =~= rejoined(before).push(bytes.last()));
                assert(rejoined(lines) =~= bytes);
            }
            assert forall|k: int| 0 <= k < lines.len() implies !(#[trigger] lines[k]).contains(
                LINE_FEED,
            ) by {
                if k < before.len() - 1 {
                    assert(lines[k] == before[k]);
                } else {
                    assert(before[before.len() - 1] == before.last());
                    if longer.contains(LINE_FEED) {
                        let i = choose|i: int| 0 <= i < longer.len() && longer[i] == LINE_FEED;
                        if i < before.last().len() {
                            assert(before.last()[i] == LINE_FEED);
                        }
                    }
                }
            }
        }
    }
}

proof fn lemma_snapshot_lines(lines: Seq<Seq<u8>>, parsed: Seq<ParsedRecord>, count: nat)
    requires
        snapshot_failure(lines, parsed, count) is None,
    ensures
        forall|k: int|
            0 <= k < count ==> line_failure(#[trigger] lines[k], parsed[k]) is None,
    decreases count,
{
    if count > 0 {
        lemma_snapshot_lines(lines, parsed, (count - 1) as nat);
    }
}

/// A snapshot is accepted only where every line of it is, each in its canonical form and with
/// a record that is sound.
pub proof fn law_every_line_of_a_snapshot_is_read(
    lines: Seq<Seq<u8>>,
    parsed: Seq<ParsedRecord>,
    count: nat,
    k: int,
)
    requires
        snapshot_failure(lines, parsed, count) is None,
        0 <= k < count,
    ensures
        lines[k].len() > 0,
        parsed[k].canonical is Ok,
        encode_utf8(parsed[k].canonical->Ok_0@) == lines[k],
        parsed[k].record is Ok,
        recovery_record_failure(parsed[k].record->Ok_0) is None,
        schema_of(parsed[k].record->Ok_0) == PRODUCTIVE_RECOVERY_SCHEMA_V0@,
{
    lemma_snapshot_lines(lines, parsed, count);
    assert(line_failure(lines[k], parsed[k]) is None);
}

} // verus!
