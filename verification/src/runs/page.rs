//! Pages of a run log: the records that concern one tool, as many as a page holds,
//! and where the next page begins.

use crate::contract::{validate_record_schema, Checked, MAX_CONVERSATION_RECORD_BYTES, MAX_CONVERSATION_STATUS_BYTES, MAX_CONVERSATION_STATUS_RECORDS, TOOL_RUN_LOG_PAGE_SCHEMA};
use crate::contract;
use crate::error::{protocol, usage, ErrorModel, RuntimeError};
use crate::error;
use crate::runs::attempts::{check_definition, AttemptStates, AttemptsModel, RecordFacts, RunAttemptKind, RunLogRecord};
use crate::runs::attempts;
use crate::text::{append_text, decimal_text, same_text};
use crate::text;
use vstd::prelude::*;
use vstd::utf8::*;

verus! {

/// A record as it stands in the log: what it says, and its canonical form.
pub struct LoggedRecord {
    pub record: RunLogRecord,
    pub canonical: String,
}

/// A record as it stands in the log, by its contents.
pub struct LoggedModel {
    pub facts: RecordFacts,
    pub canonical: Seq<char>,
}

impl View for LoggedRecord {
    type V = LoggedModel;

    open spec fn view(&self) -> LoggedModel {
        LoggedModel { facts: self.record@, canonical: self.canonical@ }
    }
}

/// Records by their contents.
pub open spec fn logged_view(records: Seq<LoggedRecord>) -> Seq<LoggedModel> {
    records.map_values(|record: LoggedRecord| record@)
}

/// The texts with a comma between each two.
pub open spec fn comma_joined(texts: Seq<Seq<char>>) -> Seq<char>
    decreases texts.len(),
{
    if texts.len() == 0 {
        Seq::empty()
    } else if texts.len() == 1 {
        texts[0]
    } else {
        comma_joined(texts.drop_last()) + ","@ + texts.last()
    }
}

/// The beginning of a page, up to its records.
pub open spec fn page_head(cursor: Option<usize>) -> Seq<char> {
    match cursor {
        Some(cursor) => "{\"continuation_cursor\":"@ + text::decimal(cursor as nat) + ",\"records\":["@,
        None => "{\"records\":["@,
    }
}

/// The end of a page, from its records on.
pub open spec fn page_tail(schema: Seq<char>) -> Seq<char> {
    "],\"schema\":\""@ + schema + "\"}"@
}

/// A page in its canonical form.
pub open spec fn page_text(schema: Seq<char>, texts: Seq<Seq<char>>, cursor: Option<usize>) -> Seq<
    char,
> {
    page_head(cursor) + comma_joined(texts) + page_tail(schema)
}

fn page_head_text(cursor: Option<usize>) -> (head: String)
    ensures
        head@ == page_head(cursor),
{
    match cursor {
        Some(cursor) => {
            let number = decimal_text(cursor as u64);
            let mut head = "{\"continuation_cursor\":".to_owned();
            append_text(&mut head, number.as_str());
            append_text(&mut head, ",\"records\":[");
            head
        },
        None => "{\"records\":[".to_owned(),
    }
}

fn append_page_tail(page: &mut String, schema: &str)
    ensures
        final(page)@ == old(page)@ + page_tail(schema@),
{
    append_text(page, "],\"schema\":\"");
    append_text(page, schema);
    append_text(page, "\"}");
    assert(page@ =~= old(page)@ + page_tail(schema@));
}

/// Writes a page in its canonical form.
pub fn render_page(schema: &str, texts: &Vec<String>, cursor: Option<usize>) -> (page: String)
    ensures
        page@ == page_text(schema@, text::texts_view(texts@), cursor),
{
    let mut page = page_head_text(cursor);
    let ghost all = text::texts_view(texts@);
    let mut i: usize = 0;
    assert(all.take(0) =~= Seq::<Seq<char>>::empty());
    assert(page@ =~= page_head(cursor) + comma_joined(all.take(0)));
    while i < texts.len()
        invariant
            i <= texts.len(),
            all == text::texts_view(texts@),
            page@ == page_head(cursor) + comma_joined(all.take(i as int)),
        decreases texts.len() - i,
    {
        let ghost before = page@;
        if i > 0 {
            append_text(&mut page, ",");
        }
        append_text(&mut page, texts[i].as_str());
        proof {
            let head = all.take(i + 1);
            assert(head.drop_last() =~= all.take(i as int));
            assert(head.last() == texts@[i as int]@);
            assert(page@ =~= page_head(cursor) + comma_joined(head));
        }
        i = i + 1;
    }
    assert(all.take(i as int) =~= all);
    append_page_tail(&mut page, schema);
    page
}

/// How many bytes all the texts have.
pub open spec fn total_bytes(texts: Seq<Seq<char>>) -> nat
    decreases texts.len(),
{
    if texts.len() == 0 {
        0
    } else {
        total_bytes(texts.drop_last()) + encode_utf8(texts.last()).len()
    }
}

/// A sum of sizes, held at the largest size.
pub open spec fn size_sum(left: nat, right: nat) -> usize {
    if left + right > usize::MAX {
        usize::MAX
    } else {
        (left + right) as usize
    }
}

/// How many bytes a page has: an empty page with the same cursor, the records, and
/// the commas between them.
pub open spec fn page_bytes(
    schema: Seq<char>,
    record_bytes: usize,
    record_count: nat,
    cursor: Option<usize>,
) -> usize {
    size_sum(
        size_sum(
            encode_utf8(page_text(schema, Seq::empty(), cursor)).len(),
            record_bytes as nat,
        ) as nat,
        if record_count > 0 {
            (record_count - 1) as nat
        } else {
            0
        },
    )
}

/// How many bytes a page has.
pub fn projection_page_bytes(
    schema: &str,
    record_bytes: usize,
    record_count: usize,
    cursor: Option<usize>,
) -> (bytes: usize)
    ensures
        bytes == page_bytes(schema@, record_bytes, record_count as nat, cursor),
{
    let none: Vec<String> = Vec::new();
    let empty = render_page(schema, &none, cursor);
    assert(text::texts_view(none@) =~= Seq::<Seq<char>>::empty());
    empty.as_str().as_bytes().len().saturating_add(record_bytes).saturating_add(
        record_count.saturating_sub(1),
    )
}

/// How many bytes texts have with a comma between each two.
pub proof fn lemma_comma_joined_bytes(texts: Seq<Seq<char>>)
    ensures
        encode_utf8(comma_joined(texts)).len() == total_bytes(texts) + (if texts.len() > 0 {
            (texts.len() - 1) as nat
        } else {
            0
        }),
    decreases texts.len(),
{
    if texts.len() == 1 {
        assert(total_bytes(texts.drop_last()) == 0);
    } else if texts.len() > 1 {
        let rest = texts.drop_last();
        lemma_comma_joined_bytes(rest);
        text::lemma_encode_concat(comma_joined(rest) + ","@, texts.last());
        text::lemma_encode_concat(comma_joined(rest), ","@);
        assert(encode_utf8(","@).len() == 1) by {
            reveal_strlit(",");
            assert(","@.len() == 1);
            assert(encode_utf8(","@.drop_first()).len() == 0);
        }
    }
}

/// The size that a page is held to is the size that it has.
pub proof fn law_page_size(schema: Seq<char>, texts: Seq<Seq<char>>, cursor: Option<usize>)
    requires
        encode_utf8(page_text(schema, texts, cursor)).len() <= usize::MAX,
    ensures
        page_bytes(schema, total_bytes(texts) as usize, texts.len(), cursor) == encode_utf8(
            page_text(schema, texts, cursor),
        ).len(),
{
    let none: Seq<Seq<char>> = Seq::empty();
    lemma_comma_joined_bytes(texts);
    lemma_comma_joined_bytes(none);
    text::lemma_encode_concat(page_head(cursor) + comma_joined(texts), page_tail(schema));
    text::lemma_encode_concat(page_head(cursor), comma_joined(texts));
    text::lemma_encode_concat(page_head(cursor) + comma_joined(none), page_tail(schema));
    text::lemma_encode_concat(page_head(cursor), comma_joined(none));
}

proof fn lemma_page_length(schema: Seq<char>, texts: Seq<Seq<char>>, cursor: Option<usize>)
    ensures
        encode_utf8(page_text(schema, texts, cursor)).len() <= encode_utf8(
            page_text(schema, Seq::empty(), cursor),
        ).len() + total_bytes(texts) + texts.len(),
{
    let none: Seq<Seq<char>> = Seq::empty();
    lemma_comma_joined_bytes(texts);
    lemma_comma_joined_bytes(none);
    text::lemma_encode_concat(page_head(cursor) + comma_joined(texts), page_tail(schema));
    text::lemma_encode_concat(page_head(cursor), comma_joined(texts));
    text::lemma_encode_concat(page_head(cursor) + comma_joined(none), page_tail(schema));
    text::lemma_encode_concat(page_head(cursor), comma_joined(none));
}

/// A record on a page, with its place in the log.
pub struct PageRecord {
    pub index: usize,
    pub text: Seq<char>,
}

/// The texts of the records on a page.
pub open spec fn page_texts(records: Seq<PageRecord>) -> Seq<Seq<char>> {
    records.map_values(|record: PageRecord| record.text)
}

/// A page that is being filled.
pub struct PageModel {
    pub source_index: usize,
    pub attempts: AttemptsModel,
    pub records: Seq<PageRecord>,
    pub records_bytes: usize,
    pub cursor: Option<usize>,
    pub full: bool,
}

/// A page of which nothing has been filled.
pub open spec fn empty_page() -> PageModel {
    PageModel {
        source_index: 0,
        attempts: attempts::no_attempts(),
        records: Seq::empty(),
        records_bytes: 0,
        cursor: None,
        full: false,
    }
}

/// How many bytes a page has that is being filled.
pub open spec fn filled_bytes(page: PageModel, cursor: Option<usize>) -> usize {
    page_bytes(TOOL_RUN_LOG_PAGE_SCHEMA@, page.records_bytes, page.records.len(), cursor)
}

/// A page without its last record.
pub open spec fn shortened(page: PageModel) -> PageModel {
    let last = encode_utf8(page.records.last().text).len();
    PageModel {
        records: page.records.drop_last(),
        records_bytes: if page.records_bytes >= last {
            (page.records_bytes - last) as usize
        } else {
            0
        },
        ..page
    }
}

/// The page with records taken off its end until it fits.
pub open spec fn trimmed(page: PageModel, cursor: usize) -> PageModel
    decreases page.records.len(),
{
    if filled_bytes(page, Some(cursor)) <= MAX_CONVERSATION_STATUS_BYTES || page.records.len() == 0 {
        PageModel { cursor: Some(cursor), full: true, ..page }
    } else {
        trimmed(shortened(page), page.records.last().index)
    }
}

/// What is wrong with a page that does not fit however many records are taken off.
pub open spec fn trim_failure(page: PageModel, cursor: usize) -> Option<ErrorModel>
    decreases page.records.len(),
{
    if filled_bytes(page, Some(cursor)) <= MAX_CONVERSATION_STATUS_BYTES {
        None
    } else if page.records.len() == 0 {
        error::protocol_failure("empty run log projection exceeds its byte limit"@)
    } else {
        trim_failure(shortened(page), page.records.last().index)
    }
}

/// The schema of a record.
pub open spec fn schema_of(facts: RecordFacts) -> Seq<char> {
    match facts {
        RecordFacts::Definition { schema } => schema,
        RecordFacts::Intent { schema, .. } => schema,
        RecordFacts::TerminalResult { schema, .. } => schema,
    }
}

/// Whether a record concerns a tool.
pub open spec fn concerns_tool(facts: RecordFacts, tool_id: Seq<char>) -> bool {
    match facts {
        RecordFacts::Definition { .. } => false,
        RecordFacts::Intent { intent, .. } => intent.attempt_kind == RunAttemptKind::Tool
            && attempts::tool_text(intent.tool_id) == Some(tool_id),
        RecordFacts::TerminalResult { result, tool_id: named, .. } => result.attempt_kind
            == RunAttemptKind::Tool && attempts::tool_text(named) == Some(tool_id),
    }
}

/// Whether a record concerns a tool.
pub fn run_log_record_matches_tool(record: &RunLogRecord, tool_id: &str) -> (result: Result<
    bool,
    RuntimeError,
>)
    ensures
        error::failure(result) == contract::record_schema_failure(schema_of(record@)),
        result matches Ok(matches) ==> matches == concerns_tool(record@, tool_id@),
{
    match record {
        RunLogRecord::Definition { schema, .. } => {
            validate_record_schema(schema.as_str())?;
            Ok(false)
        },
        RunLogRecord::Intent { schema, intent } => {
            validate_record_schema(schema.as_str())?;
            match &intent.tool_id {
                Some(named) => Ok(
                    intent.attempt_kind == RunAttemptKind::Tool && same_text(
                        named.text.as_str(),
                        tool_id,
                    ),
                ),
                None => Ok(false),
            }
        },
        RunLogRecord::TerminalResult { schema, terminal } => {
            validate_record_schema(schema.as_str())?;
            match &terminal.tool_id {
                Some(named) => Ok(
                    terminal.result.attempt_kind == RunAttemptKind::Tool && same_text(
                        named.text.as_str(),
                        tool_id,
                    ),
                ),
                None => Ok(false),
            }
        },
    }
}

/// What is wrong with a record where it stands.
pub open spec fn place_failure(page: PageModel, facts: RecordFacts) -> Option<ErrorModel> {
    error::first_failure(
        if page.source_index == 0 {
            attempts::definition_failure(Some(facts))
        } else {
            attempts::record_failure(page.attempts, facts)
        },
        contract::record_schema_failure(schema_of(facts)),
    )
}

/// The page with a record counted.
pub open spec fn counted(page: PageModel, facts: RecordFacts) -> PageModel {
    PageModel {
        source_index: size_sum(page.source_index as nat, 1),
        attempts: if page.source_index == 0 {
            page.attempts
        } else {
            attempts::recorded(page.attempts, facts)
        },
        ..page
    }
}

/// The page with a record behind the others.
pub open spec fn extended(page: PageModel, index: usize, text: Seq<char>) -> PageModel {
    PageModel {
        records: page.records.push(PageRecord { index, text }),
        records_bytes: size_sum(page.records_bytes as nat, encode_utf8(text).len()),
        ..page
    }
}

/// Whether a record belongs on a page.
pub open spec fn belongs(index: usize, start: usize, facts: RecordFacts, tool_id: Seq<char>) -> bool {
    index >= start && concerns_tool(facts, tool_id)
}

/// What is wrong with a record that comes to a page.
pub open spec fn step_failure(
    page: PageModel,
    tool_id: Seq<char>,
    start: usize,
    record: LoggedModel,
) -> Option<ErrorModel> {
    let next = counted(page, record.facts);
    let longer = extended(next, page.source_index, record.canonical);
    if place_failure(page, record.facts) is Some {
        place_failure(page, record.facts)
    } else if !belongs(page.source_index, start, record.facts, tool_id) {
        None
    } else if page.records.len() == MAX_CONVERSATION_STATUS_RECORDS {
        trim_failure(next, page.source_index)
    } else if filled_bytes(longer, Some(next.source_index)) > MAX_CONVERSATION_STATUS_BYTES {
        trim_failure(longer, next.source_index)
    } else {
        None
    }
}

/// The page after a record that nothing is wrong with.
pub open spec fn stepped(
    page: PageModel,
    tool_id: Seq<char>,
    start: usize,
    record: LoggedModel,
) -> PageModel {
    let next = counted(page, record.facts);
    let longer = extended(next, page.source_index, record.canonical);
    if !belongs(page.source_index, start, record.facts, tool_id) {
        next
    } else if page.records.len() == MAX_CONVERSATION_STATUS_RECORDS {
        trimmed(next, page.source_index)
    } else if filled_bytes(longer, Some(next.source_index)) > MAX_CONVERSATION_STATUS_BYTES {
        trimmed(longer, next.source_index)
    } else {
        longer
    }
}

/// A page that is being filled.
pub struct PageProjection {
    pub tool_id: String,
    pub start: usize,
    pub source_index: usize,
    pub attempts: AttemptStates,
    pub texts: Vec<String>,
    pub indices: Vec<usize>,
    pub records_bytes: usize,
    pub continuation_cursor: Option<usize>,
    pub full: bool,
}

impl View for PageProjection {
    type V = PageModel;

    open spec fn view(&self) -> PageModel {
        PageModel {
            source_index: self.source_index,
            attempts: self.attempts@,
            records: Seq::new(
                self.texts@.len(),
                |k: int| PageRecord { index: self.indices@[k], text: self.texts@[k]@ },
            ),
            records_bytes: self.records_bytes,
            cursor: self.continuation_cursor,
            full: self.full,
        }
    }
}

impl PageProjection {
    /// Every record has its place.
    pub open spec fn wf(self) -> bool {
        &&& self.texts@.len() == self.indices@.len()
        &&& self.attempts.wf()
    }

    /// Begins a page of the records that concern a tool.
    pub fn start(tool_id: &Checked, continuation_cursor: Option<usize>) -> (result: Result<
        PageProjection,
        RuntimeError,
    >)
        ensures
            error::failure(result) == (if tool_id.valid {
                None
            } else {
                error::usage_failure("invalid Tool id"@)
            }),
            result matches Ok(page) ==> {
                &&& page.wf()
                &&& page@ == empty_page()
                &&& page.tool_id@ == tool_id.text@
                &&& page.start == (match continuation_cursor {
                    Some(cursor) => cursor,
                    None => 0,
                })
            },
    {
        if !tool_id.valid {
            return Err(usage("invalid Tool id"));
        }
        let page = PageProjection {
            tool_id: tool_id.text.clone(),
            start: match continuation_cursor {
                Some(cursor) => cursor,
                None => 0,
            },
            source_index: 0,
            attempts: AttemptStates::new(),
            texts: Vec::new(),
            indices: Vec::new(),
            records_bytes: 0,
            continuation_cursor: None,
            full: false,
        };
        assert(page@.records =~= empty_page().records);
        Ok(page)
    }

    fn trim(&mut self, cursor: usize) -> (result: Result<(), RuntimeError>)
        requires
            old(self).wf(),
        ensures
            error::failure(result) == trim_failure(old(self)@, cursor),
            final(self).wf(),
            final(self).tool_id == old(self).tool_id,
            final(self).start == old(self).start,
            result is Ok ==> final(self)@ == trimmed(old(self)@, cursor),
    {
        self.continuation_cursor = Some(cursor);
        let mut at: usize = cursor;
        let ghost goal = trimmed(old(self)@, cursor);
        let ghost fault = trim_failure(old(self)@, cursor);
        proof {
            lemma_trim_ignores(old(self)@, self@, cursor);
        }
        while projection_page_bytes(
            TOOL_RUN_LOG_PAGE_SCHEMA,
            self.records_bytes,
            self.texts.len(),
            self.continuation_cursor,
        ) > MAX_CONVERSATION_STATUS_BYTES
            invariant
                self.wf(),
                self.continuation_cursor == Some(at),
                self.tool_id == old(self).tool_id,
                self.start == old(self).start,
                goal == trimmed(self@, at),
                fault == trim_failure(self@, at),
                fault == trim_failure(old(self)@, cursor),
            decreases self.texts.len(),
        {
            let ghost before = self@;
            match self.texts.pop() {
                None => {
                    return Err(protocol("empty run log projection exceeds its byte limit"));
                },
                Some(text) => {
                    let index: usize = match self.indices.pop() {
                        Some(index) => index,
                        None => {
                            return Err(protocol("run log projection indices are incomplete"));
                        },
                    };
                    self.records_bytes = self.records_bytes.saturating_sub(
                        text.as_str().as_bytes().len(),
                    );
                    proof {
                        assert(before.records.last() == (PageRecord { index, text: text@ }));
                        assert(self@.records =~= before.records.drop_last());
                        assert(self@ == shortened(before));
                    }
                    self.continuation_cursor = Some(index);
                    at = index;
                    proof {
                        lemma_trim_ignores(shortened(before), self@, index);
                    }
                },
            }
        }
        self.full = true;
        Ok(())
    }

    /// Takes the next record of the log.
    pub fn accept(&mut self, logged: &LoggedRecord) -> (result: Result<(), RuntimeError>)
        requires
            old(self).wf(),
            old(self).continuation_cursor is None,
        ensures
            error::failure(result) == step_failure(
                old(self)@,
                old(self).tool_id@,
                old(self).start,
                logged@,
            ),
            final(self).wf(),
            final(self).tool_id == old(self).tool_id,
            final(self).start == old(self).start,
            result is Ok ==> final(self)@ == stepped(
                old(self)@,
                old(self).tool_id@,
                old(self).start,
                logged@,
            ),
    {
        let index: usize = self.source_index;
        let ghost begin = self@;
        if index == 0 {
            check_definition(&logged.record)?;
        } else {
            self.attempts.apply_run_attempt_record(&logged.record)?;
        }
        let matches = run_log_record_matches_tool(&logged.record, self.tool_id.as_str())?;
        self.source_index = index.saturating_add(1);
        proof {
            assert(self@.records =~= begin.records);
            assert(self@ == counted(begin, logged@.facts));
        }
        if index < self.start || !matches {
            return Ok(());
        }
        if self.texts.len() == MAX_CONVERSATION_STATUS_RECORDS {
            return self.trim(index);
        }
        let ghost next = self@;
        self.records_bytes = self.records_bytes.saturating_add(
            logged.canonical.as_str().as_bytes().len(),
        );
        self.texts.push(logged.canonical.clone());
        self.indices.push(index);
        proof {
            assert(self@.records =~= next.records.push(
                PageRecord { index, text: logged.canonical@ },
            ));
            assert(self@ == extended(next, index, logged@.canonical));
        }
        let bytes: usize = projection_page_bytes(
            TOOL_RUN_LOG_PAGE_SCHEMA,
            self.records_bytes,
            self.texts.len(),
            Some(self.source_index),
        );
        if bytes > MAX_CONVERSATION_STATUS_BYTES {
            return self.trim(self.source_index);
        }
        Ok(())
    }
}

/// The cursor that a page had does not matter when it is trimmed.
proof fn lemma_trim_ignores(left: PageModel, right: PageModel, cursor: usize)
    requires
        right == (PageModel { cursor: right.cursor, ..left }),
    ensures
        trimmed(left, cursor) == trimmed(right, cursor),
        trim_failure(left, cursor) == trim_failure(right, cursor),
    decreases left.records.len(),
{
    if left.records.len() > 0 {
        lemma_trim_ignores(shortened(left), shortened(right), left.records.last().index);
    }
}

/// What is wrong with filling a page from records, until it is full.
pub open spec fn fill_failure(
    page: PageModel,
    tool_id: Seq<char>,
    start: usize,
    records: Seq<LoggedModel>,
) -> Option<ErrorModel>
    decreases records.len(),
{
    if page.full || records.len() == 0 {
        None
    } else if step_failure(page, tool_id, start, records[0]) is Some {
        step_failure(page, tool_id, start, records[0])
    } else {
        fill_failure(
            stepped(page, tool_id, start, records[0]),
            tool_id,
            start,
            records.skip(1),
        )
    }
}

/// The page after it was filled from records, until it was full.
pub open spec fn filled(
    page: PageModel,
    tool_id: Seq<char>,
    start: usize,
    records: Seq<LoggedModel>,
) -> PageModel
    decreases records.len(),
{
    if page.full || records.len() == 0 {
        page
    } else {
        filled(stepped(page, tool_id, start, records[0]), tool_id, start, records.skip(1))
    }
}

/// Where a page begins.
pub open spec fn start_of(continuation_cursor: Option<usize>) -> usize {
    match continuation_cursor {
        Some(cursor) => cursor,
        None => 0,
    }
}

/// The page of the records of a log that concern one tool, in its canonical form.
pub fn project_tool_run_log(
    records: &Vec<LoggedRecord>,
    tool_id: &Checked,
    continuation_cursor: Option<usize>,
) -> (result: Result<String, RuntimeError>)
    ensures
        ({
            let start = start_of(continuation_cursor);
            let page = filled(empty_page(), tool_id.text@, start, logged_view(records@));
            &&& error::failure(result) == (if !tool_id.valid {
                error::usage_failure("invalid Tool id"@)
            } else {
                fill_failure(empty_page(), tool_id.text@, start, logged_view(records@))
            })
            &&& result matches Ok(text) ==> text@ == page_text(
                TOOL_RUN_LOG_PAGE_SCHEMA@,
                page_texts(page.records),
                page.cursor,
            ) + "\n"@
        }),
{
    let mut page = PageProjection::start(tool_id, continuation_cursor)?;
    let ghost all = logged_view(records@);
    let ghost start = start_of(continuation_cursor);
    let mut i: usize = 0;
    assert(all.skip(0) =~= all);
    while i < records.len() && !page.full
        invariant
            i <= records.len(),
            page.wf(),
            page.tool_id@ == tool_id.text@,
            page.start == start,
            tool_id.valid,
            start == start_of(continuation_cursor),
            !page.full ==> page.continuation_cursor is None,
            all == logged_view(records@),
            fill_failure(empty_page(), tool_id.text@, start, all) == fill_failure(
                page@,
                tool_id.text@,
                start,
                all.skip(i as int),
            ),
            filled(empty_page(), tool_id.text@, start, all) == filled(
                page@,
                tool_id.text@,
                start,
                all.skip(i as int),
            ),
        decreases records.len() - i,
    {
        let ghost rest = all.skip(i as int);
        assert(rest[0] == records@[i as int]@);
        assert(rest.skip(1) =~= all.skip(i + 1));
        let ghost before = page@;
        page.accept(&records[i])?;
        proof {
            lemma_cursor_when_full(before, tool_id.text@, start, rest[0]);
        }
        i = i + 1;
    }
    assert(all.skip(records@.len() as int).len() == 0);
    let mut written = render_page(
        TOOL_RUN_LOG_PAGE_SCHEMA,
        &page.texts,
        page.continuation_cursor,
    );
    assert(text::texts_view(page.texts@) =~= page_texts(page@.records));
    append_text(&mut written, "\n");
    Ok(written)
}

proof fn lemma_trimmed_is_full(page: PageModel, cursor: usize)
    ensures
        trimmed(page, cursor).full,
        trimmed(page, cursor).cursor is Some,
    decreases page.records.len(),
{
    if page.records.len() > 0 {
        lemma_trimmed_is_full(shortened(page), page.records.last().index);
    }
}

proof fn lemma_cursor_when_full(
    page: PageModel,
    tool_id: Seq<char>,
    start: usize,
    record: LoggedModel,
)
    requires
        page.cursor is None,
        !page.full,
    ensures
        !stepped(page, tool_id, start, record).full ==> stepped(page, tool_id, start, record).cursor
            is None,
{
    let next = counted(page, record.facts);
    lemma_trimmed_is_full(next, page.source_index);
    lemma_trimmed_is_full(
        extended(next, page.source_index, record.canonical),
        next.source_index,
    );
}

/// The records before a place of the log that belong on a page.
pub open spec fn matched(
    records: Seq<LoggedModel>,
    tool_id: Seq<char>,
    start: usize,
    end: nat,
) -> Seq<PageRecord>
    decreases end,
{
    if end == 0 {
        Seq::empty()
    } else {
        let index = (end - 1) as usize;
        let before = matched(records, tool_id, start, (end - 1) as nat);
        if belongs(index, start, records[end - 1].facts, tool_id) {
            before.push(PageRecord { index, text: records[end - 1].canonical })
        } else {
            before
        }
    }
}

/// Every record is short enough to be written to a log.
pub open spec fn short_records(records: Seq<LoggedModel>) -> bool {
    &&& records.len() < usize::MAX
    &&& forall|k: int|
        0 <= k < records.len() ==> encode_utf8((#[trigger] records[k]).canonical).len()
            <= MAX_CONVERSATION_RECORD_BYTES
}

proof fn lemma_matched(records: Seq<LoggedModel>, tool_id: Seq<char>, start: usize, end: nat)
    requires
        short_records(records),
        end <= records.len(),
    ensures
        ({
            let found = matched(records, tool_id, start, end);
            &&& forall|k: int|
                0 <= k < found.len() ==> {
                    &&& start <= (#[trigger] found[k]).index < end
                    &&& concerns_tool(records[found[k].index as int].facts, tool_id)
                    &&& encode_utf8(found[k].text).len() <= MAX_CONVERSATION_RECORD_BYTES
                }
            &&& found.len() > 0 ==> matched(
                records,
                tool_id,
                start,
                found.last().index as nat,
            ) == found.drop_last()
        }),
    decreases end,
{
    if end > 0 {
        lemma_matched(records, tool_id, start, (end - 1) as nat);
        let before = matched(records, tool_id, start, (end - 1) as nat);
        let found = matched(records, tool_id, start, end);
        if found.len() > before.len() {
            assert(found.drop_last() =~= before);
        }
    }
}

proof fn lemma_encoded_at_most(chars: Seq<char>)
    ensures
        encode_utf8(chars).len() <= 4 * chars.len(),
    decreases chars.len(),
{
    if chars.len() > 0 {
        lemma_encoded_at_most(chars.drop_first());
    }
}

proof fn lemma_empty_page_is_short(cursor: Option<usize>)
    ensures
        encode_utf8(page_text(TOOL_RUN_LOG_PAGE_SCHEMA@, Seq::empty(), cursor)).len() <= 1000,
{
    reveal_strlit("{\"continuation_cursor\":");
    reveal_strlit(",\"records\":[");
    reveal_strlit("{\"records\":[");
    reveal_strlit("],\"schema\":\"");
    reveal_strlit("\"}");
    reveal_strlit("flow-tool-run-log-page-v0");
    match cursor {
        Some(cursor) => {
            assert(cursor < vstd::arithmetic::power::pow(10, 20)) by {
                assert(vstd::arithmetic::power::pow(10, 20) == 100_000_000_000_000_000_000) by {
                    reveal_with_fuel(vstd::arithmetic::power::pow, 21);
                }
            }
            text::lemma_positional_width(cursor as nat, 10, 20);
        },
        None => {},
    }
    lemma_encoded_at_most(page_text(TOOL_RUN_LOG_PAGE_SCHEMA@, Seq::empty(), cursor));
}

proof fn lemma_total_bytes(texts: Seq<Seq<char>>, bound: nat)
    requires
        forall|k: int| 0 <= k < texts.len() ==> encode_utf8(#[trigger] texts[k]).len() <= bound,
    ensures
        total_bytes(texts) <= bound * texts.len(),
    decreases texts.len(),
{
    if texts.len() > 0 {
        lemma_total_bytes(texts.drop_last(), bound);
        let n = texts.len();
        assert(bound * n == bound * (n - 1) + bound) by (nonlinear_arith)
            requires
                n > 0,
        ;
    }
}

/// What holds of a page whose records are those before a place of the log.
spec fn holds_before(
    page: PageModel,
    records: Seq<LoggedModel>,
    tool_id: Seq<char>,
    start: usize,
    end: nat,
) -> bool {
    &&& end <= records.len()
    &&& page.records == matched(records, tool_id, start, end)
    &&& page.records_bytes == total_bytes(page_texts(page.records))
    &&& page.records.len() <= MAX_CONVERSATION_STATUS_RECORDS
}

/// What a full page is: it fits, holds what lies before its cursor, and holds
/// something; at its cursor stands a record that concerns the tool.
spec fn sound_full(
    page: PageModel,
    records: Seq<LoggedModel>,
    tool_id: Seq<char>,
    start: usize,
) -> bool {
    &&& page.full
    &&& page.cursor matches Some(cursor)
    &&& holds_before(page, records, tool_id, start, cursor as nat)
    &&& filled_bytes(page, page.cursor) <= MAX_CONVERSATION_STATUS_BYTES
    &&& page.records.len() > 0
    &&& start < cursor < records.len()
    &&& concerns_tool(records[cursor as int].facts, tool_id)
}

proof fn lemma_bytes_of_texts(
    records: Seq<LoggedModel>,
    tool_id: Seq<char>,
    start: usize,
    end: nat,
    page: PageModel,
)
    requires
        short_records(records),
        end <= records.len(),
        page.records == matched(records, tool_id, start, end),
        page.records.len() <= MAX_CONVERSATION_STATUS_RECORDS,
    ensures
        total_bytes(page_texts(page.records)) <= MAX_CONVERSATION_RECORD_BYTES
            * page.records.len(),
        page.records.len() > 0 ==> page_texts(page.records.drop_last()) == page_texts(
            page.records,
        ).drop_last(),
        page.records.len() > 0 ==> page_texts(page.records).last() == page.records.last().text,
{
    lemma_matched(records, tool_id, start, end);
    let texts = page_texts(page.records);
    assert forall|k: int| 0 <= k < texts.len() implies encode_utf8(#[trigger] texts[k]).len()
        <= MAX_CONVERSATION_RECORD_BYTES by {
        assert(texts[k] == page.records[k].text);
    }
    lemma_total_bytes(texts, MAX_CONVERSATION_RECORD_BYTES as nat);
    if page.records.len() > 0 {
        assert(page_texts(page.records.drop_last()) =~= texts.drop_last());
    }
}

proof fn lemma_trimmed_page(
    page: PageModel,
    records: Seq<LoggedModel>,
    tool_id: Seq<char>,
    start: usize,
    cursor: usize,
)
    requires
        short_records(records),
        holds_before(page, records, tool_id, start, cursor as nat),
        page.records.len() > 0,
        cursor > start,
        filled_bytes(page, Some(cursor)) > MAX_CONVERSATION_STATUS_BYTES || cursor < records.len()
            && concerns_tool(records[cursor as int].facts, tool_id),
    ensures
        sound_full(trimmed(page, cursor), records, tool_id, start),
        trim_failure(page, cursor) is None,
    decreases page.records.len(),
{
    lemma_matched(records, tool_id, start, cursor as nat);
    lemma_bytes_of_texts(records, tool_id, start, cursor as nat, page);
    lemma_empty_page_is_short(Some(cursor));
    if filled_bytes(page, Some(cursor)) > MAX_CONVERSATION_STATUS_BYTES {
        let last = page.records.last();
        assert(page.records.len() > 1) by {
            if page.records.len() == 1 {
                assert(total_bytes(page_texts(page.records)) <= MAX_CONVERSATION_RECORD_BYTES);
            }
        }
        let shorter = shortened(page);
        assert(total_bytes(page_texts(page.records)) == total_bytes(page_texts(shorter.records))
            + encode_utf8(last.text).len());
        lemma_matched(records, tool_id, start, last.index as nat);
        assert(shorter.records[0].index >= start);
        assert(shorter.records.last().index < last.index);
        lemma_trimmed_page(shorter, records, tool_id, start, last.index);
    }
}

proof fn lemma_filled_page(
    page: PageModel,
    records: Seq<LoggedModel>,
    tool_id: Seq<char>,
    start: usize,
    end: nat,
)
    requires
        short_records(records),
        end <= records.len(),
        !page.full,
        page.cursor is None,
        page.source_index == end,
        holds_before(page, records, tool_id, start, end),
        filled_bytes(page, None) <= MAX_CONVERSATION_STATUS_BYTES,
        fill_failure(page, tool_id, start, records.skip(end as int)) is None,
    ensures
        ({
            let done = filled(page, tool_id, start, records.skip(end as int));
            if done.full {
                sound_full(done, records, tool_id, start)
            } else {
                &&& done.cursor is None
                &&& holds_before(done, records, tool_id, start, records.len())
                &&& filled_bytes(done, None) <= MAX_CONVERSATION_STATUS_BYTES
            }
        }),
    decreases records.len() - end,
{
    let rest = records.skip(end as int);
    if end < records.len() {
        let record = rest[0];
        assert(record == records[end as int]);
        assert(rest.skip(1) =~= records.skip((end + 1) as int));
        let next = counted(page, record.facts);
        let longer = extended(next, page.source_index, record.canonical);
        let after = stepped(page, tool_id, start, record);
        lemma_matched(records, tool_id, start, end);
        lemma_bytes_of_texts(records, tool_id, start, end, page);
        if !belongs(page.source_index, start, record.facts, tool_id) {
            lemma_filled_page(after, records, tool_id, start, end + 1);
        } else if page.records.len() == MAX_CONVERSATION_STATUS_RECORDS {
            assert(page.records[0].index >= start);
            lemma_trimmed_page(next, records, tool_id, start, page.source_index);
        } else {
            assert(longer.records == matched(records, tool_id, start, end + 1));
            lemma_bytes_of_texts(records, tool_id, start, end + 1, longer);
            assert(longer.records.drop_last() =~= page.records);
            if filled_bytes(longer, Some(next.source_index)) > MAX_CONVERSATION_STATUS_BYTES {
                lemma_trimmed_page(longer, records, tool_id, start, next.source_index);
            } else {
                lemma_empty_with_cursor_is_longer(next.source_index);
                lemma_filled_page(after, records, tool_id, start, end + 1);
            }
        }
    }
}

proof fn lemma_empty_with_cursor_is_longer(cursor: usize)
    ensures
        encode_utf8(page_text(TOOL_RUN_LOG_PAGE_SCHEMA@, Seq::empty(), None)).len()
            <= encode_utf8(
            page_text(TOOL_RUN_LOG_PAGE_SCHEMA@, Seq::empty(), Some(cursor)),
        ).len(),
{
    let tail = page_tail(TOOL_RUN_LOG_PAGE_SCHEMA@);
    let none: Seq<Seq<char>> = Seq::empty();
    assert(page_head(None) + comma_joined(none) =~= page_head(None));
    assert(page_head(Some(cursor)) + comma_joined(none) =~= page_head(Some(cursor)));
    text::lemma_encode_concat(page_head(None), tail);
    text::lemma_encode_concat(page_head(Some(cursor)), tail);
    let front = "{\"continuation_cursor\":"@ + text::decimal(cursor as nat);
    text::lemma_encode_concat(front, ",\"records\":["@);
    assert("{\"records\":["@ =~= "{"@ + "\"records\":["@) by {
        reveal_strlit("{\"records\":[");
        reveal_strlit("{");
        reveal_strlit("\"records\":[");
    }
    assert(",\"records\":["@ =~= ","@ + "\"records\":["@) by {
        reveal_strlit(",\"records\":[");
        reveal_strlit(",");
        reveal_strlit("\"records\":[");
    }
    text::lemma_encode_concat("{"@, "\"records\":["@);
    text::lemma_encode_concat(","@, "\"records\":["@);
    assert(encode_utf8("{"@).len() == 1 && encode_utf8(","@).len() == 1) by {
        reveal_strlit("{");
        reveal_strlit(",");
        assert(encode_utf8("{"@.drop_first()).len() == 0);
        assert(encode_utf8(","@.drop_first()).len() == 0);
    }
}

/// Pages leave nothing out and repeat nothing: a page holds exactly the records that
/// concern the tool between where it begins and where the next one begins, or the
/// end of the log. Its text fits, and where there is a next page it begins with the first
/// record that was not returned, and this one is not empty.
pub proof fn law_page_is_exact(records: Seq<LoggedModel>, tool_id: Seq<char>, start: usize)
    requires
        short_records(records),
        fill_failure(empty_page(), tool_id, start, records) is None,
    ensures
        ({
            let page = filled(empty_page(), tool_id, start, records);
            let end = match page.cursor {
                Some(cursor) => cursor as nat,
                None => records.len(),
            };
            &&& end <= records.len()
            &&& page.records == matched(records, tool_id, start, end)
            &&& encode_utf8(
                page_text(TOOL_RUN_LOG_PAGE_SCHEMA@, page_texts(page.records), page.cursor),
            ).len() <= MAX_CONVERSATION_STATUS_BYTES
            &&& page.records.len() <= MAX_CONVERSATION_STATUS_RECORDS
            &&& page.cursor matches Some(cursor) ==> {
                &&& start < cursor < records.len()
                &&& concerns_tool(records[cursor as int].facts, tool_id)
                &&& page.records.len() > 0
            }
        }),
{
    assert(records.skip(0) =~= records);
    assert(page_texts(empty_page().records) =~= Seq::<Seq<char>>::empty());
    lemma_empty_page_is_short(None);
    lemma_filled_page(empty_page(), records, tool_id, start, 0);
    let page = filled(empty_page(), tool_id, start, records);
    let texts = page_texts(page.records);
    let end = match page.cursor {
        Some(cursor) => cursor as nat,
        None => records.len(),
    };
    lemma_bytes_of_texts(records, tool_id, start, end, page);
    lemma_empty_page_is_short(page.cursor);
    lemma_page_length(TOOL_RUN_LOG_PAGE_SCHEMA@, texts, page.cursor);
    law_page_size(TOOL_RUN_LOG_PAGE_SCHEMA@, texts, page.cursor);
}

proof fn lemma_matched_parts(
    records: Seq<LoggedModel>,
    tool_id: Seq<char>,
    start: usize,
    middle: usize,
    end: nat,
)
    requires
        start <= middle <= end <= records.len() < usize::MAX,
    ensures
        matched(records, tool_id, start, end) == matched(records, tool_id, start, middle as nat)
            + matched(records, tool_id, middle, end),
    decreases end,
{
    if end > middle {
        lemma_matched_parts(records, tool_id, start, middle, (end - 1) as nat);
        assert(matched(records, tool_id, start, end) =~= matched(
            records,
            tool_id,
            start,
            middle as nat,
        ) + matched(records, tool_id, middle, end));
    } else {
        lemma_nothing_before_the_start(records, tool_id, middle, end);
        assert(matched(records, tool_id, start, end) =~= matched(
            records,
            tool_id,
            start,
            middle as nat,
        ) + matched(records, tool_id, middle, end));
    }
}

proof fn lemma_nothing_before_the_start(
    records: Seq<LoggedModel>,
    tool_id: Seq<char>,
    start: usize,
    end: nat,
)
    requires
        end <= start,
    ensures
        matched(records, tool_id, start, end).len() == 0,
    decreases end,
{
    if end > 0 {
        lemma_nothing_before_the_start(records, tool_id, start, (end - 1) as nat);
    }
}

/// The records on a page and on all the pages behind it, each of which begins at the
/// cursor of the one before it.
pub open spec fn all_pages(records: Seq<LoggedModel>, tool_id: Seq<char>, start: usize) -> Seq<
    PageRecord,
>
    decreases records.len() - start,
{
    let page = filled(empty_page(), tool_id, start, records);
    match page.cursor {
        Some(cursor) => if start < cursor <= records.len() {
            page.records + all_pages(records, tool_id, cursor)
        } else {
            page.records
        },
        None => page.records,
    }
}

/// Pages that are asked for one behind the other, each from the cursor of the one before,
/// are together every record of the log that concerns the tool, each once and in order.
pub proof fn law_pages_are_the_whole_log(records: Seq<LoggedModel>, tool_id: Seq<char>, start: usize)
    requires
        short_records(records),
        start <= records.len(),
        forall|from: usize| #[trigger]
            fill_failure(empty_page(), tool_id, from, records) is None,
    ensures
        all_pages(records, tool_id, start) == matched(records, tool_id, start, records.len()),
    decreases records.len() - start,
{
    assert(fill_failure(empty_page(), tool_id, start, records) is None);
    law_page_is_exact(records, tool_id, start);
    let page = filled(empty_page(), tool_id, start, records);
    if let Some(cursor) = page.cursor {
        law_pages_are_the_whole_log(records, tool_id, cursor);
        lemma_matched_parts(records, tool_id, start, cursor, records.len());
    }
}

/// Joined texts hold each of them once and in order, with one comma between each two: what
/// stands before any of them, the text itself, and what stands behind it.
pub proof fn law_joined_texts_hold_each(texts: Seq<Seq<char>>, k: int)
    requires
        0 <= k < texts.len(),
    ensures
        comma_joined(texts) == comma_joined(texts.take(k)) + (if k > 0 {
            ","@
        } else {
            Seq::empty()
        }) + texts[k] + (if k + 1 < texts.len() {
            ","@
        } else {
            Seq::empty()
        }) + comma_joined(texts.skip(k + 1)),
    decreases texts.len(),
{
    let rest = texts.drop_last();
    if k + 1 == texts.len() {
        assert(texts.skip(k + 1) =~= Seq::<Seq<char>>::empty());
        assert(texts.take(k) =~= rest);
        if k == 0 {
            assert(texts.take(0) =~= Seq::<Seq<char>>::empty());
        }
        assert(comma_joined(texts) =~= comma_joined(texts.take(k)) + (if k > 0 {
            ","@
        } else {
            Seq::empty()
        }) + texts[k] + Seq::<char>::empty() + comma_joined(texts.skip(k + 1)));
    } else {
        law_joined_texts_hold_each(rest, k);
        assert(rest.take(k) =~= texts.take(k));
        assert(rest[k] == texts[k]);
        let tail = texts.skip(k + 1);
        assert(rest.skip(k + 1) =~= tail.drop_last());
        assert(tail.last() == texts.last());
        let before = comma_joined(texts.take(k)) + (if k > 0 {
            ","@
        } else {
            Seq::empty()
        }) + texts[k];
        if tail.len() == 1 {
            assert(tail.drop_last() =~= Seq::<Seq<char>>::empty());
            assert(comma_joined(rest) =~= before);
            assert(comma_joined(texts) =~= before + ","@ + comma_joined(tail));
        } else {
            assert(comma_joined(tail) == comma_joined(tail.drop_last()) + ","@ + tail.last());
            assert(comma_joined(rest) =~= before + ","@ + comma_joined(tail.drop_last()));
            assert(comma_joined(texts) =~= before + ","@ + comma_joined(tail));
        }
    }
}

/// Whether a record of a log is the intent or the result of an attempt of a tool.
pub open spec fn is_of_tool(facts: RecordFacts, tool_id: Seq<char>) -> bool {
    ||| facts is Intent && facts->intent.attempt_kind == RunAttemptKind::Tool
        && facts->intent.tool_id is Some && facts->intent.tool_id->0.text == tool_id
    ||| facts is TerminalResult && facts->result.attempt_kind == RunAttemptKind::Tool
        && facts->TerminalResult_tool_id is Some && facts->TerminalResult_tool_id->0.text
        == tool_id
}

/// The records of a tool are those of its attempts, each at its place in the log and with its
/// text: every one between the first place and the end, in the order of the log, and no other.
pub proof fn law_records_of_a_tool(
    records: Seq<LoggedModel>,
    tool_id: Seq<char>,
    start: usize,
    end: nat,
)
    requires
        end <= records.len(),
        records.len() < usize::MAX,
    ensures
        ({
            let found = matched(records, tool_id, start, end);
            &&& forall|i: int|
                0 <= i < found.len() ==> {
                    let record = #[trigger] found[i];
                    &&& start <= record.index < end
                    &&& is_of_tool(records[record.index as int].facts, tool_id)
                    &&& record.text == records[record.index as int].canonical
                }
            &&& forall|k: int|
                start <= k < end && is_of_tool((#[trigger] records[k]).facts, tool_id)
                    ==> found.contains(PageRecord { index: k as usize, text: records[k].canonical })
            &&& forall|i: int, j: int|
                0 <= i < j < found.len() ==> (#[trigger] found[i]).index < (
                #[trigger] found[j]).index
        }),
    decreases end,
{
    if end > 0 {
        let before = matched(records, tool_id, start, (end - 1) as nat);
        let found = matched(records, tool_id, start, end);
        let index = (end - 1) as usize;
        let last = PageRecord { index, text: records[end - 1].canonical };
        law_records_of_a_tool(records, tool_id, start, (end - 1) as nat);
        assert(is_of_tool(records[end - 1].facts, tool_id) == concerns_tool(
            records[end - 1].facts,
            tool_id,
        ));
        assert forall|k: int|
            start <= k < end && is_of_tool(
                (#[trigger] records[k]).facts,
                tool_id,
            ) implies found.contains(
            PageRecord { index: k as usize, text: records[k].canonical },
        ) by {
            let wanted = PageRecord { index: k as usize, text: records[k].canonical };
            if k == end - 1 {
                assert(found[before.len() as int] == wanted);
            } else {
                assert(before.contains(wanted));
                let i = choose|i: int| 0 <= i < before.len() && before[i] == wanted;
                assert(found[i] == wanted);
            }
        }
        if found != before {
            assert(found == before.push(last));
            assert forall|i: int| 0 <= i < found.len() implies {
                let record = #[trigger] found[i];
                &&& start <= record.index < end
                &&& is_of_tool(records[record.index as int].facts, tool_id)
                &&& record.text == records[record.index as int].canonical
            } by {
                if i < before.len() {
                    assert(found[i] == before[i]);
                }
            }
            assert forall|i: int, j: int| 0 <= i < j < found.len() implies (
            #[trigger] found[i]).index < (#[trigger] found[j]).index by {
                assert(found[i] == before[i]);
                if j < before.len() {
                    assert(found[j] == before[j]);
                }
            }
        }
    }
}

} // verus!
