//! Following the event log of a session: every event is checked, what was once
//! seen must stay, and an incomplete last line is borne only while the session is
//! owned.

use crate::contract::Checked;
use crate::engine::signature::{same_signature, RuntimeStreamSignature, RuntimeStreamSignatureBuilder, SignatureModel, EVENT_PLAN_DOMAIN};
use crate::engine::signature;
use crate::error::{protocol, usage, ErrorModel, IoKind, RuntimeError};
use crate::error;
use crate::stream::framing::{complete_jsonl_prefix_len, line_length};
use crate::stream::framing;
use crate::text::{decimal_text, join2, join3, quoted_text, same_text, text_from_utf8};
use crate::text;
use vstd::prelude::*;
use vstd::utf8::*;

verus! {

pub const MAX_IN_MEMORY_REPLAY_OUTPUT_BYTES: usize = 64 * 1024 * 1024;

/// What is wrong with holding so many bytes of replayed events.
pub open spec fn replay_output_failure(output_bytes: nat) -> Option<ErrorModel> {
    if output_bytes > MAX_IN_MEMORY_REPLAY_OUTPUT_BYTES {
        Some(
            ErrorModel::ReplayOutputLimitExceeded {
                limit_bytes: MAX_IN_MEMORY_REPLAY_OUTPUT_BYTES,
            },
        )
    } else {
        None
    }
}

/// Accepts so many bytes of replayed events as may be held at once.
pub fn ensure_in_memory_replay_output_limit(output_bytes: usize) -> (result: Result<
    (),
    RuntimeError,
>)
    ensures
        error::failure(result) == replay_output_failure(output_bytes as nat),
{
    if output_bytes > MAX_IN_MEMORY_REPLAY_OUTPUT_BYTES {
        return Err(
            RuntimeError::ReplayOutputLimitExceeded {
                limit_bytes: MAX_IN_MEMORY_REPLAY_OUTPUT_BYTES,
            },
        );
    }
    Ok(())
}

/// The limits of an event log.
#[derive(Clone, Copy, Debug, PartialEq, Eq, Structural)]
pub struct EventLogLimits {
    pub max_segment_bytes: u64,
    pub max_event_bytes: u64,
}

/// What the checks on the events of a log have come to.
#[derive(Clone, Copy, Debug, PartialEq, Eq, Structural)]
pub struct EventProgress {
    pub line_count: usize,
    pub previous_sequence: u64,
    pub terminal: bool,
}

/// No event has been checked.
pub open spec fn no_progress() -> EventProgress {
    EventProgress { line_count: 0, previous_sequence: 0, terminal: false }
}

/// A reader of one session's event log. What it has observed is the number of
/// segments, the complete bytes of the last one and the signature of the events.
pub struct SessionEventReader {
    pub observed_current_segment_bytes: u64,
    pub observed_segment_count: usize,
    pub observed_signature: RuntimeStreamSignatureBuilder,
    pub path: String,
    pub session_id: String,
    pub progress: EventProgress,
    pub records: Ghost<Seq<Seq<u8>>>,
}

/// The domain under which events are signed.
pub open spec fn event_domain() -> Seq<u8> {
    encode_utf8(EVENT_PLAN_DOMAIN@)
}

/// A log that was looked for: where it would stand, and whether a file stands there.
pub struct LogPlace {
    pub path: String,
    pub found: Result<(), RuntimeError>,
}

/// What looking for the log of a run of a conversation met: the directory of the
/// conversation, the one of its runs, the one of the run, the log in it, and the log of a
/// session that stands on its own. What lies behind something missing is missing.
pub struct RunLogSearch {
    pub conversation: Result<(), RuntimeError>,
    pub runs: Result<(), RuntimeError>,
    pub run: Result<(), RuntimeError>,
    pub run_log: LogPlace,
    pub flat_log: LogPlace,
}

/// Whether looking for something met nothing.
pub open spec fn is_missing(found: Result<(), RuntimeError>) -> bool {
    found matches Err(RuntimeError::Io { kind: IoKind::NotFound, .. })
}

/// Whether a run is a session that is not laid out as a conversation.
pub open spec fn has_flat_log(
    conversation_id: Seq<char>,
    run_session_id: Seq<char>,
    search: RunLogSearch,
) -> bool {
    is_missing(search.conversation) && conversation_id == run_session_id
}

/// What is wrong with the log of a run: that it, or a directory on the way to it, could
/// not be opened.
pub open spec fn run_log_failure(
    conversation_id: Seq<char>,
    run_session_id: Seq<char>,
    search: RunLogSearch,
) -> Option<ErrorModel> {
    if has_flat_log(conversation_id, run_session_id, search) {
        error::failure(search.flat_log.found)
    } else {
        error::first_failure(
            error::failure(search.conversation),
            error::first_failure(
                error::failure(search.runs),
                error::first_failure(
                    error::failure(search.run),
                    error::failure(search.run_log.found),
                ),
            ),
        )
    }
}

/// Whether a run is a session that is not laid out as a conversation.
pub fn reads_flat_log(
    conversation_id: &Checked,
    run_session_id: &Checked,
    search: &RunLogSearch,
) -> (flat: bool)
    ensures
        flat == has_flat_log(conversation_id.text@, run_session_id.text@, *search),
{
    match &search.conversation {
        Err(RuntimeError::Io { kind: IoKind::NotFound, .. }) => same_text(
            conversation_id.text.as_str(),
            run_session_id.text.as_str(),
        ),
        _ => false,
    }
}

impl SessionEventReader {
    /// The signature is that of the events observed.
    pub open spec fn wf(self) -> bool {
        &&& self.observed_signature.holds(event_domain(), self.records@)
        &&& self.records@.len() < usize::MAX
    }

    /// Opens the log of a session, of which nothing has been observed.
    pub fn open(session_id: &Checked, path: &str) -> (result: Result<
        SessionEventReader,
        RuntimeError,
    >)
        ensures
            error::failure(result) == (if session_id.valid {
                None
            } else {
                error::usage_failure("invalid session_id "@ + text::quoted(session_id.text@))
            }),
            result matches Ok(reader) ==> {
                &&& reader.wf()
                &&& reader.records@ == Seq::<Seq<u8>>::empty()
                &&& reader.path@ == path@
                &&& reader.session_id@ == session_id.text@
                &&& reader.progress == no_progress()
                &&& reader.observed_current_segment_bytes == 0
                &&& reader.observed_segment_count == 0
            },
    {
        if !session_id.valid {
            let written = quoted_text(session_id.text.as_str());
            let message = join2("invalid session_id ", written.as_str());
            return Err(usage(message.as_str()));
        }
        Ok(
            SessionEventReader {
                observed_current_segment_bytes: 0,
                observed_segment_count: 0,
                observed_signature: RuntimeStreamSignatureBuilder::new(EVENT_PLAN_DOMAIN),
                path: path.to_owned(),
                session_id: session_id.text.clone(),
                progress: EventProgress { line_count: 0, previous_sequence: 0, terminal: false },
                records: Ghost(Seq::empty()),
            },
        )
    }

    /// Opens the log of a run of a conversation, of which nothing has been observed. It is
    /// the log that stands in the run's own directory; a session that is not laid out as a
    /// conversation is its only run, and its flat log is read.
    pub fn open_conversation_run(
        conversation_id: &Checked,
        run_session_id: &Checked,
        search: RunLogSearch,
    ) -> (result: Result<SessionEventReader, RuntimeError>)
        ensures
            error::failure(result) == (if conversation_id.valid && run_session_id.valid {
                run_log_failure(conversation_id.text@, run_session_id.text@, search)
            } else {
                error::usage_failure("invalid conversation or run session id"@)
            }),
            result matches Ok(reader) ==> {
                &&& reader.wf()
                &&& reader.records@ == Seq::<Seq<u8>>::empty()
                &&& reader.path@ == (if has_flat_log(
                    conversation_id.text@,
                    run_session_id.text@,
                    search,
                ) {
                    search.flat_log.path@
                } else {
                    search.run_log.path@
                })
                &&& reader.session_id@ == run_session_id.text@
                &&& reader.progress == no_progress()
                &&& reader.observed_current_segment_bytes == 0
                &&& reader.observed_segment_count == 0
            },
    {
        if !conversation_id.valid || !run_session_id.valid {
            return Err(usage("invalid conversation or run session id"));
        }
        if reads_flat_log(conversation_id, run_session_id, &search) {
            search.flat_log.found?;
            return Self::open(run_session_id, search.flat_log.path.as_str());
        }
        search.conversation?;
        search.runs?;
        search.run?;
        search.run_log.found?;
        Self::open(run_session_id, search.run_log.path.as_str())
    }

    /// The failure of a log whose past has changed.
    pub fn changed_outside_append_only(&self) -> (error: RuntimeError)
        ensures
            error@ == ErrorModel::Protocol(
                self.path@ + " changed outside append-only session semantics"@,
            ),
    {
        let message = join2(self.path.as_str(), " changed outside append-only session semantics");
        protocol(message.as_str())
    }

    /// The failure of a log that ends in the middle of a line and is not owned.
    pub fn inactive_partial(&self) -> (error: RuntimeError)
        ensures
            error@ == ErrorModel::Protocol(partial_message(self.path@)),
    {
        let message = join2(
            self.path.as_str(),
            " contains an incomplete final JSONL line without active session ownership",
        );
        protocol(message.as_str())
    }

    /// The failure of a log that is empty and not owned.
    pub fn inactive_empty(&self) -> (error: RuntimeError)
        ensures
            error@ == ErrorModel::Protocol(empty_message(self.path@)),
    {
        let message = join2(self.path.as_str(), " is empty without active session ownership");
        protocol(message.as_str())
    }

    /// Accepts a cursor that the log has reached.
    pub fn ensure_cursor(&self, cursor: u64, latest_sequence: u64) -> (result: Result<
        (),
        RuntimeError,
    >)
        ensures
            error::failure(result) == cursor_failure(self.path@, cursor, latest_sequence),
    {
        if cursor <= latest_sequence {
            return Ok(());
        }
        let number = decimal_text(cursor);
        let message = join3(
            self.path.as_str(),
            " no longer contains processed sequence ",
            number.as_str(),
        );
        Err(protocol(message.as_str()))
    }
}

/// What is said of a log that ends in the middle of a line and is not owned.
pub open spec fn partial_message(path: Seq<char>) -> Seq<char> {
    path + " contains an incomplete final JSONL line without active session ownership"@
}

/// What is said of a log that is empty and not owned.
pub open spec fn empty_message(path: Seq<char>) -> Seq<char> {
    path + " is empty without active session ownership"@
}

/// What is wrong with a cursor.
pub open spec fn cursor_failure(path: Seq<char>, cursor: u64, latest_sequence: u64) -> Option<
    ErrorModel,
> {
    if cursor <= latest_sequence {
        None
    } else {
        error::protocol_failure(path + " no longer contains processed sequence "@ + text::decimal(cursor as nat))
    }
}

/// Whether a session is owned: the workspace is the one that was opened, before and
/// after its lease was found to be held.
pub fn session_ownership_active(
    identity_current: bool,
    lease_active: bool,
    identity_still_current: bool,
) -> (active: bool)
    ensures
        active == (identity_current && lease_active && identity_still_current),
{
    identity_current && lease_active && identity_still_current
}

/// What is done about a log that ends early while its session is not owned.
#[derive(Clone, Copy, Debug, PartialEq, Eq, Structural)]
pub enum InactiveDecision {
    /// Look once more: the session may just have ended.
    Retry,
    /// Go on, and report what ends early at the end, if anything does.
    Proceed { partial: bool, empty: bool },
}

/// What is wrong with a log that ends early, where it is reported at once.
pub open spec fn inactive_failure(
    path: Seq<char>,
    partial: bool,
    empty: bool,
    retried: bool,
    deferred: bool,
) -> Option<ErrorModel> {
    if !retried || deferred {
        None
    } else if partial {
        error::protocol_failure(partial_message(path))
    } else if empty {
        error::protocol_failure(empty_message(path))
    } else {
        None
    }
}

impl SessionEventReader {
    /// Decides about a log that ends with an incomplete line or holds nothing.
    pub fn judge_end(
        &self,
        has_partial_line: bool,
        is_empty: bool,
        ownership_active: bool,
        retried: bool,
        deferred: bool,
    ) -> (result: Result<InactiveDecision, RuntimeError>)
        ensures
            ({
                let partial = has_partial_line && !ownership_active;
                let empty = is_empty && !ownership_active;
                &&& error::failure(result) == inactive_failure(self.path@, partial, empty, retried, deferred)
                &&& result matches Ok(decision) ==> decision == (if (partial || empty) && !retried {
                    InactiveDecision::Retry
                } else {
                    InactiveDecision::Proceed { partial, empty }
                })
            }),
    {
        let partial = has_partial_line && !ownership_active;
        let empty = is_empty && !ownership_active;
        if (partial || empty) && !retried {
            return Ok(InactiveDecision::Retry);
        }
        if partial && !deferred {
            return Err(self.inactive_partial());
        }
        if empty && !deferred {
            return Err(self.inactive_empty());
        }
        Ok(InactiveDecision::Proceed { partial, empty })
    }
}

/// A scan of a whole log that confirms what was observed of it before, and hands
/// out the events between a cursor and a last sequence.
pub struct VerifiedScan {
    pub path: String,
    pub expected: RuntimeStreamSignature,
    pub signature: RuntimeStreamSignatureBuilder,
    pub cursor: u64,
    pub through_sequence: u64,
    /// Whether what ends early is reported only when the whole log was scanned.
    pub deferred: bool,
    /// Whether the events handed out are held in memory.
    pub materialized: bool,
    pub output_bytes: usize,
    pub total_bytes: u64,
    pub final_complete_bytes: u64,
    pub progress: EventProgress,
    pub records: Ghost<Seq<Seq<u8>>>,
    /// The events scanned.
    pub events: Ghost<Seq<LogEvent>>,
}

/// An event of a log: its line, and its sequence.
pub struct LogEvent {
    pub line: Seq<u8>,
    pub sequence: u64,
}

/// The lines of some events.
pub open spec fn event_lines(events: Seq<LogEvent>) -> Seq<Seq<u8>> {
    events.map_values(|event: LogEvent| event.line)
}

/// The events with a sequence behind the cursor and up to the last one wanted, in order.
pub open spec fn wanted_events(events: Seq<LogEvent>, cursor: u64, through_sequence: u64) -> Seq<
    LogEvent,
> {
    events.filter(|event: LogEvent| cursor < event.sequence <= through_sequence)
}

/// How many bytes the lines of some events hold.
pub open spec fn held_bytes(events: Seq<LogEvent>) -> nat
    decreases events.len(),
{
    if events.len() == 0 {
        0
    } else {
        held_bytes(events.drop_last()) + events.last().line.len()
    }
}

/// What reading a log comes to: the events handed out, the bytes held in memory, and what
/// is wrong.
pub struct ReadModel {
    pub handed: Seq<LogEvent>,
    pub output_bytes: usize,
    pub failure: Option<ErrorModel>,
}

/// What is asked of a read: `expected` is the signature that what was observed before is
/// held to, where the whole log is read.
pub struct ReadRequest {
    pub path: Seq<char>,
    pub expected: Option<SignatureModel>,
    pub cursor: u64,
    pub through_sequence: u64,
    pub materialized: bool,
}

/// Reading a log event by event.
pub open spec fn read_log(request: ReadRequest, events: Seq<LogEvent>) -> ReadModel
    decreases events.len(),
{
    if events.len() == 0 {
        ReadModel { handed: Seq::empty(), output_bytes: 0, failure: None }
    } else {
        let before = read_log(request, events.drop_last());
        let event = events.last();
        let visited = request.cursor < event.sequence <= request.through_sequence;
        if before.failure is Some {
            before
        } else {
            ReadModel {
                handed: if visited {
                    before.handed.push(event)
                } else {
                    before.handed
                },
                output_bytes: output_after(
                    request.materialized,
                    before.output_bytes,
                    visited,
                    event.line.len(),
                ),
                failure: if request.expected matches Some(expected) && !confirms(
                    event_lines(events),
                    expected,
                ) {
                    error::protocol_failure(
                        request.path + " changed outside append-only session semantics"@,
                    )
                } else {
                    output_failure(
                        request.materialized,
                        before.output_bytes,
                        visited,
                        event.line.len(),
                    )
                },
            }
        }
    }
}

/// Whether the events up to the count of a signature are those it was made of.
pub open spec fn confirms(records: Seq<Seq<u8>>, expected: SignatureModel) -> bool {
    1 <= expected.record_count <= records.len() ==> signature::stream_signature(
        event_domain(),
        records.take(expected.record_count as int),
    ) == expected
}

/// The bytes held in memory after an event was handed out.
pub open spec fn output_after(
    materialized: bool,
    output_bytes: usize,
    visited: bool,
    length: nat,
) -> usize {
    if !materialized || !visited {
        output_bytes
    } else if output_bytes + length > usize::MAX {
        usize::MAX
    } else {
        (output_bytes + length) as usize
    }
}

/// What is wrong with handing out an event.
pub open spec fn output_failure(
    materialized: bool,
    output_bytes: usize,
    visited: bool,
    length: nat,
) -> Option<ErrorModel> {
    if materialized && visited {
        replay_output_failure(output_after(materialized, output_bytes, visited, length) as nat)
    } else {
        None
    }
}

/// What is wrong with a log of so many bytes.
pub open spec fn event_bytes_failure(path: Seq<char>, bytes: nat, limits: EventLogLimits) -> Option<
    ErrorModel,
> {
    if bytes > limits.max_event_bytes {
        error::protocol_failure(
            path + " session event data exceeds max "@ + text::decimal(limits.max_event_bytes as nat),
        )
    } else {
        None
    }
}

/// A sum of two counts of bytes, held at the largest count.
pub open spec fn saturated_sum(left: nat, right: nat) -> u64 {
    if left + right > u64::MAX {
        u64::MAX
    } else {
        (left + right) as u64
    }
}

/// The failure of a log that holds too many bytes.
pub fn event_bytes_exceeded(path: &str, limits: EventLogLimits) -> (error: RuntimeError)
    ensures
        error@ == ErrorModel::Protocol(
            path@ + " session event data exceeds max "@ + text::decimal(limits.max_event_bytes as nat),
        ),
{
    let maximum = decimal_text(limits.max_event_bytes);
    let message = join3(path, " session event data exceeds max ", maximum.as_str());
    protocol(message.as_str())
}

impl SessionEventReader {
    /// Begins a scan that reads every event after the cursor into memory.
    pub fn read_after(&self, cursor: u64) -> (scan: VerifiedScan)
        ensures
            scan.starts(*self, cursor, u64::MAX, true, true),
    {
        self.begin_scan(cursor, u64::MAX, true, true)
    }

    /// Begins a scan that hands out the events after the cursor and up to a sequence.
    pub fn visit_verified_after(&self, cursor: u64, through_sequence: u64) -> (scan: VerifiedScan)
        ensures
            scan.starts(*self, cursor, through_sequence, false, false),
    {
        self.begin_scan(cursor, through_sequence, false, false)
    }

    fn begin_scan(
        &self,
        cursor: u64,
        through_sequence: u64,
        deferred: bool,
        materialized: bool,
    ) -> (scan: VerifiedScan)
        ensures
            scan.starts(*self, cursor, through_sequence, deferred, materialized),
    {
        let scan = VerifiedScan {
            path: self.path.clone(),
            expected: self.observed_signature.signature(),
            signature: RuntimeStreamSignatureBuilder::new(EVENT_PLAN_DOMAIN),
            cursor,
            through_sequence,
            deferred,
            materialized,
            output_bytes: 0,
            total_bytes: 0,
            final_complete_bytes: 0,
            progress: EventProgress { line_count: 0, previous_sequence: 0, terminal: false },
            records: Ghost(Seq::empty()),
            events: Ghost(Seq::empty()),
        };
        assert(event_lines(scan.events@) =~= scan.records@);
        scan
    }
}

impl VerifiedScan {
    /// What is asked of the scan.
    pub open spec fn request(self) -> ReadRequest {
        ReadRequest {
            path: self.path@,
            expected: Some(self.expected@),
            cursor: self.cursor,
            through_sequence: self.through_sequence,
            materialized: self.materialized,
        }
    }

    /// The signature is that of the events scanned, and they confirm what was
    /// observed before.
    pub open spec fn wf(self) -> bool {
        &&& self.signature.holds(event_domain(), self.records@)
        &&& self.records@.len() < usize::MAX
        &&& confirms(self.records@, self.expected@)
        &&& self.records@ == event_lines(self.events@)
        &&& read_log(self.request(), self.events@).failure is None
        &&& read_log(self.request(), self.events@).output_bytes == self.output_bytes
    }

    /// The scan has seen nothing yet of what it was asked for.
    pub open spec fn starts(
        self,
        reader: SessionEventReader,
        cursor: u64,
        through_sequence: u64,
        deferred: bool,
        materialized: bool,
    ) -> bool {
        &&& self.wf()
        &&& self.records@ == Seq::<Seq<u8>>::empty()
        &&& self.events@ == Seq::<LogEvent>::empty()
        &&& self.path@ == reader.path@
        &&& self.cursor == cursor
        &&& self.through_sequence == through_sequence
        &&& self.deferred == deferred
        &&& self.materialized == materialized
        &&& self.output_bytes == 0
        &&& self.total_bytes == 0
        &&& self.final_complete_bytes == 0
        &&& self.progress == no_progress()
        &&& reader.wf() ==> self.expected@ == signature::stream_signature(event_domain(), reader.records@)
    }

    /// The scan has the same purpose as another and has seen the same events.
    pub open spec fn keeps(self, other: VerifiedScan) -> bool {
        &&& self.path == other.path
        &&& self.expected == other.expected
        &&& self.cursor == other.cursor
        &&& self.through_sequence == other.through_sequence
        &&& self.deferred == other.deferred
        &&& self.materialized == other.materialized
    }

    /// Takes account of a segment.
    pub fn add_segment(&mut self, stored_bytes: u64, limits: EventLogLimits) -> (result: Result<
        (),
        RuntimeError,
    >)
        requires
            old(self).wf(),
        ensures
            error::failure(result) == event_bytes_failure(
                old(self).path@,
                saturated_sum(old(self).total_bytes as nat, stored_bytes as nat) as nat,
                limits,
            ),
            final(self).wf(),
            final(self).keeps(*old(self)),
            final(self).records == old(self).records,
            final(self).events == old(self).events,
            final(self).progress == old(self).progress,
            final(self).output_bytes == old(self).output_bytes,
            final(self).final_complete_bytes == old(self).final_complete_bytes,
            final(self).total_bytes == saturated_sum(
                old(self).total_bytes as nat,
                stored_bytes as nat,
            ),
    {
        self.total_bytes = self.total_bytes.saturating_add(stored_bytes);
        if self.total_bytes > limits.max_event_bytes {
            return Err(event_bytes_exceeded(self.path.as_str(), limits));
        }
        Ok(())
    }

    /// Takes note of how many bytes of the last segment belong to complete lines.
    pub fn end_segment(&mut self, complete_bytes: u64, last: bool)
        requires
            old(self).wf(),
        ensures
            final(self).wf(),
            final(self).keeps(*old(self)),
            final(self).records == old(self).records,
            final(self).events == old(self).events,
            final(self).progress == old(self).progress,
            final(self).output_bytes == old(self).output_bytes,
            final(self).total_bytes == old(self).total_bytes,
            final(self).final_complete_bytes == (if last {
                complete_bytes
            } else {
                old(self).final_complete_bytes
            }),
    {
        if last {
            self.final_complete_bytes = complete_bytes;
        }
    }

    /// Takes an event that was checked; says whether it is to be handed out.
    pub fn record(&mut self, line: &[u8], sequence: u64, progress: EventProgress) -> (result:
        Result<bool, RuntimeError>)
        requires
            old(self).wf(),
            old(self).records@.len() + 1 < usize::MAX,
        ensures
            ({
                let records = old(self).records@.push(line@);
                let visited = old(self).cursor < sequence <= old(self).through_sequence;
                &&& error::failure(result) == (if !confirms(records, old(self).expected@) {
                    error::protocol_failure(
                        old(self).path@ + " changed outside append-only session semantics"@,
                    )
                } else {
                    output_failure(
                        old(self).materialized,
                        old(self).output_bytes,
                        visited,
                        line@.len(),
                    )
                })
                &&& result matches Ok(visit) ==> {
                    &&& final(self).wf()
                    &&& final(self).keeps(*old(self))
                    &&& final(self).records@ == records
                    &&& final(self).events@ == old(self).events@.push(
                        LogEvent { line: line@, sequence },
                    )
                    &&& final(self).progress == progress
                    &&& visit == visited
                    &&& final(self).output_bytes == output_after(
                        old(self).materialized,
                        old(self).output_bytes,
                        visited,
                        line@.len(),
                    )
                    &&& final(self).total_bytes == old(self).total_bytes
                    &&& final(self).final_complete_bytes == old(self).final_complete_bytes
                }
            }),
    {
        let ghost before = self.records@;
        self.signature.push(line);
        self.records = Ghost(before.push(line@));
        let ghost events = self.events@;
        self.events = Ghost(events.push(LogEvent { line: line@, sequence }));
        self.progress = progress;
        let signature = self.signature.signature();
        let ghost records = self.records@;
        proof {
            assert(self.events@.drop_last() =~= events);
            assert(records =~= event_lines(self.events@));
            assert(self.signature.holds(event_domain(), records));
            assert(signature@ == signature::stream_signature(event_domain(), records));
            let count = self.expected@.record_count as int;
            if count == records.len() {
                assert(records.take(count) =~= records);
            } else if count < records.len() {
                assert(records.take(count) =~= before.take(count));
            }
        }
        if self.signature.record_count == self.expected.record_count && !same_signature(
            &signature,
            &self.expected,
        ) {
            let message = join2(
                self.path.as_str(),
                " changed outside append-only session semantics",
            );
            return Err(protocol(message.as_str()));
        }
        let visit = self.cursor < sequence && sequence <= self.through_sequence;
        if visit && self.materialized {
            self.output_bytes = self.output_bytes.saturating_add(line.len());
            ensure_in_memory_replay_output_limit(self.output_bytes)?;
        }
        Ok(visit)
    }

    /// What is wrong with a log that has been scanned.
    pub open spec fn end_failure(self, has_partial_line: bool, partial: bool, empty: bool) -> Option<
        ErrorModel,
    > {
        if self.records@.len() < self.expected@.record_count {
            error::protocol_failure(self.path@ + " changed outside append-only session semantics"@)
        } else if has_partial_line && self.progress.terminal {
            error::protocol_failure(self.path@ + " contains a partial line after a terminal event"@)
        } else if partial {
            error::protocol_failure(partial_message(self.path@))
        } else if empty {
            error::protocol_failure(empty_message(self.path@))
        } else {
            cursor_failure(self.path@, self.cursor, self.progress.previous_sequence)
        }
    }
}

impl SessionEventReader {
    /// The failure of a log that goes on after its terminal event.
    pub fn partial_after_terminal(&self) -> (error: RuntimeError)
        ensures
            error@ == ErrorModel::Protocol(
                self.path@ + " contains a partial line after a terminal event"@,
            ),
    {
        let message = join2(self.path.as_str(), " contains a partial line after a terminal event");
        protocol(message.as_str())
    }

    /// Ends a scan: where nothing is wrong the reader has now observed what the scan
    /// saw, and otherwise it stays as it was.
    pub fn finish_scan(
        &mut self,
        scan: VerifiedScan,
        segment_count: usize,
        has_partial_line: bool,
        partial: bool,
        empty: bool,
    ) -> (result: Result<(), RuntimeError>)
        requires
            old(self).wf(),
            scan.wf(),
            scan.path@ == old(self).path@,
        ensures
            error::failure(result) == scan.end_failure(has_partial_line, partial, empty),
            result is Err ==> *final(self) == *old(self),
            result is Ok ==> {
                &&& final(self).wf()
                &&& final(self).records@ == scan.records@
                &&& final(self).progress == scan.progress
                &&& final(self).observed_segment_count == segment_count
                &&& final(self).observed_current_segment_bytes == scan.final_complete_bytes
                &&& final(self).path == old(self).path
                &&& final(self).session_id == old(self).session_id
            },
    {
        if scan.signature.record_count < scan.expected.record_count {
            return Err(self.changed_outside_append_only());
        }
        if has_partial_line && scan.progress.terminal {
            return Err(self.partial_after_terminal());
        }
        if partial {
            return Err(self.inactive_partial());
        }
        if empty {
            return Err(self.inactive_empty());
        }
        self.ensure_cursor(scan.cursor, scan.progress.previous_sequence)?;
        self.observed_current_segment_bytes = scan.final_complete_bytes;
        self.observed_segment_count = segment_count;
        self.observed_signature = scan.signature;
        self.progress = scan.progress;
        self.records = Ghost(scan.records@);
        Ok(())
    }
}

/// How the events after a cursor are found.
pub enum IncrementalRoute {
    /// The whole log has to be scanned.
    Verified(VerifiedScan),
    /// Every wanted event was observed before.
    Current,
    /// What was appended since is read.
    Suffix(IncrementalScan),
}

/// A scan of what was appended to a log since it was last observed.
pub struct IncrementalScan {
    pub path: String,
    pub signature: RuntimeStreamSignatureBuilder,
    pub cursor: u64,
    pub through_sequence: u64,
    pub target_sequence: u64,
    pub materialized: bool,
    pub output_bytes: usize,
    pub observed_event_bytes: u64,
    pub discovered_bytes: u64,
    pub segment_count: usize,
    pub segment_bytes: u64,
    pub progress: EventProgress,
    pub records: Ghost<Seq<Seq<u8>>>,
    /// The events read, which stand behind those observed before.
    pub events: Ghost<Seq<LogEvent>>,
}

/// The larger of two sequences.
pub open spec fn later(left: u64, right: u64) -> u64 {
    if left >= right {
        left
    } else {
        right
    }
}

impl SessionEventReader {
    /// How the events after a cursor are found.
    pub open spec fn routed(
        self,
        cursor: u64,
        through_sequence: u64,
        materialized: bool,
        route: IncrementalRoute,
    ) -> bool {
        if self.progress.line_count == 0 || cursor < self.progress.previous_sequence {
            route matches IncrementalRoute::Verified(scan) && scan.starts(
                self,
                cursor,
                through_sequence,
                false,
                materialized,
            )
        } else if self.progress.previous_sequence >= later(cursor, through_sequence) {
            route is Current
        } else {
            route matches IncrementalRoute::Suffix(scan) && scan.starts(
                self,
                cursor,
                through_sequence,
                materialized,
            )
        }
    }

    /// Begins to read every event after the cursor into memory, from what was
    /// appended where that is enough.
    pub fn read_incremental_after(&self, cursor: u64) -> (route: IncrementalRoute)
        requires
            self.wf(),
        ensures
            self.routed(cursor, u64::MAX, true, route),
    {
        self.begin_incremental(cursor, u64::MAX, true)
    }

    /// Begins to hand out the events after the cursor and up to a sequence, from what
    /// was appended where that is enough.
    pub fn visit_incremental_after(&self, cursor: u64, through_sequence: u64) -> (route:
        IncrementalRoute)
        requires
            self.wf(),
        ensures
            self.routed(cursor, through_sequence, false, route),
    {
        self.begin_incremental(cursor, through_sequence, false)
    }

    fn begin_incremental(&self, cursor: u64, through_sequence: u64, materialized: bool) -> (route:
        IncrementalRoute)
        requires
            self.wf(),
        ensures
            self.routed(cursor, through_sequence, materialized, route),
    {
        if self.progress.line_count == 0 || cursor < self.progress.previous_sequence {
            return IncrementalRoute::Verified(
                self.begin_scan(cursor, through_sequence, false, materialized),
            );
        }
        let target_sequence: u64 = if cursor >= through_sequence {
            cursor
        } else {
            through_sequence
        };
        if self.progress.previous_sequence >= target_sequence {
            return IncrementalRoute::Current;
        }
        IncrementalRoute::Suffix(
            IncrementalScan {
                path: self.path.clone(),
                signature: self.observed_signature.duplicate(),
                cursor,
                through_sequence,
                target_sequence,
                materialized,
                output_bytes: 0,
                observed_event_bytes: self.observed_signature.byte_count as u64,
                discovered_bytes: 0,
                segment_count: self.observed_segment_count,
                segment_bytes: self.observed_current_segment_bytes,
                progress: self.progress,
                records: Ghost(self.records@),
                events: Ghost(Seq::empty()),
            },
        )
    }

    /// Finds which segment was the last one observed among those there are now.
    pub fn prior_final_index(&self, segment_count: usize) -> (result: Result<usize, RuntimeError>)
        ensures
            error::failure(result) == (if segment_count < self.observed_segment_count
                || self.observed_segment_count == 0 {
                error::protocol_failure(self.path@ + " changed outside append-only session semantics"@)
            } else {
                None
            }),
            result matches Ok(index) ==> index == self.observed_segment_count - 1 && index
                < segment_count,
    {
        if segment_count < self.observed_segment_count || self.observed_segment_count == 0 {
            return Err(self.changed_outside_append_only());
        }
        Ok(self.observed_segment_count - 1)
    }

    /// Where reading begins in a segment: after what was observed in it.
    pub fn segment_offset(&self, index: usize) -> (offset: u64)
        ensures
            offset == (if index + 1 == self.observed_segment_count {
                self.observed_current_segment_bytes
            } else {
                0
            }),
    {
        if self.observed_segment_count > 0 && index == self.observed_segment_count - 1 {
            self.observed_current_segment_bytes
        } else {
            0
        }
    }
}

impl IncrementalScan {
    /// What is asked of the scan.
    pub open spec fn request(self) -> ReadRequest {
        ReadRequest {
            path: self.path@,
            expected: None,
            cursor: self.cursor,
            through_sequence: self.through_sequence,
            materialized: self.materialized,
        }
    }

    /// The signature is that of the events observed and read, and what is held is what
    /// reading them comes to.
    pub open spec fn wf(self) -> bool {
        &&& self.signature.holds(event_domain(), self.records@)
        &&& self.records@.len() < usize::MAX
        &&& event_lines(self.events@).is_suffix_of(self.records@)
        &&& read_log(self.request(), self.events@).failure is None
        &&& read_log(self.request(), self.events@).output_bytes == self.output_bytes
    }

    /// The events read stand behind those a reader has observed.
    pub open spec fn extends(self, reader: SessionEventReader) -> bool {
        &&& self.path@ == reader.path@
        &&& reader.records@.is_prefix_of(self.records@)
    }

    /// The scan has seen nothing yet of what it was asked for.
    pub open spec fn starts(
        self,
        reader: SessionEventReader,
        cursor: u64,
        through_sequence: u64,
        materialized: bool,
    ) -> bool {
        &&& self.wf()
        &&& self.records@ == reader.records@
        &&& self.events@ == Seq::<LogEvent>::empty()
        &&& self.path@ == reader.path@
        &&& self.cursor == cursor
        &&& self.through_sequence == through_sequence
        &&& self.target_sequence == later(cursor, through_sequence)
        &&& self.materialized == materialized
        &&& self.output_bytes == 0
        &&& self.observed_event_bytes == reader.observed_signature.byte_count
        &&& self.discovered_bytes == 0
        &&& self.segment_count == reader.observed_segment_count
        &&& self.segment_bytes == reader.observed_current_segment_bytes
        &&& self.progress == reader.progress
    }

    /// The lines behind which the events read stand.
    pub open spec fn base(self) -> Seq<Seq<u8>> {
        self.records@.take(self.records@.len() - self.events@.len())
    }

    /// Only what was discovered and where reading stands differ.
    pub open spec fn keeps(self, other: IncrementalScan) -> bool {
        &&& self.base() == other.base()
        &&& self.path == other.path
        &&& self.cursor == other.cursor
        &&& self.through_sequence == other.through_sequence
        &&& self.target_sequence == other.target_sequence
        &&& self.materialized == other.materialized
        &&& self.observed_event_bytes == other.observed_event_bytes
    }

    /// How many bytes may still be in a segment that is read from an offset.
    pub open spec fn segment_room(offset: u64, limits: EventLogLimits) -> nat {
        if limits.max_segment_bytes >= offset {
            (limits.max_segment_bytes - offset) as nat
        } else {
            0
        }
    }

    /// How many bytes of events there may still be.
    pub open spec fn event_room(self, discovered_bytes: u64, limits: EventLogLimits) -> nat {
        if limits.max_event_bytes >= self.observed_event_bytes + discovered_bytes {
            (limits.max_event_bytes - self.observed_event_bytes - discovered_bytes) as nat
        } else {
            0
        }
    }

    /// How many bytes are asked of a segment: one more than there may be.
    pub fn plan_read(
        &self,
        stored_bytes: u64,
        offset: u64,
        discovered_bytes: u64,
        limits: EventLogLimits,
    ) -> (result: Result<u64, RuntimeError>)
        ensures
            error::failure(result) == (if stored_bytes < offset {
                error::protocol_failure(self.path@ + " changed outside append-only session semantics"@)
            } else {
                None
            }),
            result matches Ok(wanted) ==> {
                let segment = IncrementalScan::segment_room(offset, limits);
                let events = self.event_room(discovered_bytes, limits);
                wanted == saturated_sum(
                    if segment <= events {
                        segment
                    } else {
                        events
                    },
                    1,
                )
            },
    {
        if stored_bytes < offset {
            let message = join2(
                self.path.as_str(),
                " changed outside append-only session semantics",
            );
            return Err(protocol(message.as_str()));
        }
        let segment: u64 = limits.max_segment_bytes.saturating_sub(offset);
        let events: u64 = limits.max_event_bytes.saturating_sub(
            self.observed_event_bytes,
        ).saturating_sub(discovered_bytes);
        let room: u64 = if segment <= events {
            segment
        } else {
            events
        };
        Ok(room.saturating_add(1))
    }

    /// Accepts what was read of a segment.
    pub fn check_read(
        &self,
        read_bytes: u64,
        offset: u64,
        discovered_bytes: u64,
        segment_path: &str,
        limits: EventLogLimits,
    ) -> (result: Result<(), RuntimeError>)
        ensures
            error::failure(result) == (if read_bytes > IncrementalScan::segment_room(offset, limits) {
                error::protocol_failure(
                    segment_path@ + " read size exceeds max "@ + text::decimal(
                        limits.max_segment_bytes as nat,
                    ),
                )
            } else {
                event_bytes_failure(
                    self.path@,
                    saturated_sum(
                        saturated_sum(
                            self.observed_event_bytes as nat,
                            discovered_bytes as nat,
                        ) as nat,
                        read_bytes as nat,
                    ) as nat,
                    limits,
                )
            }),
    {
        if read_bytes > limits.max_segment_bytes.saturating_sub(offset) {
            let maximum = decimal_text(limits.max_segment_bytes);
            let message = join3(segment_path, " read size exceeds max ", maximum.as_str());
            return Err(protocol(message.as_str()));
        }
        let total: u64 = self.observed_event_bytes.saturating_add(discovered_bytes).saturating_add(
            read_bytes,
        );
        if total > limits.max_event_bytes {
            return Err(event_bytes_exceeded(self.path.as_str(), limits));
        }
        Ok(())
    }

    /// Takes account of a segment that another one follows: it ends with a line end.
    pub fn add_prior_segment(&mut self, bytes: &[u8], stored_bytes: u64, segment_path: &str) -> (result:
        Result<(), RuntimeError>)
        requires
            old(self).wf(),
        ensures
            error::failure(result) == (if stored_bytes == 0 || framing::complete_prefix(bytes@) != bytes@.len() {
                error::protocol_failure(segment_path@ + " non-final segment must end with LF"@)
            } else {
                None
            }),
            final(self).wf(),
            final(self).keeps(*old(self)),
            final(self).records == old(self).records,
            final(self).events == old(self).events,
            final(self).progress == old(self).progress,
            final(self).output_bytes == old(self).output_bytes,
            final(self).segment_count == old(self).segment_count,
            final(self).segment_bytes == old(self).segment_bytes,
            final(self).discovered_bytes == saturated_sum(
                old(self).discovered_bytes as nat,
                bytes@.len(),
            ),
    {
        self.discovered_bytes = self.discovered_bytes.saturating_add(bytes.len() as u64);
        if stored_bytes == 0 || complete_jsonl_prefix_len(bytes) != bytes.len() {
            let message = join2(segment_path, " non-final segment must end with LF");
            return Err(protocol(message.as_str()));
        }
        Ok(())
    }

    /// Takes account of the last segment.
    pub fn add_final_segment(&mut self, bytes: &[u8], limits: EventLogLimits) -> (result: Result<
        (),
        RuntimeError,
    >)
        requires
            old(self).wf(),
        ensures
            error::failure(result) == event_bytes_failure(
                old(self).path@,
                saturated_sum(
                    old(self).observed_event_bytes as nat,
                    saturated_sum(old(self).discovered_bytes as nat, bytes@.len()) as nat,
                ) as nat,
                limits,
            ),
            final(self).wf(),
            final(self).keeps(*old(self)),
            final(self).records == old(self).records,
            final(self).events == old(self).events,
            final(self).progress == old(self).progress,
            final(self).output_bytes == old(self).output_bytes,
            final(self).segment_count == old(self).segment_count,
            final(self).segment_bytes == old(self).segment_bytes,
            final(self).discovered_bytes == saturated_sum(
                old(self).discovered_bytes as nat,
                bytes@.len(),
            ),
    {
        self.discovered_bytes = self.discovered_bytes.saturating_add(bytes.len() as u64);
        if self.observed_event_bytes.saturating_add(self.discovered_bytes)
            > limits.max_event_bytes {
            return Err(event_bytes_exceeded(self.path.as_str(), limits));
        }
        Ok(())
    }

    /// Whether the last wanted event has been read.
    pub fn reached(&self) -> (reached: bool)
        ensures
            reached == (self.progress.previous_sequence >= self.target_sequence),
    {
        self.progress.previous_sequence >= self.target_sequence
    }

    /// The next line of a segment, with how many bytes it has, while there is one and
    /// events are still wanted.
    pub fn next_record(&self, bytes: &[u8], consumed: usize) -> (result: Result<
        Option<(String, usize)>,
        RuntimeError,
    >)
        requires
            consumed <= bytes@.len(),
        ensures
            ({
                let rest = bytes@.skip(consumed as int);
                let line = rest.take(framing::first_line(rest) as int);
                let wanted = self.progress.previous_sequence < self.target_sequence && rest.len() > 0;
                &&& error::failure(result) == (if wanted && !valid_utf8(line) {
                    error::protocol_failure(self.path@ + " is not valid UTF-8: "@ + text::utf8_error(line))
                } else {
                    None
                })
                &&& result matches Ok(next) ==> match next {
                    Some((record, length)) => {
                        &&& wanted
                        &&& record@ == decode_utf8(line)
                        &&& 1 <= length
                        &&& length == framing::first_line(rest)
                        &&& length == line.len()
                        &&& consumed + length <= bytes@.len()
                    },
                    None => !wanted,
                }
            }),
    {
        if self.reached() || consumed == bytes.len() {
            return Ok(None);
        }
        let rest = vstd::slice::slice_subrange(bytes, consumed, bytes.len());
        assert(rest@ =~= bytes@.skip(consumed as int));
        let length: usize = line_length(rest);
        let line = vstd::slice::slice_subrange(rest, 0, length);
        assert(line@ =~= rest@.take(length as int));
        match text_from_utf8(line) {
            Ok(record) => Ok(Some((record, length))),
            Err(words) => {
                let message = join3(self.path.as_str(), " is not valid UTF-8: ", words.as_str());
                Err(protocol(message.as_str()))
            },
        }
    }

    /// Takes an event that was checked; says whether it is to be handed out.
    pub fn accept(&mut self, line: &[u8], sequence: u64, progress: EventProgress) -> (result:
        Result<bool, RuntimeError>)
        requires
            old(self).wf(),
            old(self).records@.len() + 1 < usize::MAX,
        ensures
            ({
                let visited = old(self).cursor < sequence <= old(self).through_sequence;
                &&& error::failure(result) == output_failure(
                    old(self).materialized,
                    old(self).output_bytes,
                    visited,
                    line@.len(),
                )
                &&& result is Ok ==> final(self).wf()
                &&& final(self).keeps(*old(self))
                &&& final(self).records@ == old(self).records@.push(line@)
                &&& final(self).events@ == old(self).events@.push(
                    LogEvent { line: line@, sequence },
                )
                &&& final(self).progress == progress
                &&& final(self).output_bytes == output_after(
                    old(self).materialized,
                    old(self).output_bytes,
                    visited,
                    line@.len(),
                )
                &&& final(self).discovered_bytes == old(self).discovered_bytes
                &&& final(self).segment_count == old(self).segment_count
                &&& final(self).segment_bytes == old(self).segment_bytes
                &&& result matches Ok(visit) ==> visit == visited
            }),
    {
        let ghost before = self.records@;
        self.signature.push(line);
        self.records = Ghost(before.push(line@));
        let ghost events = self.events@;
        self.events = Ghost(events.push(LogEvent { line: line@, sequence }));
        self.progress = progress;
        proof {
            assert(self.events@.drop_last() =~= events);
            let lines = event_lines(events);
            assert(event_lines(self.events@) =~= lines.push(line@));
            assert(lines =~= before.skip(before.len() - lines.len()));
            assert(lines.push(line@) =~= self.records@.skip(
                self.records@.len() - lines.len() - 1,
            ));
            assert(self.signature.holds(event_domain(), self.records@));
            assert(self.base() =~= old(self).base());
        }
        let visit = self.cursor < sequence && sequence <= self.through_sequence;
        if visit && self.materialized {
            self.output_bytes = self.output_bytes.saturating_add(line.len());
            ensure_in_memory_replay_output_limit(self.output_bytes)?;
        }
        Ok(visit)
    }

    /// Takes note of how far a segment was read.
    pub fn end_segment(&mut self, index: usize, offset: u64, consumed: usize)
        requires
            old(self).wf(),
            index < usize::MAX,
        ensures
            final(self).wf(),
            final(self).keeps(*old(self)),
            final(self).records == old(self).records,
            final(self).events == old(self).events,
            final(self).progress == old(self).progress,
            final(self).output_bytes == old(self).output_bytes,
            final(self).discovered_bytes == old(self).discovered_bytes,
            final(self).segment_count == index + 1,
            final(self).segment_bytes == saturated_sum(offset as nat, consumed as nat),
    {
        self.segment_count = index + 1;
        self.segment_bytes = offset.saturating_add(consumed as u64);
    }

    /// What is wrong with a suffix that has been read.
    pub open spec fn end_failure(self, has_partial_line: bool, partial: bool) -> Option<ErrorModel> {
        if has_partial_line && self.progress.terminal {
            error::protocol_failure(self.path@ + " contains a partial line after a terminal event"@)
        } else if partial {
            error::protocol_failure(partial_message(self.path@))
        } else {
            cursor_failure(self.path@, self.cursor, self.progress.previous_sequence)
        }
    }
}

impl SessionEventReader {
    /// Ends the reading of a suffix: where nothing is wrong the reader has now
    /// observed it, behind what it had observed; otherwise it stays as it was.
    pub fn finish_incremental(
        &mut self,
        scan: IncrementalScan,
        has_partial_line: bool,
        partial: bool,
    ) -> (result: Result<(), RuntimeError>)
        requires
            old(self).wf(),
            scan.wf(),
            scan.extends(*old(self)),
        ensures
            error::failure(result) == scan.end_failure(has_partial_line, partial),
            result is Err ==> *final(self) == *old(self),
            result is Ok ==> {
                &&& final(self).wf()
                &&& final(self).records@ == scan.records@
                &&& old(self).records@.is_prefix_of(final(self).records@)
                &&& final(self).progress == scan.progress
                &&& final(self).observed_segment_count == scan.segment_count
                &&& final(self).observed_current_segment_bytes == scan.segment_bytes
                &&& final(self).path == old(self).path
                &&& final(self).session_id == old(self).session_id
            },
    {
        if has_partial_line && scan.progress.terminal {
            return Err(self.partial_after_terminal());
        }
        if partial {
            return Err(self.inactive_partial());
        }
        self.ensure_cursor(scan.cursor, scan.progress.previous_sequence)?;
        self.observed_current_segment_bytes = scan.segment_bytes;
        self.observed_segment_count = scan.segment_count;
        self.observed_signature = scan.signature;
        self.progress = scan.progress;
        self.records = Ghost(scan.records@);
        Ok(())
    }
}

/// A suffix that is read stays behind what was observed, event by event.
pub proof fn law_suffix_extends(
    reader: SessionEventReader,
    before: IncrementalScan,
    after: IncrementalScan,
    line: Seq<u8>,
)
    requires
        before.extends(reader),
        after.keeps(before),
        after.records@ == before.records@.push(line),
    ensures
        after.extends(reader),
{
    assert(reader.records@ =~= after.records@.subrange(0, reader.records@.len() as int));
}

/// A log that passes a scan still begins with what was observed before: the events
/// up to the observed count have the observed signature.
pub proof fn law_observed_events_are_confirmed(
    observed: Seq<Seq<u8>>,
    scanned: Seq<Seq<u8>>,
)
    requires
        1 <= observed.len() < usize::MAX,
        confirms(scanned, signature::stream_signature(event_domain(), observed)),
        scanned.len() >= observed.len(),
    ensures
        signature::stream_signature(event_domain(), scanned.take(observed.len() as int)) == signature::stream_signature(
            event_domain(),
            observed,
        ),
{
}

/// What is wrong with a log that no longer begins with what was observed.
pub open spec fn changed_failure(path: Seq<char>) -> Option<ErrorModel> {
    error::protocol_failure(path + " changed outside append-only session semantics"@)
}

proof fn lemma_read_confirms(request: ReadRequest, expected: SignatureModel, events: Seq<LogEvent>)
    requires
        request.expected == Some(expected),
    ensures
        ({
            let failure = read_log(request, events).failure;
            ||| failure is None
            ||| failure == changed_failure(request.path)
            ||| failure == replay_output_failure(usize::MAX as nat)
        }),
        ({
            let count = expected.record_count as int;
            read_log(request, events).failure is None && 1 <= count <= events.len() ==> confirms(
                event_lines(events.take(count)),
                expected,
            )
        }),
    decreases events.len(),
{
    if events.len() > 0 {
        lemma_read_confirms(request, expected, events.drop_last());
        let count = expected.record_count as int;
        if count == events.len() {
            assert(events.take(count) =~= events);
        } else if count < events.len() {
            assert(events.drop_last().take(count) =~= events.take(count));
        }
    }
}

/// A log in which a line that was observed was changed or removed is refused, whatever is
/// asked of it: the read fails, unless more is wanted than may be held or two different
/// texts have the same digest; or the log is found to be too short when it was read.
pub proof fn law_changed_log_is_refused(
    request: ReadRequest,
    observed: Seq<Seq<u8>>,
    events: Seq<LogEvent>,
    scan: VerifiedScan,
    has_partial_line: bool,
    partial: bool,
    empty: bool,
)
    requires
        1 <= observed.len() < usize::MAX,
        request.expected == Some(signature::stream_signature(event_domain(), observed)),
        !observed.is_prefix_of(event_lines(events)),
        forall|i: int| 0 <= i < observed.len() ==> (#[trigger] observed[i]).len() <= u64::MAX,
        forall|i: int| 0 <= i < events.len() ==> (#[trigger] events[i]).line.len() <= u64::MAX,
        scan.wf(),
        scan.request() == request,
        read_log(request, events).failure is None ==> scan.events@ == events,
    ensures
        ({
            let lines = event_lines(events).take(observed.len() as int);
            ||| read_log(request, events).failure == changed_failure(request.path)
            ||| read_log(request, events).failure == replay_output_failure(usize::MAX as nat)
            ||| scan.end_failure(has_partial_line, partial, empty) == changed_failure(request.path)
            ||| observed.len() <= events.len() && signature::digests_collide(
                signature::stream_material(event_domain(), observed),
                signature::stream_material(event_domain(), lines),
            )
        }),
{
    let expected = signature::stream_signature(event_domain(), observed);
    let count = observed.len() as int;
    lemma_read_confirms(request, expected, events);
    if read_log(request, events).failure is None && count <= events.len() {
        let lines = event_lines(events).take(count);
        assert(event_lines(events.take(count)) =~= lines);
        assert(lines.take(count) =~= lines);
        if lines == observed {
            assert(observed =~= event_lines(events).subrange(0, count));
            assert(observed.is_prefix_of(event_lines(events)));
        }
        assert forall|i: int| 0 <= i < lines.len() implies (#[trigger] lines[i]).len()
            <= u64::MAX by {
            assert(events[i].line.len() <= u64::MAX);
        }
        signature::law_changed_records_change_the_signature(event_domain(), observed, lines);
    }
}

/// A read of a log that still begins with what was observed gives exactly the events
/// behind the cursor and up to the last one wanted, in order: it is refused only where
/// they are held in memory and are more than may be held.
pub proof fn law_read_gives_what_lies_behind_the_cursor(
    request: ReadRequest,
    observed: Seq<Seq<u8>>,
    events: Seq<LogEvent>,
)
    requires
        observed.len() < usize::MAX,
        request.expected matches Some(expected) ==> {
            &&& observed.is_prefix_of(event_lines(events))
            &&& expected == signature::stream_signature(event_domain(), observed)
        },
    ensures
        ({
            let wanted = wanted_events(events, request.cursor, request.through_sequence);
            let read = read_log(request, events);
            if request.materialized && held_bytes(wanted) > MAX_IN_MEMORY_REPLAY_OUTPUT_BYTES {
                read.failure == replay_output_failure(held_bytes(wanted))
            } else {
                read.failure is None && read.handed == wanted
            }
        }),
{
    lemma_read_log(request, observed, events, events.len() as int);
    assert(events.take(events.len() as int) =~= events);
}

proof fn lemma_read_log(
    request: ReadRequest,
    observed: Seq<Seq<u8>>,
    events: Seq<LogEvent>,
    count: int,
)
    requires
        observed.len() < usize::MAX,
        request.expected matches Some(expected) ==> {
            &&& observed.is_prefix_of(event_lines(events))
            &&& expected == signature::stream_signature(event_domain(), observed)
        },
        0 <= count <= events.len(),
    ensures
        ({
            let some = events.take(count);
            let wanted = wanted_events(some, request.cursor, request.through_sequence);
            let read = read_log(request, some);
            if request.materialized && held_bytes(wanted) > MAX_IN_MEMORY_REPLAY_OUTPUT_BYTES {
                read.failure == replay_output_failure(held_bytes(wanted))
            } else {
                &&& read.failure is None
                &&& read.handed == wanted
                &&& read.output_bytes == (if request.materialized {
                    held_bytes(wanted)
                } else {
                    0
                })
            }
        }),
    decreases count,
{
    reveal(Seq::filter);
    let some = events.take(count);
    if count > 0 {
        let before = events.take(count - 1);
        lemma_read_log(request, observed, events, count - 1);
        assert(some.drop_last() =~= before);
        let event = some.last();
        let wanted = wanted_events(before, request.cursor, request.through_sequence);
        if request.cursor < event.sequence <= request.through_sequence {
            assert(wanted.push(event).drop_last() =~= wanted);
        }
        if request.expected is Some && observed.len() <= count {
            assert(event_lines(some).take(observed.len() as int) =~= observed);
        }
    }
}

/// Reading is safe to repeat: a log that was read from a cursor gives the same events
/// once more, when the reader holds it to all that it has observed by then.
pub proof fn law_reads_repeat(
    first: ReadRequest,
    second: ReadRequest,
    observed: Seq<Seq<u8>>,
    events: Seq<LogEvent>,
)
    requires
        events.len() < usize::MAX,
        observed.is_prefix_of(event_lines(events)),
        first.expected == Some(signature::stream_signature(event_domain(), observed)),
        second == (ReadRequest {
            expected: Some(signature::stream_signature(event_domain(), event_lines(events))),
            ..first
        }),
        read_log(first, events).failure is None,
    ensures
        read_log(second, events).failure is None,
        read_log(second, events).handed == read_log(first, events).handed,
        read_log(second, events).handed == wanted_events(
            events,
            first.cursor,
            first.through_sequence,
        ),
{
    assert(event_lines(events).is_prefix_of(event_lines(events)));
    law_read_gives_what_lies_behind_the_cursor(first, observed, events);
    law_read_gives_what_lies_behind_the_cursor(second, event_lines(events), events);
}

/// Reading on loses nothing and repeats nothing: the events that a log held, read from a
/// cursor, and those appended since, read from the last of them, are together what one
/// read of the whole log gives.
pub proof fn law_incremental_reads_join(
    before: Seq<LogEvent>,
    appended: Seq<LogEvent>,
    cursor: u64,
    latest: u64,
    through_sequence: u64,
)
    requires
        cursor <= latest <= through_sequence,
        forall|i: int| 0 <= i < before.len() ==> (#[trigger] before[i]).sequence <= latest,
        forall|i: int| 0 <= i < appended.len() ==> (#[trigger] appended[i]).sequence > latest,
    ensures
        wanted_events(before + appended, cursor, through_sequence) == wanted_events(
            before,
            cursor,
            latest,
        ) + wanted_events(appended, latest, through_sequence),
    decreases appended.len(),
{
    reveal(Seq::filter);
    if appended.len() == 0 {
        assert(before + appended =~= before);
        lemma_same_events_wanted(before, cursor, latest, through_sequence);
        assert(wanted_events(before, cursor, latest) + wanted_events(appended, latest, through_sequence)
            =~= wanted_events(before, cursor, latest));
    } else {
        law_incremental_reads_join(before, appended.drop_last(), cursor, latest, through_sequence);
        assert((before + appended).drop_last() =~= before + appended.drop_last());
        assert((before + appended).last() == appended.last());
        assert(wanted_events(before + appended, cursor, through_sequence) =~= wanted_events(
            before,
            cursor,
            latest,
        ) + wanted_events(appended, latest, through_sequence));
    }
}

proof fn lemma_same_events_wanted(
    events: Seq<LogEvent>,
    cursor: u64,
    latest: u64,
    through_sequence: u64,
)
    requires
        latest <= through_sequence,
        forall|i: int| 0 <= i < events.len() ==> (#[trigger] events[i]).sequence <= latest,
    ensures
        wanted_events(events, cursor, through_sequence) == wanted_events(events, cursor, latest),
    decreases events.len(),
{
    reveal(Seq::filter);
    if events.len() > 0 {
        lemma_same_events_wanted(events.drop_last(), cursor, latest, through_sequence);
        assert(events.last() == events[events.len() - 1]);
    }
}

/// The sequences of a log rise, and the first is no zero.
pub open spec fn rising(log: Seq<LogEvent>) -> bool {
    &&& forall|i: int| 0 <= i < log.len() ==> (#[trigger] log[i]).sequence > 0
    &&& forall|i: int, j: int|
        #![trigger log[i], log[j]]
        0 <= i < j < log.len() ==> log[i].sequence < log[j].sequence
}

/// The last sequence of some events, and zero where there are none.
pub open spec fn last_sequence(events: Seq<LogEvent>) -> u64 {
    if events.len() == 0 {
        0
    } else {
        events.last().sequence
    }
}

/// Whether a reader has observed the first events of a log, so many of them.
pub open spec fn has_observed(reader: SessionEventReader, log: Seq<LogEvent>, known: int) -> bool {
    &&& reader.wf()
    &&& 0 <= known <= log.len()
    &&& reader.records@ == event_lines(log.take(known))
    &&& reader.progress.line_count == known
    &&& reader.progress.previous_sequence == last_sequence(log.take(known))
}

/// Whether what was begun on a route has read a log to its end, or up to the last event
/// wanted. What was observed of the log before is not read again on the route that takes
/// only what was appended.
pub open spec fn route_ends(
    start: IncrementalRoute,
    end: IncrementalRoute,
    log: Seq<LogEvent>,
    known: int,
) -> bool {
    match (start, end) {
        (IncrementalRoute::Verified(first), IncrementalRoute::Verified(scan)) => {
            &&& scan.wf()
            &&& scan.keeps(first)
            &&& scan.events@ == log
        },
        (IncrementalRoute::Current, IncrementalRoute::Current) => true,
        (IncrementalRoute::Suffix(first), IncrementalRoute::Suffix(scan)) => {
            let read = known + scan.events@.len();
            &&& scan.wf()
            &&& scan.keeps(first)
            &&& read <= log.len()
            &&& scan.events@ == log.subrange(known, read)
            &&& read < log.len() ==> last_sequence(log.take(read)) >= scan.target_sequence
        },
        _ => false,
    }
}

/// The events that were handed out on a route.
pub open spec fn handed_out(end: IncrementalRoute) -> Seq<LogEvent> {
    match end {
        IncrementalRoute::Verified(scan) => read_log(scan.request(), scan.events@).handed,
        IncrementalRoute::Current => Seq::empty(),
        IncrementalRoute::Suffix(scan) => read_log(scan.request(), scan.events@).handed,
    }
}

proof fn lemma_none_wanted(events: Seq<LogEvent>, cursor: u64, through_sequence: u64)
    requires
        forall|i: int|
            0 <= i < events.len() ==> !(cursor < (#[trigger] events[i]).sequence
                <= through_sequence),
    ensures
        wanted_events(events, cursor, through_sequence) == Seq::<LogEvent>::empty(),
    decreases events.len(),
{
    reveal(Seq::filter);
    if events.len() > 0 {
        let rest = events.drop_last();
        assert forall|i: int| 0 <= i < rest.len() implies !(cursor < (#[trigger] rest[i]).sequence
            <= through_sequence) by {
            assert(rest[i] == events[i]);
        }
        lemma_none_wanted(rest, cursor, through_sequence);
        assert(events.last() == events[events.len() - 1]);
    }
}

proof fn lemma_wanted_of_parts(
    left: Seq<LogEvent>,
    right: Seq<LogEvent>,
    cursor: u64,
    through_sequence: u64,
)
    ensures
        wanted_events(left + right, cursor, through_sequence) == wanted_events(
            left,
            cursor,
            through_sequence,
        ) + wanted_events(right, cursor, through_sequence),
    decreases right.len(),
{
    reveal(Seq::filter);
    if right.len() == 0 {
        assert(left + right =~= left);
        assert(wanted_events(left, cursor, through_sequence) + wanted_events(
            right,
            cursor,
            through_sequence,
        ) =~= wanted_events(left, cursor, through_sequence));
    } else {
        lemma_wanted_of_parts(left, right.drop_last(), cursor, through_sequence);
        assert((left + right).drop_last() =~= left + right.drop_last());
        assert((left + right).last() == right.last());
        assert(wanted_events(left + right, cursor, through_sequence) =~= wanted_events(
            left,
            cursor,
            through_sequence,
        ) + wanted_events(right, cursor, through_sequence));
    }
}

proof fn lemma_wanted_between(
    log: Seq<LogEvent>,
    known: int,
    read: int,
    cursor: u64,
    through_sequence: u64,
)
    requires
        rising(log),
        0 <= known <= read <= log.len(),
        last_sequence(log.take(known)) <= cursor,
        read < log.len() ==> last_sequence(log.take(read)) >= later(cursor, through_sequence),
    ensures
        wanted_events(log, cursor, through_sequence) == wanted_events(
            log.subrange(known, read),
            cursor,
            through_sequence,
        ),
{
    let (head, middle, tail) = (log.take(known), log.subrange(known, read), log.skip(read));
    assert(log =~= (head + middle) + tail);
    lemma_wanted_of_parts(head + middle, tail, cursor, through_sequence);
    lemma_wanted_of_parts(head, middle, cursor, through_sequence);
    assert forall|i: int| 0 <= i < head.len() implies !(cursor < (#[trigger] head[i]).sequence
        <= through_sequence) by {
        assert(head[i] == log[i] && head.last() == log[known - 1]);
    }
    lemma_none_wanted(head, cursor, through_sequence);
    assert forall|i: int| 0 <= i < tail.len() implies !(cursor < (#[trigger] tail[i]).sequence
        <= through_sequence) by {
        assert(tail[i] == log[read + i]);
        if read > 0 {
            assert(log.take(read).last() == log[read - 1]);
        }
    }
    lemma_none_wanted(tail, cursor, through_sequence);
    let wanted = wanted_events(middle, cursor, through_sequence);
    assert((Seq::<LogEvent>::empty() + wanted) + Seq::<LogEvent>::empty() =~= wanted);
}

/// On each of its routes a visit from a cursor hands out exactly the events of the log
/// behind the cursor and up to the last one wanted, in order and each once: those that a
/// visit of the whole log by a fresh reader hands out.
pub proof fn law_incremental_visit_is_a_whole_visit(
    reader: SessionEventReader,
    cursor: u64,
    through_sequence: u64,
    materialized: bool,
    start: IncrementalRoute,
    end: IncrementalRoute,
    log: Seq<LogEvent>,
    known: int,
    whole: VerifiedScan,
)
    requires
        rising(log),
        has_observed(reader, log, known),
        reader.routed(cursor, through_sequence, materialized, start),
        route_ends(start, end, log, known),
        whole.wf(),
        whole.expected@.record_count == 0,
        whole.cursor == cursor,
        whole.through_sequence == through_sequence,
        whole.events@ == log,
    ensures
        handed_out(end) == wanted_events(log, cursor, through_sequence),
        read_log(whole.request(), log).handed == handed_out(end),
{
    lemma_handed_out(reader, cursor, through_sequence, materialized, start, end, log, known);
    let plain = ReadRequest { expected: None, ..whole.request() };
    lemma_nothing_expected(whole.request(), plain, log);
    law_read_gives_what_lies_behind_the_cursor(plain, Seq::empty(), log);
}

proof fn lemma_nothing_expected(request: ReadRequest, plain: ReadRequest, events: Seq<LogEvent>)
    requires
        request.expected matches Some(expected) && expected.record_count == 0,
        plain == (ReadRequest { expected: None, ..request }),
    ensures
        read_log(request, events) == read_log(plain, events),
    decreases events.len(),
{
    if events.len() > 0 {
        lemma_nothing_expected(request, plain, events.drop_last());
    }
}

proof fn lemma_handed_out(
    reader: SessionEventReader,
    cursor: u64,
    through_sequence: u64,
    materialized: bool,
    start: IncrementalRoute,
    end: IncrementalRoute,
    log: Seq<LogEvent>,
    known: int,
)
    requires
        rising(log),
        has_observed(reader, log, known),
        reader.routed(cursor, through_sequence, materialized, start),
        route_ends(start, end, log, known),
    ensures
        handed_out(end) == wanted_events(log, cursor, through_sequence),
{
    match end {
        IncrementalRoute::Verified(scan) => {
            let observed = reader.records@;
            assert(observed =~= event_lines(log).subrange(0, known));
            law_read_gives_what_lies_behind_the_cursor(scan.request(), observed, log);
        },
        IncrementalRoute::Current => {
            assert forall|i: int| 0 <= i < log.len() implies !(cursor < (#[trigger] log[i]).sequence
                <= through_sequence) by {}
            lemma_none_wanted(log, cursor, through_sequence);
        },
        IncrementalRoute::Suffix(scan) => {
            let read = known + scan.events@.len();
            lemma_wanted_between(log, known, read, cursor, through_sequence);
            law_read_gives_what_lies_behind_the_cursor(
                scan.request(),
                Seq::empty(),
                log.subrange(known, read),
            );
        },
    }
}

/// How many events of a log a reader has observed when what was begun on a route has ended.
pub open spec fn observed_at_end(end: IncrementalRoute, known: int) -> int {
    match end {
        IncrementalRoute::Verified(scan) => scan.events@.len() as int,
        IncrementalRoute::Current => known,
        IncrementalRoute::Suffix(scan) => known + scan.events@.len(),
    }
}

/// A reader that takes over what a route has come to has observed the log as far as it was
/// read: all of it, or up to the last event wanted.
pub proof fn law_reader_observes_what_it_reads(
    reader: SessionEventReader,
    cursor: u64,
    through_sequence: u64,
    materialized: bool,
    start: IncrementalRoute,
    end: IncrementalRoute,
    log: Seq<LogEvent>,
    known: int,
    after: SessionEventReader,
)
    requires
        has_observed(reader, log, known),
        reader.routed(cursor, through_sequence, materialized, start),
        route_ends(start, end, log, known),
        after.wf(),
        match end {
            IncrementalRoute::Verified(scan) => after.records@ == scan.records@ && after.progress
                == scan.progress,
            IncrementalRoute::Current => after == reader,
            IncrementalRoute::Suffix(scan) => after.records@ == scan.records@ && after.progress
                == scan.progress,
        },
        after.progress.line_count == after.records@.len(),
        after.progress.previous_sequence == last_sequence(log.take(observed_at_end(end, known))),
    ensures
        has_observed(after, log, observed_at_end(end, known)),
        known <= observed_at_end(end, known) <= log.len(),
{
    match end {
        IncrementalRoute::Verified(scan) => {
            assert(log.take(log.len() as int) =~= log);
        },
        IncrementalRoute::Current => {},
        IncrementalRoute::Suffix(scan) => {
            let read = known + scan.events@.len();
            let lines = event_lines(scan.events@);
            assert(reader.records@.take(reader.records@.len() as int) =~= reader.records@);
            assert(scan.base() == reader.records@);
            assert(scan.records@ =~= scan.base() + lines);
            assert(event_lines(log.take(read)) =~= event_lines(log.take(known)) + lines);
        },
    }
}

/// One of several reads of a log that grows, each from the last sequence returned before.
pub struct IncrementalCall {
    pub reader: SessionEventReader,
    pub start: IncrementalRoute,
    pub end: IncrementalRoute,
    /// How many events the log had.
    pub length: int,
}

/// What several reads returned, one behind the other.
pub open spec fn returned(calls: Seq<IncrementalCall>) -> Seq<LogEvent>
    decreases calls.len(),
{
    if calls.len() == 0 {
        Seq::empty()
    } else {
        returned(calls.drop_last()) + handed_out(calls.last().end)
    }
}

/// How much of a log was there at the last of several reads.
pub open spec fn length_read(calls: Seq<IncrementalCall>) -> int {
    if calls.len() == 0 {
        0
    } else {
        calls.last().length
    }
}

/// Whether several reads of one reader follow one another on a log that only grows: the
/// first by a reader that has observed nothing, and each from the last sequence returned.
pub open spec fn calls_follow(calls: Seq<IncrementalCall>, log: Seq<LogEvent>) -> bool
    decreases calls.len(),
{
    calls.len() == 0 || {
        let before = calls.drop_last();
        let call = calls.last();
        let there = log.take(call.length);
        &&& calls_follow(before, log)
        &&& length_read(before) <= call.length <= log.len()
        &&& has_observed(call.reader, there, length_read(before))
        &&& call.reader.routed(last_sequence(returned(before)), u64::MAX, true, call.start)
        &&& route_ends(call.start, call.end, there, length_read(before))
    }
}

/// However often a log is read on while it grows, each time from the last sequence
/// returned, nothing is lost, nothing comes twice and the order is kept: what was returned
/// is together what one read of the log from its beginning returns.
pub proof fn law_incremental_reads_are_one_read(calls: Seq<IncrementalCall>, log: Seq<LogEvent>)
    requires
        rising(log),
        calls_follow(calls, log),
    ensures
        0 <= length_read(calls) <= log.len(),
        returned(calls) == log.take(length_read(calls)),
        returned(calls) == wanted_events(log.take(length_read(calls)), 0, u64::MAX),
    decreases calls.len(),
{
    if calls.len() > 0 {
        let before = calls.drop_last();
        let call = calls.last();
        law_incremental_reads_are_one_read(before, log);
        lemma_read_on(call, length_read(before), log);
    } else {
        assert(returned(calls) =~= log.take(0));
    }
    lemma_whole_log_wanted(log, length_read(calls));
}

proof fn lemma_whole_log_wanted(log: Seq<LogEvent>, length: int)
    requires
        rising(log),
        0 <= length <= log.len(),
    ensures
        wanted_events(log.take(length), 0, u64::MAX) == log.take(length),
{
    let there = log.take(length);
    assert forall|i: int| 0 <= i < there.len() implies 0 < (#[trigger] there[i]).sequence
        <= u64::MAX by {
        assert(there[i] == log[i]);
    }
    lemma_all_wanted(there, 0, u64::MAX);
}

proof fn lemma_read_on(call: IncrementalCall, known: int, log: Seq<LogEvent>)
    requires
        rising(log),
        0 <= known <= call.length <= log.len(),
        has_observed(call.reader, log.take(call.length), known),
        call.reader.routed(last_sequence(log.take(known)), u64::MAX, true, call.start),
        route_ends(call.start, call.end, log.take(call.length), known),
    ensures
        log.take(known) + handed_out(call.end) == log.take(call.length),
{
    let there = log.take(call.length);
    let cursor = last_sequence(log.take(known));
    assert(there.take(known) =~= log.take(known));
    assert(rising(there)) by {
        assert forall|i: int, j: int|
            #![trigger there[i], there[j]]
            0 <= i < j < there.len() implies there[i].sequence < there[j].sequence by {
            assert(there[i] == log[i] && there[j] == log[j]);
        }
        assert forall|i: int| 0 <= i < there.len() implies (#[trigger] there[i]).sequence > 0 by {
            assert(there[i] == log[i]);
        }
    }
    lemma_handed_out(call.reader, cursor, u64::MAX, true, call.start, call.end, there, known);
    lemma_wanted_between(there, known, there.len() as int, cursor, u64::MAX);
    let appended = there.subrange(known, there.len() as int);
    assert forall|i: int| 0 <= i < appended.len() implies cursor < (#[trigger] appended[i]).sequence
        <= u64::MAX by {
        assert(appended[i] == log[known + i]);
        if known > 0 {
            assert(log.take(known).last() == log[known - 1]);
        }
    }
    lemma_all_wanted(appended, cursor, u64::MAX);
    assert(log.take(known) + appended =~= there);
}

proof fn lemma_all_wanted(events: Seq<LogEvent>, cursor: u64, through_sequence: u64)
    requires
        forall|i: int|
            0 <= i < events.len() ==> cursor < (#[trigger] events[i]).sequence <= through_sequence,
    ensures
        wanted_events(events, cursor, through_sequence) == events,
    decreases events.len(),
{
    reveal(Seq::filter);
    if events.len() > 0 {
        let rest = events.drop_last();
        assert forall|i: int| 0 <= i < rest.len() implies cursor < (#[trigger] rest[i]).sequence
            <= through_sequence by {
            assert(rest[i] == events[i]);
        }
        lemma_all_wanted(rest, cursor, through_sequence);
        assert(events.last() == events[events.len() - 1]);
        assert(rest.push(events.last()) =~= events);
    } else {
        assert(wanted_events(events, cursor, through_sequence) =~= events);
    }
}

/// What a read wants is told event by event: exactly those behind the cursor and not behind
/// the last sequence asked for, in the order of the log.
pub proof fn law_wanted_events_lie_between(
    events: Seq<LogEvent>,
    event: LogEvent,
    cursor: u64,
    through_sequence: u64,
)
    ensures
        wanted_events(events.push(event), cursor, through_sequence) == wanted_events(
            events,
            cursor,
            through_sequence,
        ) + (if cursor < event.sequence && event.sequence <= through_sequence {
            seq![event]
        } else {
            Seq::empty()
        }),
        wanted_events(Seq::empty(), cursor, through_sequence).len() == 0,
{
    reveal(Seq::filter);
    assert(events.push(event).drop_last() =~= events);
    assert(wanted_events(events.push(event), cursor, through_sequence) =~= wanted_events(
        events,
        cursor,
        through_sequence,
    ) + (if cursor < event.sequence && event.sequence <= through_sequence {
        seq![event]
    } else {
        Seq::empty()
    }));
}

/// The bytes of events are the sum of those of their lines.
pub proof fn law_held_bytes_are_summed(events: Seq<LogEvent>, event: LogEvent)
    ensures
        held_bytes(events.push(event)) == held_bytes(events) + event.line.len(),
        held_bytes(Seq::empty()) == 0,
{
    assert(events.push(event).drop_last() =~= events);
}

/// The log of a run is that of its conversation; only where the conversation is missing and
/// has the name of the run it is the flat log.
pub proof fn law_where_the_log_of_a_run_lies(
    conversation_id: Seq<char>,
    run_session_id: Seq<char>,
    search: RunLogSearch,
)
    ensures
        search.conversation is Ok ==> (run_log_failure(conversation_id, run_session_id, search)
            is None <==> search.runs is Ok && search.run is Ok && search.run_log.found is Ok),
        search.conversation is Err && is_missing(search.conversation) && conversation_id
            == run_session_id ==> (run_log_failure(conversation_id, run_session_id, search) is None
            <==> search.flat_log.found is Ok),
        search.conversation is Err && (!is_missing(search.conversation) || conversation_id
            != run_session_id) ==> run_log_failure(conversation_id, run_session_id, search)
            == Some(search.conversation->Err_0@),
{
}

/// A log that nothing writes to must be whole, unless it may be read later: neither may its
/// last line be incomplete nor may it be empty when it was looked at twice.
pub proof fn law_unwritten_log_is_whole(
    path: Seq<char>,
    partial: bool,
    empty: bool,
    retried: bool,
    deferred: bool,
    cursor: u64,
    latest_sequence: u64,
)
    ensures
        inactive_failure(path, partial, empty, retried, deferred) is None <==> !retried || deferred
            || !partial && !empty,
        cursor_failure(path, cursor, latest_sequence) is None <==> cursor <= latest_sequence,
{
}

} // verus!
