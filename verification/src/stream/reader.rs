//! Reading a stream segment by segment, in quanta of bounded size.

use crate::contract::{MAX_CONVERSATION_IO_BUFFER_BYTES, MAX_CONVERSATION_RECORD_BYTES, MAX_CONVERSATION_SCAN_BYTES, MAX_CONVERSATION_SCAN_RECORDS};
use crate::error::{protocol, ErrorModel, IoKind, RuntimeError};
use crate::error;
use crate::stream::framing::{ConversationScanQuantum, LineAssembly, CARRIAGE_RETURN, LINE_FEED};
use crate::stream::framing;
use crate::text::{append_text, decimal_text, join2, join3, same_text, text_from_utf8};
use crate::text;
use vstd::prelude::*;
use vstd::utf8::*;

verus! {

/// Accepts a read of a conversation file that asks for no more bytes than may be asked
/// for at once.
pub fn admit_read_request(bytes: usize, path: &str) -> (result: Result<(), RuntimeError>)
    ensures
        error::failure(result) == (if bytes > MAX_CONVERSATION_IO_BUFFER_BYTES {
            Some(
                ErrorModel::Io {
                    path: path@,
                    kind: IoKind::InvalidInput,
                    message: "conversation read request exceeds its buffer limit"@,
                },
            )
        } else {
            None
        }),
{
    if bytes > MAX_CONVERSATION_IO_BUFFER_BYTES {
        return Err(
            RuntimeError::Io {
                path: path.to_owned(),
                kind: IoKind::InvalidInput,
                message: "conversation read request exceeds its buffer limit".to_owned(),
            },
        );
    }
    Ok(())
}

/// What is wrong with the size of a segment.
pub open spec fn segment_failure(path: Seq<char>, stored_bytes: u64, maximum_bytes: u64) -> Option<
    ErrorModel,
> {
    if stored_bytes > maximum_bytes {
        error::protocol_failure(
            path + " read size "@ + text::decimal(stored_bytes as nat) + " bytes exceeds max "@
                + text::decimal(maximum_bytes as nat),
        )
    } else {
        None
    }
}

/// Accepts a segment that is no larger than may be.
pub fn admit_segment(path: &str, stored_bytes: u64, maximum_bytes: u64) -> (result: Result<
    (),
    RuntimeError,
>)
    ensures
        error::failure(result) == segment_failure(path@, stored_bytes, maximum_bytes),
{
    if stored_bytes > maximum_bytes {
        let stored = decimal_text(stored_bytes);
        let maximum = decimal_text(maximum_bytes);
        let mut message = join3(path, " read size ", stored.as_str());
        append_text(&mut message, " bytes exceeds max ");
        append_text(&mut message, maximum.as_str());
        return Err(protocol(message.as_str()));
    }
    Ok(())
}

/// How a segment ends.
#[derive(Clone, Copy, Debug, PartialEq, Eq, Structural)]
pub struct SegmentEnd {
    pub has_partial_line: bool,
    pub is_empty: bool,
}

/// Says how a segment ends, by its last byte.
pub fn segment_end(last: Option<u8>) -> (end: SegmentEnd)
    ensures
        end.is_empty == (last is None),
        end.has_partial_line == (last matches Some(byte) && byte != LINE_FEED),
{
    match last {
        None => SegmentEnd { has_partial_line: false, is_empty: true },
        Some(byte) => SegmentEnd { has_partial_line: byte != LINE_FEED, is_empty: false },
    }
}

/// A scan of one segment.
pub struct SegmentScan {
    pub path: String,
    pub stored_bytes: u64,
    pub consumed: u64,
    pub assembly: LineAssembly,
}

impl SegmentScan {
    /// The line that is being put together lies within what has been read.
    pub open spec fn wf(self) -> bool {
        &&& self.assembly.wf()
        &&& self.assembly.maximum < usize::MAX
        &&& self.assembly.line@.len() <= self.consumed || self.consumed == u64::MAX
    }

    /// Begins a scan; a segment that is not the last must end with a line end.
    pub fn scan(
        path: &str,
        stored_bytes: u64,
        end: SegmentEnd,
        maximum_record_bytes: usize,
        require_trailing_lf: bool,
    ) -> (result: Result<SegmentScan, RuntimeError>)
        requires
            maximum_record_bytes < usize::MAX,
        ensures
            error::failure(result) == (if require_trailing_lf && (end.is_empty || end.has_partial_line) {
                error::protocol_failure(path@ + " non-final segment must end with LF"@)
            } else {
                None
            }),
            result matches Ok(scan) ==> scan.wf() && scan.path@ == path@ && scan.stored_bytes
                == stored_bytes && scan.consumed == 0 && scan.assembly.line@.len() == 0
                && scan.assembly.maximum == maximum_record_bytes,
    {
        if require_trailing_lf && (end.is_empty || end.has_partial_line) {
            let message = join2(path, " non-final segment must end with LF");
            return Err(protocol(message.as_str()));
        }
        Ok(
            SegmentScan {
                path: path.to_owned(),
                stored_bytes,
                consumed: 0,
                assembly: LineAssembly::new(maximum_record_bytes),
            },
        )
    }

    /// Takes what the source has available. Gives how many bytes were taken, and the
    /// text of the record where one is complete.
    pub fn take(&mut self, available: &[u8], quantum: &mut ConversationScanQuantum) -> (result:
        Result<(usize, Option<String>), RuntimeError>)
        requires
            old(self).wf(),
            old(quantum).wf(),
        ensures
            final(quantum).wf(),
            final(self).path == old(self).path,
            final(self).stored_bytes == old(self).stored_bytes,
            ({
                let length = framing::first_line(available@);
                let line = old(self).assembly.line@ + available@.take(length as int);
                let complete = length > 0 && available@[length - 1] == LINE_FEED;
                &&& error::failure(result) == (if line.len() > old(self).assembly.maximum + 1 {
                    error::protocol_failure(old(self).path@ + " record exceeds its byte limit"@)
                } else if !complete {
                    None
                } else if line.len() > MAX_CONVERSATION_SCAN_BYTES {
                    error::protocol_failure("conversation record exceeds one scan quantum"@)
                } else if !valid_utf8(line) {
                    error::protocol_failure(
                        old(self).path@ + " is not valid UTF-8: "@ + text::utf8_error(line),
                    )
                } else {
                    None
                })
                &&& result matches Ok(taken) ==> {
                    &&& final(self).wf()
                    &&& final(self).assembly.maximum == old(self).assembly.maximum
                    &&& taken.0 == length
                    &&& final(self).consumed == (if old(self).consumed + length > u64::MAX {
                        u64::MAX
                    } else {
                        (old(self).consumed + length) as u64
                    })
                    &&& if complete {
                        &&& taken.1 is Some
                        &&& taken.1->0@ == decode_utf8(line)
                        &&& final(self).assembly.line@.len() == 0
                        &&& *final(quantum) == old(quantum).after(line.len())
                    } else {
                        &&& taken.1 is None
                        &&& final(self).assembly.line@ == line
                        &&& *final(quantum) == *old(quantum)
                    }
                }
            }),
    {
        proof {
            framing::lemma_first_line_bounds(available@);
        }
        let exceeded = join2(self.path.as_str(), " record exceeds its byte limit");
        let (taken, line) = self.assembly.take(available, exceeded.as_str())?;
        assert(available@.take(taken as int).len() == taken);
        self.consumed = self.consumed.saturating_add(taken as u64);
        match line {
            None => Ok((taken, None)),
            Some(line) => {
                quantum.admit_record(line.len())?;
                match text_from_utf8(line.as_slice()) {
                    Ok(text) => Ok((taken, Some(text))),
                    Err(words) => {
                        let message = join3(
                            self.path.as_str(),
                            " is not valid UTF-8: ",
                            words.as_str(),
                        );
                        Err(protocol(message.as_str()))
                    },
                }
            },
        }
    }

    /// Ends a scan: gives how many bytes belong to complete lines.
    pub fn finish(&self) -> (result: Result<u64, RuntimeError>)
        requires
            self.wf(),
        ensures
            error::failure(result) == (if self.consumed != self.stored_bytes {
                error::protocol_failure(self.path@ + " changed while it was scanned"@)
            } else {
                None
            }),
            result matches Ok(complete) ==> complete == (if self.assembly.line@.len()
                > self.consumed {
                0
            } else {
                self.consumed - self.assembly.line@.len()
            }),
    {
        if self.consumed != self.stored_bytes {
            let message = join2(self.path.as_str(), " changed while it was scanned");
            return Err(protocol(message.as_str()));
        }
        Ok(self.consumed.saturating_sub(self.assembly.line.len() as u64))
    }
}

/// What is wrong with what is stored of a segment.
pub open spec fn snapshot_failure(
    path: Seq<char>,
    stored_bytes: u64,
    non_final: bool,
    byte_offset: u64,
    prior_snapshot_bytes: u64,
) -> Option<ErrorModel> {
    if non_final && stored_bytes == 0 {
        error::protocol_failure(path + " non-final segment must not be empty"@)
    } else if byte_offset > stored_bytes || prior_snapshot_bytes > stored_bytes {
        error::protocol_failure(path + " changed while it was scanned"@)
    } else {
        None
    }
}

/// Accepts a segment that has not become shorter since it was last looked at.
pub fn validate_jsonl_segment_snapshot(
    path: &str,
    stored_bytes: u64,
    non_final: bool,
    byte_offset: u64,
    prior_snapshot_bytes: u64,
) -> (result: Result<(), RuntimeError>)
    ensures
        error::failure(result) == snapshot_failure(
            path@,
            stored_bytes,
            non_final,
            byte_offset,
            prior_snapshot_bytes,
        ),
{
    if non_final && stored_bytes == 0 {
        let message = join2(path, " non-final segment must not be empty");
        return Err(protocol(message.as_str()));
    }
    if byte_offset > stored_bytes || prior_snapshot_bytes > stored_bytes {
        let message = join2(path, " changed while it was scanned");
        return Err(protocol(message.as_str()));
    }
    Ok(())
}

/// Where reading a stream goes on.
#[derive(Clone, Copy, Debug, PartialEq, Eq, Structural)]
pub struct JsonlQuantumCursor {
    pub segment_index: usize,
    pub segment_count: usize,
    pub byte_offset: u64,
    pub snapshot_bytes: u64,
}

/// A quantum that is being read.
#[derive(Clone, Copy, Debug, PartialEq, Eq, Structural)]
pub struct QuantumRead {
    pub cursor: JsonlQuantumCursor,
    pub records: usize,
    pub stored_bytes: u64,
}

/// What becomes of a line that a quantum is offered.
pub enum LineOffer {
    /// The quantum is full; reading goes on at the cursor.
    Full(JsonlQuantumCursor),
    /// The text of the record.
    Record(String),
}

/// Whether a quantum has no room for a line.
pub open spec fn quantum_full(records: nat, stored_bytes: nat, line: nat) -> bool {
    records == MAX_CONVERSATION_SCAN_RECORDS || stored_bytes + line > MAX_CONVERSATION_SCAN_BYTES
}

impl QuantumRead {
    /// The cursor stands in a segment of the stream, and the quantum stays within its
    /// limits.
    pub open spec fn wf(self) -> bool {
        &&& self.cursor.segment_index <= self.cursor.segment_count
        &&& self.records <= MAX_CONVERSATION_SCAN_RECORDS
        &&& self.stored_bytes <= MAX_CONVERSATION_SCAN_BYTES
        &&& self.records == 0 ==> self.stored_bytes == 0
    }

    /// The quantum with a record of so many bytes, with its line end, taken.
    pub open spec fn took(self, line_bytes: nat) -> QuantumRead {
        QuantumRead {
            cursor: JsonlQuantumCursor {
                byte_offset: if self.cursor.byte_offset + line_bytes > u64::MAX {
                    u64::MAX
                } else {
                    (self.cursor.byte_offset + line_bytes) as u64
                },
                ..self.cursor
            },
            records: (self.records + 1) as usize,
            stored_bytes: (self.stored_bytes + line_bytes) as u64,
        }
    }

    /// The quantum in a segment of so many bytes.
    pub open spec fn in_segment(self, segment_bytes: u64) -> QuantumRead {
        QuantumRead {
            cursor: JsonlQuantumCursor { snapshot_bytes: segment_bytes, ..self.cursor },
            ..self
        }
    }

    /// The quantum at the beginning of the segment behind.
    pub open spec fn behind_segment(self) -> QuantumRead {
        QuantumRead {
            cursor: JsonlQuantumCursor {
                segment_index: (self.cursor.segment_index + 1) as usize,
                segment_count: self.cursor.segment_count,
                byte_offset: 0,
                snapshot_bytes: 0,
            },
            ..self
        }
    }

    /// Begins a quantum at a cursor, or at the beginning of the stream.
    pub fn read_jsonl_quantum_from_segments(segment_count: usize, cursor: Option<JsonlQuantumCursor>) -> (result: Result<
        QuantumRead,
        RuntimeError,
    >)
        ensures
            ({
                let at = match cursor {
                    Some(cursor) => cursor,
                    None => JsonlQuantumCursor {
                        segment_index: 0,
                        segment_count,
                        byte_offset: 0,
                        snapshot_bytes: 0,
                    },
                };
                &&& error::failure(result) == (if at.segment_count != segment_count || at.segment_index
                    >= segment_count {
                    error::protocol_failure("conversation stream changed while it was scanned"@)
                } else {
                    None
                })
                &&& result matches Ok(read) ==> read.wf() && read == (QuantumRead {
                    cursor: at,
                    records: 0,
                    stored_bytes: 0,
                })
            }),
    {
        let at = match cursor {
            Some(cursor) => cursor,
            None => JsonlQuantumCursor {
                segment_index: 0,
                segment_count,
                byte_offset: 0,
                snapshot_bytes: 0,
            },
        };
        if at.segment_count != segment_count || at.segment_index >= segment_count {
            return Err(protocol("conversation stream changed while it was scanned"));
        }
        Ok(QuantumRead { cursor: at, records: 0, stored_bytes: 0 })
    }

    /// Opens the segment at the cursor; gives the offset to read from and how many
    /// bytes there are.
    pub fn open_segment(&mut self, path: &str, segment_bytes: u64) -> (result: Result<
        (u64, u64),
        RuntimeError,
    >)
        requires
            old(self).wf(),
            old(self).cursor.segment_index < old(self).cursor.segment_count,
        ensures
            final(self).wf(),
            error::failure(result) == snapshot_failure(
                path@,
                segment_bytes,
                old(self).cursor.segment_index + 1 != old(self).cursor.segment_count,
                old(self).cursor.byte_offset,
                old(self).cursor.snapshot_bytes,
            ),
            result matches Ok(span) ==> {
                &&& span.0 == old(self).cursor.byte_offset
                &&& span.0 + span.1 == segment_bytes
                &&& *final(self) == old(self).in_segment(segment_bytes)
            },
            result is Err ==> *final(self) == *old(self),
    {
        let non_final = self.cursor.segment_index + 1 != self.cursor.segment_count;
        validate_jsonl_segment_snapshot(
            path,
            segment_bytes,
            non_final,
            self.cursor.byte_offset,
            self.cursor.snapshot_bytes,
        )?;
        self.cursor.snapshot_bytes = segment_bytes;
        Ok((self.cursor.byte_offset, segment_bytes - self.cursor.byte_offset))
    }

    /// Offers a line of the segment, with its end.
    pub fn offer_line(&self, path: &str, line: &Vec<u8>) -> (result: Result<LineOffer, RuntimeError>)
        requires
            self.wf(),
            line@.len() > 0,
            line@.len() <= MAX_CONVERSATION_RECORD_BYTES + 1,
        ensures
            error::failure(result) == (if quantum_full(
                self.records as nat,
                self.stored_bytes as nat,
                line@.len(),
            ) {
                None
            } else if line@.last() != LINE_FEED || (line@.len() >= 2 && line@[line@.len() - 2]
                == CARRIAGE_RETURN) {
                error::protocol_failure("conversation JSONL stream must use LF framing"@)
            } else if !valid_utf8(line@.drop_last()) {
                Some(
                    ErrorModel::Io {
                        path: path@,
                        kind: IoKind::InvalidData,
                        message: text::utf8_error(line@.drop_last()),
                    },
                )
            } else {
                None
            }),
            result matches Ok(offer) ==> match offer {
                LineOffer::Full(cursor) => cursor == self.cursor && self.records > 0
                    && quantum_full(self.records as nat, self.stored_bytes as nat, line@.len()),
                LineOffer::Record(text) => text@ == decode_utf8(line@.drop_last()) && !quantum_full(
                    self.records as nat,
                    self.stored_bytes as nat,
                    line@.len(),
                ),
            },
    {
        let read: u64 = line.len() as u64;
        if self.records == MAX_CONVERSATION_SCAN_RECORDS || self.stored_bytes + read
            > MAX_CONVERSATION_SCAN_BYTES {
            return Ok(LineOffer::Full(self.cursor));
        }
        let length = line.len();
        if line[length - 1] != LINE_FEED || (length >= 2 && line[length - 2] == CARRIAGE_RETURN) {
            return Err(protocol("conversation JSONL stream must use LF framing"));
        }
        let body = vstd::slice::slice_subrange(line.as_slice(), 0, length - 1);
        assert(body@ =~= line@.drop_last());
        match text_from_utf8(body) {
            Ok(text) => Ok(LineOffer::Record(text)),
            Err(message) => Err(
                RuntimeError::Io { path: path.to_owned(), kind: IoKind::InvalidData, message },
            ),
        }
    }

    /// Takes account of a record whose text is the canonical form of what it says.
    pub fn accept_record(&mut self, text: &str, canonical: &str, line_bytes: usize) -> (result:
        Result<(), RuntimeError>)
        requires
            old(self).wf(),
            !quantum_full(old(self).records as nat, old(self).stored_bytes as nat, line_bytes as nat),
        ensures
            final(self).wf(),
            error::failure(result) == (if canonical@ != text@ {
                error::protocol_failure("conversation record is not canonical JSON"@)
            } else {
                None
            }),
            result is Err ==> *final(self) == *old(self),
            result is Ok ==> *final(self) == old(self).took(line_bytes as nat),
    {
        if !same_text(canonical, text) {
            return Err(protocol("conversation record is not canonical JSON"));
        }
        self.records = self.records + 1;
        self.stored_bytes = self.stored_bytes + line_bytes as u64;
        self.cursor.byte_offset = self.cursor.byte_offset.saturating_add(line_bytes as u64);
        Ok(())
    }

    /// Ends the segment at the cursor; true where another one follows.
    pub fn end_segment(&mut self, path: &str) -> (result: Result<bool, RuntimeError>)
        requires
            old(self).wf(),
            old(self).cursor.segment_index < old(self).cursor.segment_count,
        ensures
            final(self).wf(),
            error::failure(result) == (if old(self).cursor.byte_offset != old(self).cursor.snapshot_bytes {
                error::protocol_failure(path@ + " changed while it was scanned"@)
            } else {
                None
            }),
            result matches Ok(more) ==> {
                &&& more == (final(self).cursor.segment_index < final(self).cursor.segment_count)
                &&& *final(self) == old(self).behind_segment()
            },
    {
        if self.cursor.byte_offset != self.cursor.snapshot_bytes {
            let message = join2(path, " changed while it was scanned");
            return Err(protocol(message.as_str()));
        }
        self.cursor.segment_index = self.cursor.segment_index + 1;
        self.cursor.byte_offset = 0;
        self.cursor.snapshot_bytes = 0;
        Ok(self.cursor.segment_index < self.cursor.segment_count)
    }
}

/// A fresh quantum has room for every line that a record may make: reading never
/// stands still.
pub proof fn law_quantum_makes_progress(line: nat)
    requires
        line <= MAX_CONVERSATION_RECORD_BYTES + 1,
    ensures
        !quantum_full(0, 0, line),
{
}

/// The lines of a stream from a place in one of its segments on.
pub open spec fn stream_from(segments: Seq<Seq<u8>>, index: int, offset: int) -> Seq<Seq<u8>>
    decreases segments.len() - index,
{
    if index < 0 || index >= segments.len() {
        Seq::empty()
    } else {
        framing::lines_of(segments[index].skip(offset)) + stream_from(segments, index + 1, 0)
    }
}

/// Whether a quantum stands in a stream.
pub open spec fn stands_in(read: QuantumRead, segments: Seq<Seq<u8>>) -> bool {
    &&& read.cursor.segment_count == segments.len()
    &&& read.cursor.segment_index <= segments.len()
    &&& read.cursor.segment_index < segments.len() ==> read.cursor.byte_offset
        <= segments[read.cursor.segment_index as int].len()
    &&& forall|k: int| 0 <= k < segments.len() ==> (#[trigger] segments[k]).len() < u64::MAX
}

/// What a quantum comes to that reads on in a stream until it is full or the stream ends:
/// the lines that it takes, and where reading goes on where it is full.
pub open spec fn quantum_of(segments: Seq<Seq<u8>>, read: QuantumRead) -> (
    Seq<Seq<u8>>,
    Option<JsonlQuantumCursor>,
)
    decreases
            segments.len() - read.cursor.segment_index,
            if read.cursor.segment_index < segments.len() {
                segments[read.cursor.segment_index as int].len() - read.cursor.byte_offset
            } else {
                0
            },
{
    if read.cursor.segment_index >= segments.len() || !stands_in(read, segments) {
        (Seq::empty(), None)
    } else {
        let segment = segments[read.cursor.segment_index as int];
        let rest = segment.skip(read.cursor.byte_offset as int);
        let line = rest.take(framing::first_line(rest) as int);
        let opened = read.in_segment(segment.len() as u64);
        proof {
            framing::lemma_first_line_bounds(rest);
        }
        if rest.len() == 0 {
            quantum_of(segments, opened.behind_segment())
        } else if quantum_full(read.records as nat, read.stored_bytes as nat, line.len()) {
            (Seq::empty(), Some(opened.cursor))
        } else {
            let (lines, end) = quantum_of(segments, opened.took(line.len()));
            (seq![line] + lines, end)
        }
    }
}

/// A quantum that begins at a cursor.
pub open spec fn quantum_at(cursor: JsonlQuantumCursor) -> QuantumRead {
    QuantumRead { cursor, records: 0, stored_bytes: 0 }
}

/// What quanta come to that are read one behind the other, each from where the one before
/// it was full.
pub open spec fn quanta_of(segments: Seq<Seq<u8>>, cursor: JsonlQuantumCursor, quanta: nat) -> Seq<
    Seq<u8>,
>
    decreases quanta,
{
    if quanta == 0 {
        Seq::empty()
    } else {
        let (lines, end) = quantum_of(segments, quantum_at(cursor));
        match end {
            Some(end) => lines + quanta_of(segments, end, (quanta - 1) as nat),
            None => lines,
        }
    }
}

proof fn lemma_quantum_of(segments: Seq<Seq<u8>>, read: QuantumRead)
    requires
        stands_in(read, segments),
        read.wf(),
    ensures
        ({
            let from = stream_from(
                segments,
                read.cursor.segment_index as int,
                read.cursor.byte_offset as int,
            );
            let (lines, end) = quantum_of(segments, read);
            match end {
                None => lines == from,
                Some(end) => {
                    let rest = stream_from(
                        segments,
                        end.segment_index as int,
                        end.byte_offset as int,
                    );
                    &&& from == lines + rest
                    &&& stands_in(quantum_at(end), segments)
                    &&& rest.len() > 0
                    &&& lines.len() == 0 ==> quantum_full(
                        read.records as nat,
                        read.stored_bytes as nat,
                        rest[0].len(),
                    )
                },
            }
        }),
    decreases
            segments.len() - read.cursor.segment_index,
            if read.cursor.segment_index < segments.len() {
                segments[read.cursor.segment_index as int].len() - read.cursor.byte_offset
            } else {
                0
            },
{
    if read.cursor.segment_index < segments.len() {
        let index = read.cursor.segment_index as int;
        let offset = read.cursor.byte_offset as int;
        let segment = segments[index];
        let rest = segment.skip(offset);
        let length = framing::first_line(rest) as int;
        let line = rest.take(length);
        let opened = read.in_segment(segment.len() as u64);
        let from = stream_from(segments, index, offset);
        framing::lemma_first_line_bounds(rest);
        if rest.len() == 0 {
            lemma_quantum_of(segments, opened.behind_segment());
            assert(from =~= stream_from(segments, index + 1, 0));
        } else if quantum_full(read.records as nat, read.stored_bytes as nat, line.len()) {
            assert(framing::lines_of(rest)[0] == line);
            assert(from[0] == line);
            assert(from =~= Seq::<Seq<u8>>::empty() + from);
        } else {
            let next = opened.took(line.len());
            assert(rest.skip(length) =~= segment.skip(offset + length));
            lemma_quantum_of(segments, next);
            let (lines, end) = quantum_of(segments, next);
            let behind = stream_from(segments, index, offset + length);
            assert(from =~= seq![line] + behind);
            match end {
                None => {},
                Some(end) => {
                    let last = stream_from(
                        segments,
                        end.segment_index as int,
                        end.byte_offset as int,
                    );
                    assert(from =~= (seq![line] + lines) + last);
                },
            }
        }
    }
}

/// Reading quantum behind quantum takes every line of a stream once, in order: each quantum
/// begins where the one before was full, none is empty, and no more quanta are needed than
/// there are lines and one.
pub proof fn law_quanta_cover_the_stream(
    segments: Seq<Seq<u8>>,
    cursor: JsonlQuantumCursor,
    quanta: nat,
)
    requires
        stands_in(quantum_at(cursor), segments),
        ({
            let lines = stream_from(
                segments,
                cursor.segment_index as int,
                cursor.byte_offset as int,
            );
            &&& quanta > lines.len()
            &&& forall|i: int|
                0 <= i < lines.len() ==> (#[trigger] lines[i]).len()
                    <= MAX_CONVERSATION_RECORD_BYTES + 1
        }),
    ensures
        quanta_of(segments, cursor, quanta) == stream_from(
            segments,
            cursor.segment_index as int,
            cursor.byte_offset as int,
        ),
    decreases quanta,
{
    let from = stream_from(segments, cursor.segment_index as int, cursor.byte_offset as int);
    let (lines, end) = quantum_of(segments, quantum_at(cursor));
    lemma_quantum_of(segments, quantum_at(cursor));
    if let Some(end) = end {
        let rest = stream_from(segments, end.segment_index as int, end.byte_offset as int);
        assert forall|i: int| 0 <= i < rest.len() implies (#[trigger] rest[i]).len()
            <= MAX_CONVERSATION_RECORD_BYTES + 1 by {
            assert(from[lines.len() + i] == rest[i]);
        }
        law_quantum_makes_progress(rest[0].len());
        law_quanta_cover_the_stream(segments, end, (quanta - 1) as nat);
    }
}

} // verus!
