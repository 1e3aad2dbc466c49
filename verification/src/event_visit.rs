//! Visiting the events of a session's log: in what order its segments are looked at, and
//! when a look is taken a second time.

use crate::error::{ErrorModel, RuntimeError};
use crate::error;
use crate::session_events::{EventLogLimits, EventProgress, InactiveDecision, IncrementalScan, LogEvent, SessionEventReader, VerifiedScan};
use crate::session_events;
use crate::stream::framing::complete_jsonl_prefix_len;
use crate::stream::framing;
use crate::stream::reader::{admit_segment, SegmentEnd};
use crate::stream::reader;
use crate::text;
use vstd::prelude::*;
use vstd::utf8::*;

verus! {

/// What checking an event gave: its sequence, and what the checks have come to.
pub struct CheckedEvent {
    pub sequence: u64,
    pub progress: EventProgress,
}

/// A segment that was opened: where it stands, how many bytes it holds, and how it ends.
pub struct OpenedSegment {
    pub path: String,
    pub stored_bytes: u64,
    pub end: SegmentEnd,
}

/// Where visiting a whole log stands.
#[derive(Clone, Copy, Debug, PartialEq, Eq, Structural)]
pub enum VerifiedStage {
    /// The segments are listed, and the end of the last one is looked at.
    Inspect,
    /// The next segment is opened.
    Segment,
    /// The lines of the segment are read.
    Records,
    /// Every segment was read.
    Finish,
}

/// Visiting a whole log.
pub struct VerifiedVisit {
    pub scan: VerifiedScan,
    pub stage: VerifiedStage,
    /// Whether an early end was looked at a second time.
    pub retried: bool,
    pub segment_count: usize,
    pub index: usize,
    pub has_partial_line: bool,
    /// Whether the log ends in the middle of a line and its session is not owned.
    pub partial: bool,
    /// Whether the log is empty and its session is not owned.
    pub empty: bool,
}

impl VerifiedVisit {
    /// Whether what is known fits the stage.
    pub open spec fn wf(self) -> bool {
        &&& self.scan.wf()
        &&& match self.stage {
            VerifiedStage::Inspect => self.scan.records@.len() == 0,
            VerifiedStage::Segment => self.index < self.segment_count,
            VerifiedStage::Records => self.index < self.segment_count,
            VerifiedStage::Finish => self.segment_count >= 1,
        }
    }

    /// Whether only the place in the log differs.
    pub open spec fn same_end(self, other: VerifiedVisit) -> bool {
        &&& self.retried == other.retried
        &&& self.segment_count == other.segment_count
        &&& self.has_partial_line == other.has_partial_line
        &&& self.partial == other.partial
        &&& self.empty == other.empty
    }

    /// Begins a visit with a scan that has seen nothing yet.
    pub fn visit_verified_after_with(scan: VerifiedScan) -> (visit: VerifiedVisit)
        requires
            scan.wf(),
            scan.records@.len() == 0,
        ensures
            visit.wf(),
            visit == (VerifiedVisit {
                scan,
                stage: VerifiedStage::Inspect,
                retried: false,
                segment_count: 0,
                index: 0,
                has_partial_line: false,
                partial: false,
                empty: false,
            }),
    {
        VerifiedVisit {
            scan,
            stage: VerifiedStage::Inspect,
            retried: false,
            segment_count: 0,
            index: 0,
            has_partial_line: false,
            partial: false,
            empty: false,
        }
    }

    /// Goes on by how many segments there are, how large the last one is and how it ends.
    /// What ends early while its session is not owned is looked at once more.
    pub fn inspected(
        &mut self,
        reader: &SessionEventReader,
        segment_count: usize,
        last: &OpenedSegment,
        ownership_active: bool,
        limits: EventLogLimits,
    ) -> (result: Result<(), RuntimeError>)
        requires
            old(self).wf(),
            old(self).stage == VerifiedStage::Inspect,
            segment_count >= 1,
        ensures
            ({
                let partial = last.end.has_partial_line && !ownership_active;
                let empty = segment_count == 1 && last.end.is_empty && !ownership_active;
                let again = (partial || empty) && !old(self).retried;
                &&& error::failure(result) == error::first_failure(
                    reader::segment_failure(last.path@, last.stored_bytes, limits.max_segment_bytes),
                    session_events::inactive_failure(
                        reader.path@,
                        partial,
                        empty,
                        old(self).retried,
                        old(self).scan.deferred,
                    ),
                )
                &&& final(self).wf()
                &&& final(self).scan == old(self).scan
                &&& result is Err ==> *final(self) == *old(self)
                &&& result is Ok && again ==> *final(self) == (VerifiedVisit {
                    retried: true,
                    ..*old(self)
                })
                &&& result is Ok && !again ==> {
                    &&& final(self).stage == VerifiedStage::Segment
                    &&& final(self).retried == old(self).retried
                    &&& final(self).segment_count == segment_count
                    &&& final(self).index == 0
                    &&& final(self).has_partial_line == last.end.has_partial_line
                    &&& final(self).partial == partial
                    &&& final(self).empty == empty
                }
            }),
    {
        admit_segment(last.path.as_str(), last.stored_bytes, limits.max_segment_bytes)?;
        let decision = reader.judge_end(
            last.end.has_partial_line,
            segment_count == 1 && last.end.is_empty,
            ownership_active,
            self.retried,
            self.scan.deferred,
        )?;
        match decision {
            InactiveDecision::Retry => {
                self.retried = true;
            },
            InactiveDecision::Proceed { partial, empty } => {
                self.segment_count = segment_count;
                self.index = 0;
                self.has_partial_line = last.end.has_partial_line;
                self.partial = partial;
                self.empty = empty;
                self.stage = VerifiedStage::Segment;
            },
        }
        Ok(())
    }

    /// Goes on by the size of the segment that was opened: neither it nor all segments
    /// together may be too large.
    pub fn segment_opened(
        &mut self,
        path: &str,
        stored_bytes: u64,
        limits: EventLogLimits,
    ) -> (result: Result<(), RuntimeError>)
        requires
            old(self).wf(),
            old(self).stage == VerifiedStage::Segment,
        ensures
            error::failure(result) == error::first_failure(
                reader::segment_failure(path@, stored_bytes, limits.max_segment_bytes),
                session_events::event_bytes_failure(
                    old(self).scan.path@,
                    session_events::saturated_sum(
                        old(self).scan.total_bytes as nat,
                        stored_bytes as nat,
                    ) as nat,
                    limits,
                ),
            ),
            final(self).wf(),
            final(self).same_end(*old(self)),
            final(self).index == old(self).index,
            final(self).scan.keeps(old(self).scan),
            final(self).scan.records == old(self).scan.records,
            final(self).scan.events == old(self).scan.events,
            final(self).scan.progress == old(self).scan.progress,
            final(self).scan.output_bytes == old(self).scan.output_bytes,
            final(self).scan.final_complete_bytes == old(self).scan.final_complete_bytes,
            result is Ok ==> final(self).scan.total_bytes == session_events::saturated_sum(
                old(self).scan.total_bytes as nat,
                stored_bytes as nat,
            ),
            final(self).stage == (if result is Ok {
                VerifiedStage::Records
            } else {
                VerifiedStage::Segment
            }),
    {
        admit_segment(path, stored_bytes, limits.max_segment_bytes)?;
        self.scan.add_segment(stored_bytes, limits)?;
        self.stage = VerifiedStage::Records;
        Ok(())
    }

    /// Goes on by a line of the segment and by what checking it gave; says whether the
    /// event is to be handed out.
    pub fn visit_verified_record(
        &mut self,
        line: &[u8],
        checked: Result<CheckedEvent, RuntimeError>,
    ) -> (result: Result<bool, RuntimeError>)
        requires
            old(self).wf(),
            old(self).stage == VerifiedStage::Records,
            old(self).scan.records@.len() + 1 < usize::MAX,
        ensures
            ({
                let records = old(self).scan.records@.push(line@);
                match checked {
                    Err(failure) => error::failure(result) == Some(failure@),
                    Ok(event) => {
                        let visited = old(self).scan.cursor < event.sequence
                            <= old(self).scan.through_sequence;
                        &&& error::failure(result) == (if !session_events::confirms(
                            records,
                            old(self).scan.expected@,
                        ) {
                            error::protocol_failure(
                                old(self).scan.path@
                                    + " changed outside append-only session semantics"@,
                            )
                        } else {
                            session_events::output_failure(
                                old(self).scan.materialized,
                                old(self).scan.output_bytes,
                                visited,
                                line@.len(),
                            )
                        })
                        &&& result matches Ok(visit) ==> {
                            &&& visit == visited
                            &&& final(self).wf()
                            &&& final(self).stage == VerifiedStage::Records
                            &&& final(self).index == old(self).index
                            &&& final(self).same_end(*old(self))
                            &&& final(self).scan.keeps(old(self).scan)
                            &&& final(self).scan.records@ == records
                            &&& final(self).scan.events@ == old(self).scan.events@.push(
                                LogEvent { line: line@, sequence: event.sequence },
                            )
                            &&& final(self).scan.progress == event.progress
                            &&& final(self).scan.output_bytes == session_events::output_after(
                                old(self).scan.materialized,
                                old(self).scan.output_bytes,
                                visited,
                                line@.len(),
                            )
                            &&& final(self).scan.total_bytes == old(self).scan.total_bytes
                            &&& final(self).scan.final_complete_bytes
                                == old(self).scan.final_complete_bytes
                        }
                    },
                }
            }),
    {
        let event = checked?;
        self.scan.record(line, event.sequence, event.progress)
    }

    /// Goes on by how many bytes of the segment belong to complete lines.
    pub fn segment_ended(&mut self, complete_bytes: u64)
        requires
            old(self).wf(),
            old(self).stage == VerifiedStage::Records,
        ensures
            ({
                let last = old(self).index + 1 == old(self).segment_count;
                &&& final(self).wf()
                &&& final(self).same_end(*old(self))
                &&& final(self).index == old(self).index + 1
                &&& final(self).stage == (if last {
                    VerifiedStage::Finish
                } else {
                    VerifiedStage::Segment
                })
                &&& final(self).scan.keeps(old(self).scan)
                &&& final(self).scan.records == old(self).scan.records
                &&& final(self).scan.events == old(self).scan.events
                &&& final(self).scan.progress == old(self).scan.progress
                &&& final(self).scan.output_bytes == old(self).scan.output_bytes
                &&& final(self).scan.total_bytes == old(self).scan.total_bytes
                &&& final(self).scan.final_complete_bytes == (if last {
                    complete_bytes
                } else {
                    old(self).scan.final_complete_bytes
                })
            }),
    {
        let last = self.index + 1 == self.segment_count;
        self.scan.end_segment(complete_bytes, last);
        self.index = self.index + 1;
        self.stage = if last {
            VerifiedStage::Finish
        } else {
            VerifiedStage::Segment
        };
    }

    /// Ends the visit: where nothing is wrong, the reader has observed what was visited.
    pub fn finish(self, reader: &mut SessionEventReader) -> (result: Result<(), RuntimeError>)
        requires
            self.wf(),
            self.stage == VerifiedStage::Finish,
            old(reader).wf(),
            self.scan.path@ == old(reader).path@,
        ensures
            error::failure(result) == self.scan.end_failure(
                self.has_partial_line,
                self.partial,
                self.empty,
            ),
            result is Err ==> *final(reader) == *old(reader),
            result is Ok ==> {
                &&& final(reader).wf()
                &&& final(reader).records@ == self.scan.records@
                &&& final(reader).progress == self.scan.progress
                &&& final(reader).observed_segment_count == self.segment_count
                &&& final(reader).observed_current_segment_bytes == self.scan.final_complete_bytes
                &&& final(reader).path == old(reader).path
                &&& final(reader).session_id == old(reader).session_id
            },
    {
        reader.finish_scan(
            self.scan,
            self.segment_count,
            self.has_partial_line,
            self.partial,
            self.empty,
        )
    }
}

/// Where visiting what was appended to a log stands.
#[derive(Clone, Copy, Debug, PartialEq, Eq, Structural)]
pub enum IncrementalStage {
    /// The segments are listed.
    List,
    /// What was appended to the last segment is read.
    ReadFinal,
    /// It is looked whether the session is owned, where the last line is incomplete.
    Judge,
    /// What was appended to the next segment is read, where it is not the last one.
    Segment,
    /// The lines of the segment are read.
    Records,
    /// Every segment was read, or the last wanted event was.
    Finish,
}

/// Visiting what was appended to a log.
pub struct IncrementalVisit {
    pub scan: IncrementalScan,
    pub stage: IncrementalStage,
    /// Whether an incomplete last line was looked at a second time.
    pub retried: bool,
    pub segment_count: usize,
    pub index: usize,
    /// Where reading the segment began.
    pub offset: u64,
    /// What was appended to the last segment.
    pub final_suffix: Vec<u8>,
    pub has_partial_line: bool,
    /// Whether the last line is incomplete and its session is not owned.
    pub partial: bool,
    /// The complete lines of the segment that is read.
    pub bytes: Vec<u8>,
    pub consumed: usize,
}

/// A segment as it was read from an offset on.
pub struct SegmentRead {
    pub path: String,
    /// How many bytes the segment holds in all.
    pub stored_bytes: u64,
    pub bytes: Vec<u8>,
}

/// What is wrong with what was read of a segment.
pub open spec fn read_failure(
    scan: IncrementalScan,
    read: SegmentRead,
    offset: u64,
    discovered_bytes: u64,
    limits: EventLogLimits,
) -> Option<ErrorModel> {
    if read.stored_bytes < offset {
        error::protocol_failure(scan.path@ + " changed outside append-only session semantics"@)
    } else if read.bytes@.len() > IncrementalScan::segment_room(offset, limits) {
        error::protocol_failure(
            read.path@ + " read size exceeds max "@ + text::decimal(
                limits.max_segment_bytes as nat,
            ),
        )
    } else {
        session_events::event_bytes_failure(
            scan.path@,
            session_events::saturated_sum(
                session_events::saturated_sum(
                    scan.observed_event_bytes as nat,
                    discovered_bytes as nat,
                ) as nat,
                read.bytes@.len(),
            ) as nat,
            limits,
        )
    }
}

/// Accepts what was read of a segment from an offset on.
pub fn read_incremental_segment(
    scan: &IncrementalScan,
    read: &SegmentRead,
    offset: u64,
    discovered_bytes: u64,
    limits: EventLogLimits,
) -> (result: Result<(), RuntimeError>)
    ensures
        error::failure(result) == read_failure(*scan, *read, offset, discovered_bytes, limits),
{
    scan.plan_read(read.stored_bytes, offset, discovered_bytes, limits)?;
    scan.check_read(read.bytes.len() as u64, offset, discovered_bytes, read.path.as_str(), limits)
}

proof fn lemma_line_between(bytes: Seq<u8>, start: int, length: int)
    requires
        0 <= start,
        0 <= length,
        start + length <= bytes.len(),
    ensures
        bytes.skip(start).take(length) == bytes.subrange(start, start + length),
{
    assert(bytes.skip(start).take(length) =~= bytes.subrange(start, start + length));
}

fn line_of(bytes: &Vec<u8>, start: usize, length: usize) -> (line: Vec<u8>)
    requires
        start + length <= bytes@.len(),
    ensures
        line@ == bytes@.skip(start as int).take(length as int),
{
    assert(start + length <= bytes.len());
    let line = vstd::slice::slice_subrange(bytes.as_slice(), start, start + length);
    proof {
        lemma_line_between(bytes@, start as int, length as int);
    }
    vstd::slice::slice_to_vec(line)
}

impl IncrementalVisit {
    /// Whether what is known fits the stage.
    pub open spec fn wf(self) -> bool {
        &&& self.scan.wf()
        &&& match self.stage {
            IncrementalStage::List => true,
            IncrementalStage::Finish => true,
            IncrementalStage::Records => self.index < self.segment_count && self.consumed
                <= self.bytes@.len(),
            _ => self.index < self.segment_count,
        }
    }

    /// Whether the end of the log and the place of the segment are the same.
    pub open spec fn same_place(self, other: IncrementalVisit) -> bool {
        &&& self.retried == other.retried
        &&& self.segment_count == other.segment_count
        &&& self.index == other.index
        &&& self.offset == other.offset
        &&& self.final_suffix == other.final_suffix
        &&& self.has_partial_line == other.has_partial_line
        &&& self.partial == other.partial
    }

    /// The bytes of the last segment that belong to complete lines.
    pub open spec fn final_lines(self) -> Seq<u8> {
        self.final_suffix@.take(framing::complete_prefix(self.final_suffix@) as int)
    }

    /// Begins a visit with a scan that has seen nothing yet.
    pub fn visit_incremental_after_with(scan: IncrementalScan) -> (visit: IncrementalVisit)
        requires
            scan.wf(),
        ensures
            visit.wf(),
            visit.scan == scan,
            visit.stage == IncrementalStage::List,
            !visit.retried,
            visit.segment_count == 0,
            visit.index == 0,
            visit.offset == 0,
            visit.final_suffix@.len() == 0,
            !visit.has_partial_line,
            !visit.partial,
            visit.bytes@.len() == 0,
            visit.consumed == 0,
    {
        IncrementalVisit {
            scan,
            stage: IncrementalStage::List,
            retried: false,
            segment_count: 0,
            index: 0,
            offset: 0,
            final_suffix: Vec::new(),
            has_partial_line: false,
            partial: false,
            bytes: Vec::new(),
            consumed: 0,
        }
    }

    /// Goes on by how many segments there are: those that were observed are still there.
    pub fn listed(&mut self, reader: &SessionEventReader, segment_count: usize) -> (result: Result<
        (),
        RuntimeError,
    >)
        requires
            old(self).wf(),
            old(self).stage == IncrementalStage::List,
        ensures
            error::failure(result) == (if segment_count < reader.observed_segment_count
                || reader.observed_segment_count == 0 {
                error::protocol_failure(
                    reader.path@ + " changed outside append-only session semantics"@,
                )
            } else {
                None
            }),
            final(self).wf(),
            final(self).scan == old(self).scan,
            final(self).retried == old(self).retried,
            result is Err ==> *final(self) == *old(self),
            result is Ok ==> {
                *final(self) == (IncrementalVisit {
                    stage: IncrementalStage::ReadFinal,
                    segment_count,
                    index: (reader.observed_segment_count - 1) as usize,
                    offset: reader.observed_current_segment_bytes,
                    ..*old(self)
                })
            },
    {
        let index = reader.prior_final_index(segment_count)?;
        self.segment_count = segment_count;
        self.index = index;
        self.offset = reader.segment_offset(index);
        self.stage = IncrementalStage::ReadFinal;
        Ok(())
    }

    /// Where reading begins in the last segment.
    pub open spec fn spec_final_offset(self) -> u64 {
        if self.index + 1 == self.segment_count {
            self.offset
        } else {
            0
        }
    }

    /// Where reading begins in the last segment: behind what was observed, where it was
    /// the last one before.
    pub fn final_offset(&self) -> (offset: u64)
        requires
            self.wf(),
            self.stage == IncrementalStage::ReadFinal,
        ensures
            offset == self.spec_final_offset(),
    {
        if self.index + 1 == self.segment_count {
            self.offset
        } else {
            0
        }
    }

    /// Goes on by what was appended to the last segment.
    pub fn final_read(&mut self, read: SegmentRead, limits: EventLogLimits) -> (result: Result<
        (),
        RuntimeError,
    >)
        requires
            old(self).wf(),
            old(self).stage == IncrementalStage::ReadFinal,
        ensures
            error::failure(result) == read_failure(
                old(self).scan,
                read,
                old(self).spec_final_offset(),
                0,
                limits,
            ),
            final(self).wf(),
            result is Err ==> *final(self) == *old(self),
            result is Ok ==> {
                &&& final(self).final_suffix == read.bytes
                &&& final(self).has_partial_line == (framing::complete_prefix(read.bytes@)
                    != read.bytes@.len())
                &&& *final(self) == (IncrementalVisit {
                    stage: IncrementalStage::Judge,
                    final_suffix: read.bytes,
                    has_partial_line: final(self).has_partial_line,
                    ..*old(self)
                })
            },
    {
        let offset: u64 = self.final_offset();
        read_incremental_segment(&self.scan, &read, offset, 0, limits)?;
        self.has_partial_line = complete_jsonl_prefix_len(read.bytes.as_slice())
            != read.bytes.len();
        self.final_suffix = read.bytes;
        self.stage = IncrementalStage::Judge;
        Ok(())
    }

    /// Goes on by whether the session is owned. An incomplete last line of a session that
    /// is not owned is looked at once more.
    pub fn judged(&mut self, ownership_active: bool)
        requires
            old(self).wf(),
            old(self).stage == IncrementalStage::Judge,
        ensures
            final(self).wf(),
            ({
                let partial = old(self).has_partial_line && !ownership_active;
                if partial && !old(self).retried {
                    *final(self) == (IncrementalVisit {
                        stage: IncrementalStage::List,
                        retried: true,
                        ..*old(self)
                    })
                } else {
                    *final(self) == (IncrementalVisit {
                        stage: IncrementalStage::Segment,
                        partial,
                        ..*old(self)
                    })
                }
            }),
    {
        let partial = self.has_partial_line && !ownership_active;
        if partial && !self.retried {
            self.retried = true;
            self.stage = IncrementalStage::List;
        } else {
            self.partial = partial;
            self.stage = IncrementalStage::Segment;
        }
    }

    /// Goes on by what was appended to a segment that another one follows.
    pub fn segment_read(&mut self, read: SegmentRead, limits: EventLogLimits) -> (result: Result<
        (),
        RuntimeError,
    >)
        requires
            old(self).wf(),
            old(self).stage == IncrementalStage::Segment,
            old(self).index + 1 < old(self).segment_count,
        ensures
            error::failure(result) == error::first_failure(
                read_failure(
                    old(self).scan,
                    read,
                    old(self).offset,
                    old(self).scan.discovered_bytes,
                    limits,
                ),
                if read.stored_bytes == 0 || framing::complete_prefix(read.bytes@)
                    != read.bytes@.len() {
                    error::protocol_failure(
                        read.path@ + " non-final segment must end with LF"@,
                    )
                } else {
                    None
                },
            ),
            final(self).wf(),
            final(self).same_place(*old(self)),
            final(self).scan.keeps(old(self).scan),
            final(self).scan.records == old(self).scan.records,
            final(self).scan.events == old(self).scan.events,
            final(self).scan.progress == old(self).scan.progress,
            final(self).scan.output_bytes == old(self).scan.output_bytes,
            final(self).scan.segment_count == old(self).scan.segment_count,
            final(self).scan.segment_bytes == old(self).scan.segment_bytes,
            result is Ok ==> {
                &&& final(self).stage == IncrementalStage::Records
                &&& final(self).bytes == read.bytes
                &&& final(self).consumed == 0
                &&& final(self).scan.discovered_bytes == session_events::saturated_sum(
                    old(self).scan.discovered_bytes as nat,
                    read.bytes@.len(),
                )
            },
    {
        read_incremental_segment(
            &self.scan,
            &read,
            self.offset,
            self.scan.discovered_bytes,
            limits,
        )?;
        self.scan.add_prior_segment(
            read.bytes.as_slice(),
            read.stored_bytes,
            read.path.as_str(),
        )?;
        self.bytes = read.bytes;
        self.consumed = 0;
        self.stage = IncrementalStage::Records;
        Ok(())
    }

    /// Goes on to the complete lines of the last segment.
    pub fn final_segment(&mut self, limits: EventLogLimits) -> (result: Result<(), RuntimeError>)
        requires
            old(self).wf(),
            old(self).stage == IncrementalStage::Segment,
            old(self).index + 1 == old(self).segment_count,
        ensures
            error::failure(result) == session_events::event_bytes_failure(
                old(self).scan.path@,
                session_events::saturated_sum(
                    old(self).scan.observed_event_bytes as nat,
                    session_events::saturated_sum(
                        old(self).scan.discovered_bytes as nat,
                        old(self).final_suffix@.len(),
                    ) as nat,
                ) as nat,
                limits,
            ),
            final(self).wf(),
            final(self).same_place(*old(self)),
            final(self).scan.keeps(old(self).scan),
            final(self).scan.records == old(self).scan.records,
            final(self).scan.events == old(self).scan.events,
            final(self).scan.progress == old(self).scan.progress,
            final(self).scan.output_bytes == old(self).scan.output_bytes,
            final(self).scan.segment_count == old(self).scan.segment_count,
            final(self).scan.segment_bytes == old(self).scan.segment_bytes,
            result is Ok ==> {
                &&& final(self).stage == IncrementalStage::Records
                &&& final(self).bytes@ == old(self).final_lines()
                &&& final(self).consumed == 0
                &&& final(self).scan.discovered_bytes == session_events::saturated_sum(
                    old(self).scan.discovered_bytes as nat,
                    old(self).final_suffix@.len(),
                )
            },
    {
        self.scan.add_final_segment(self.final_suffix.as_slice(), limits)?;
        let length: usize = complete_jsonl_prefix_len(self.final_suffix.as_slice());
        self.bytes = vstd::slice::slice_to_vec(
            vstd::slice::slice_subrange(self.final_suffix.as_slice(), 0, length),
        );
        assert(self.bytes@ =~= old(self).final_lines());
        self.consumed = 0;
        self.stage = IncrementalStage::Records;
        Ok(())
    }

    /// The bytes of the segment that are not read yet.
    pub open spec fn rest(self) -> Seq<u8> {
        self.bytes@.skip(self.consumed as int)
    }

    /// The next line of the segment.
    pub open spec fn line(self) -> Seq<u8> {
        self.rest().take(framing::first_line(self.rest()) as int)
    }

    /// Whether a further line is wanted and there.
    pub open spec fn wants(self) -> bool {
        self.scan.progress.previous_sequence < self.scan.target_sequence && self.rest().len() > 0
    }

    /// The next line of the segment, while there is one and events are still wanted.
    pub fn next_record(&self) -> (result: Result<Option<(String, usize)>, RuntimeError>)
        requires
            self.wf(),
            self.stage == IncrementalStage::Records,
        ensures
            error::failure(result) == (if self.wants() && !valid_utf8(self.line()) {
                error::protocol_failure(
                    self.scan.path@ + " is not valid UTF-8: "@ + text::utf8_error(self.line()),
                )
            } else {
                None
            }),
            result matches Ok(Some((record, length))) ==> {
                &&& self.wants()
                &&& record@ == decode_utf8(self.line())
                &&& length == framing::first_line(self.rest())
                &&& 1 <= length <= self.rest().len()
            },
            result matches Ok(None) ==> !self.wants(),
    {
        self.scan.next_record(self.bytes.as_slice(), self.consumed)
    }

    /// Goes on by what checking the next line gave; says whether the event is to be
    /// handed out.
    pub fn visit_incremental_record(
        &mut self,
        length: usize,
        checked: Result<CheckedEvent, RuntimeError>,
    ) -> (result: Result<bool, RuntimeError>)
        requires
            old(self).wf(),
            old(self).stage == IncrementalStage::Records,
            old(self).wants(),
            length == framing::first_line(old(self).rest()),
            1 <= length <= old(self).rest().len(),
            old(self).scan.records@.len() + 1 < usize::MAX,
        ensures
            match checked {
                Err(failure) => error::failure(result) == Some(failure@) && *final(self) == *old(
                    self,
                ),
                Ok(event) => {
                    let visited = old(self).scan.cursor < event.sequence
                        <= old(self).scan.through_sequence;
                    &&& error::failure(result) == session_events::output_failure(
                        old(self).scan.materialized,
                        old(self).scan.output_bytes,
                        visited,
                        length as nat,
                    )
                    &&& result matches Ok(visit) ==> visit == visited && final(self).wf()
                    &&& final(self).same_place(*old(self))
                    &&& final(self).stage == IncrementalStage::Records
                    &&& final(self).bytes == old(self).bytes
                    &&& final(self).consumed == old(self).consumed + length
                    &&& final(self).scan.keeps(old(self).scan)
                    &&& final(self).scan.records@ == old(self).scan.records@.push(old(self).line())
                    &&& final(self).scan.events@ == old(self).scan.events@.push(
                        LogEvent { line: old(self).line(), sequence: event.sequence },
                    )
                    &&& final(self).scan.progress == event.progress
                    &&& final(self).scan.output_bytes == session_events::output_after(
                        old(self).scan.materialized,
                        old(self).scan.output_bytes,
                        visited,
                        length as nat,
                    )
                    &&& final(self).scan.discovered_bytes == old(self).scan.discovered_bytes
                    &&& final(self).scan.segment_count == old(self).scan.segment_count
                    &&& final(self).scan.segment_bytes == old(self).scan.segment_bytes
                },
            },
    {
        let event = match checked {
            Ok(event) => event,
            Err(error) => {
                return Err(error);
            },
        };
        assert(self.consumed + length <= self.bytes.len());
        let line = line_of(&self.bytes, self.consumed, length);
        let result = self.scan.accept(line.as_slice(), event.sequence, event.progress);
        self.consumed = self.consumed + length;
        result
    }

    /// Goes on where no line of the segment is left, or none is wanted.
    pub fn segment_ended(&mut self)
        requires
            old(self).wf(),
            old(self).stage == IncrementalStage::Records,
            !old(self).wants(),
        ensures
            ({
                let reached = old(self).scan.progress.previous_sequence
                    >= old(self).scan.target_sequence;
                let last = old(self).index + 1 == old(self).segment_count;
                &&& final(self).wf()
                &&& final(self).scan.keeps(old(self).scan)
                &&& final(self).scan.records == old(self).scan.records
                &&& final(self).scan.events == old(self).scan.events
                &&& final(self).scan.progress == old(self).scan.progress
                &&& final(self).scan.output_bytes == old(self).scan.output_bytes
                &&& final(self).scan.discovered_bytes == old(self).scan.discovered_bytes
                &&& final(self).retried == old(self).retried
                &&& final(self).bytes == old(self).bytes
                &&& final(self).consumed == old(self).consumed
                &&& final(self).scan.segment_count == old(self).index + 1
                &&& final(self).scan.segment_bytes == session_events::saturated_sum(
                    old(self).offset as nat,
                    old(self).consumed as nat,
                )
                &&& final(self).has_partial_line == old(self).has_partial_line
                &&& final(self).partial == old(self).partial
                &&& final(self).final_suffix == old(self).final_suffix
                &&& if reached || last {
                    &&& final(self).stage == IncrementalStage::Finish
                    &&& final(self).index == old(self).index
                    &&& final(self).segment_count == old(self).segment_count
                    &&& final(self).offset == old(self).offset
                } else {
                    &&& final(self).stage == IncrementalStage::Segment
                    &&& final(self).index == old(self).index + 1
                    &&& final(self).segment_count == old(self).segment_count
                    &&& final(self).offset == 0
                }
            }),
    {
        self.scan.end_segment(self.index, self.offset, self.consumed);
        if self.scan.reached() || self.index + 1 == self.segment_count {
            self.stage = IncrementalStage::Finish;
        } else {
            self.index = self.index + 1;
            self.offset = 0;
            self.stage = IncrementalStage::Segment;
        }
    }

    /// Ends the visit: where nothing is wrong, the reader has observed what was visited,
    /// behind what it had observed.
    pub fn finish(self, reader: &mut SessionEventReader) -> (result: Result<(), RuntimeError>)
        requires
            self.wf(),
            self.stage == IncrementalStage::Finish,
            old(reader).wf(),
            self.scan.extends(*old(reader)),
        ensures
            error::failure(result) == self.scan.end_failure(self.has_partial_line, self.partial),
            result is Err ==> *final(reader) == *old(reader),
            result is Ok ==> {
                &&& final(reader).wf()
                &&& final(reader).records@ == self.scan.records@
                &&& old(reader).records@.is_prefix_of(final(reader).records@)
                &&& final(reader).progress == self.scan.progress
                &&& final(reader).observed_segment_count == self.scan.segment_count
                &&& final(reader).observed_current_segment_bytes == self.scan.segment_bytes
                &&& final(reader).path == old(reader).path
                &&& final(reader).session_id == old(reader).session_id
            },
    {
        reader.finish_incremental(self.scan, self.has_partial_line, self.partial)
    }
}

} // verus!
