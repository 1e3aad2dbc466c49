//! Event pointers: which events the entries of a history point at, and the scan
//! of an event stream that confirms them.

use crate::error::{protocol, RuntimeError};
use crate::error;
use crate::history::records::{event_pointer_sequence, record_id, IndexLayout};
use crate::history::records;
use crate::order;
use crate::text::{append_text, decimal_text, join3, same_bytes, text_from_utf8};
use crate::text;
use vstd::prelude::*;
use vstd::utf8::*;

verus! {

/// A run and the largest sequence number that an entry points at in it.
pub struct RunPointer {
    pub run_id: Vec<u8>,
    pub max_sequence: u64,
}

/// A run pointer by its contents.
pub open spec fn run_pointer_view(pointer: RunPointer) -> (Seq<u8>, nat) {
    (pointer.run_id@, pointer.max_sequence as nat)
}

/// At most one run pointer, as a sequence.
pub open spec fn optional_pointer(pointer: Option<RunPointer>) -> Seq<(Seq<u8>, nat)> {
    match pointer {
        Some(pointer) => seq![run_pointer_view(pointer)],
        None => Seq::empty(),
    }
}

/// Neighbouring pointers of one run taken together, with the largest of their
/// sequence numbers.
pub open spec fn grouped(pointers: Seq<(Seq<u8>, nat)>) -> Seq<(Seq<u8>, nat)>
    decreases pointers.len(),
{
    if pointers.len() == 0 {
        Seq::empty()
    } else {
        let groups = grouped(pointers.drop_last());
        let pointer = pointers.last();
        if groups.len() > 0 && groups.last().0 == pointer.0 {
            groups.drop_last().push(
                (
                    pointer.0,
                    if groups.last().1 < pointer.1 {
                        pointer.1
                    } else {
                        groups.last().1
                    },
                ),
            )
        } else {
            groups.push(pointer)
        }
    }
}

/// The run whose pointers are being taken together.
pub struct PointerGroups {
    pub current: Option<RunPointer>,
}

/// The run and the sequence number of an event pointer record.
pub open spec fn pointer_view(layout: IndexLayout, pointer: Seq<u8>) -> (Seq<u8>, nat) {
    (records::leading_id(pointer), records::pointer_sequence(layout, pointer))
}

impl PointerGroups {
    /// No pointer has been seen.
    pub fn new() -> (groups: PointerGroups)
        ensures
            groups.current is None,
    {
        PointerGroups { current: None }
    }

    /// Takes the next pointer; gives the run before it where this one is another.
    pub fn observe(&mut self, layout: IndexLayout, pointer: &Vec<u8>) -> (finished: Option<
        RunPointer,
    >)
        requires
            layout.wf(),
            pointer@.len() == layout.pointer_bytes(),
            records::has_leading_id(pointer@),
        ensures
            final(self).current is Some,
            forall|seen: Seq<(Seq<u8>, nat)>, emitted: Seq<(Seq<u8>, nat)>|
                #![trigger grouped(seen), emitted + optional_pointer(old(self).current)]
                grouped(seen) == emitted + optional_pointer(old(self).current) && (old(
                    self,
                ).current is None ==> seen.len() == 0) ==> grouped(
                    seen.push(pointer_view(layout, pointer@)),
                ) == emitted + optional_pointer(finished) + optional_pointer(final(self).current),
    {
        let sequence = event_pointer_sequence(layout, pointer);
        let id = record_id(pointer);
        let ghost view = pointer_view(layout, pointer@);
        let mut finished: Option<RunPointer> = None;
        let ghost before = optional_pointer(self.current);
        let mut current: Option<RunPointer> = None;
        std::mem::swap(&mut current, &mut self.current);
        match current {
            None => {
                self.current = Some(
                    RunPointer { run_id: vstd::slice::slice_to_vec(id), max_sequence: sequence },
                );
            },
            Some(prior) => {
                if same_bytes(prior.run_id.as_slice(), id) {
                    let max_sequence = if prior.max_sequence < sequence {
                        sequence
                    } else {
                        prior.max_sequence
                    };
                    self.current = Some(RunPointer { run_id: prior.run_id, max_sequence });
                } else {
                    self.current = Some(
                        RunPointer { run_id: vstd::slice::slice_to_vec(id), max_sequence: sequence },
                    );
                    finished = Some(prior);
                }
            },
        }
        proof {
            assert forall|seen: Seq<(Seq<u8>, nat)>, emitted: Seq<(Seq<u8>, nat)>|
                #![trigger grouped(seen), emitted + before]
                grouped(seen) == emitted + before && (before.len() == 0 ==> seen.len()
                    == 0) implies grouped(seen.push(view)) == emitted
                + optional_pointer(finished) + optional_pointer(self.current) by {
                let next = seen.push(view);
                assert(next.drop_last() =~= seen);
                assert(next.last() == view);
                let groups = grouped(seen);
                if before.len() == 0 {
                    assert(emitted.len() == 0);
                    assert(grouped(next) =~= emitted + optional_pointer(finished)
                        + optional_pointer(self.current));
                } else {
                    assert(groups.last() == before[0]);
                    assert(groups.drop_last() =~= emitted);
                    assert(grouped(next) =~= emitted + optional_pointer(finished)
                        + optional_pointer(self.current));
                }
            }
        }
        finished
    }

    /// The last run, when every pointer has been seen.
    pub fn finish(self) -> (finished: Option<RunPointer>)
        ensures
            finished == self.current,
    {
        self.current
    }
}

/// Whether pointers are sorted by run.
pub open spec fn sorted_by_run(pointers: Seq<(Seq<u8>, nat)>) -> bool {
    forall|i: int, j: int|
        #![trigger pointers[i], pointers[j]]
        0 <= i < j < pointers.len() ==> !order::bytes_before(pointers[j].0, pointers[i].0)
}

/// Whether runs stand in order without repetition.
pub open spec fn runs_rise(groups: Seq<(Seq<u8>, nat)>) -> bool {
    forall|a: int, b: int|
        #![trigger groups[a], groups[b]]
        0 <= a < b < groups.len() ==> order::bytes_before(groups[a].0, groups[b].0)
}

/// Whether a pointer's run is there with a number that is no smaller.
pub open spec fn is_covered(pointer: (Seq<u8>, nat), groups: Seq<(Seq<u8>, nat)>) -> bool {
    exists|a: int|
        #![trigger groups[a]]
        0 <= a < groups.len() && groups[a].0 == pointer.0 && pointer.1 <= groups[a].1
}

/// Pointers that are sorted by run are taken together run by run: no run occurs
/// twice, every pointer is covered by its run's number, and every number is that of
/// a pointer.
pub proof fn law_grouped_sorted(pointers: Seq<(Seq<u8>, nat)>)
    requires
        sorted_by_run(pointers),
    ensures
        runs_rise(grouped(pointers)),
        forall|i: int| 0 <= i < pointers.len() ==> is_covered(#[trigger] pointers[i], grouped(pointers)),
        forall|a: int|
            0 <= a < grouped(pointers).len() ==> pointers.contains(#[trigger] grouped(pointers)[a]),
{
    lemma_runs_rise(pointers);
    lemma_covered(pointers);
    lemma_attained(pointers);
}

proof fn lemma_runs_rise(pointers: Seq<(Seq<u8>, nat)>)
    requires
        sorted_by_run(pointers),
    ensures
        runs_rise(grouped(pointers)),
        pointers.len() > 0 ==> grouped(pointers).len() > 0 && grouped(pointers).last().0
            == pointers.last().0,
    decreases pointers.len(),
{
    if pointers.len() > 0 {
        let rest = pointers.drop_last();
        let pointer = pointers.last();
        let groups = grouped(rest);
        let next = grouped(pointers);
        assert forall|i: int, j: int|
            #![trigger rest[i], rest[j]]
            0 <= i < j < rest.len() implies !order::bytes_before(rest[j].0, rest[i].0) by {
            assert(!order::bytes_before(pointers[j].0, pointers[i].0));
        }
        lemma_runs_rise(rest);
        let same = groups.len() > 0 && groups.last().0 == pointer.0;
        if rest.len() > 0 {
            assert(!order::bytes_before(pointers[pointers.len() - 1].0, pointers[rest.len() - 1].0));
            order::law_bytes_order_total(rest.last().0, pointer.0);
        }
        assert forall|a: int, b: int|
            #![trigger next[a], next[b]]
            0 <= a < b < next.len() implies order::bytes_before(next[a].0, next[b].0) by {
            if same {
                assert(next[a].0 == groups[a].0 && next[b].0 == groups[b].0);
            } else if b == groups.len() {
                assert(next[a] == groups[a]);
                if a < groups.len() - 1 {
                    assert(order::bytes_before(groups[a].0, groups[groups.len() - 1].0));
                    order::law_bytes_order_transitive(groups[a].0, groups.last().0, pointer.0);
                }
            } else {
                assert(next[a] == groups[a] && next[b] == groups[b]);
            }
        }
    }
}

proof fn lemma_covered(pointers: Seq<(Seq<u8>, nat)>)
    ensures
        forall|i: int| 0 <= i < pointers.len() ==> is_covered(#[trigger] pointers[i], grouped(pointers)),
    decreases pointers.len(),
{
    if pointers.len() > 0 {
        let rest = pointers.drop_last();
        let groups = grouped(rest);
        let next = grouped(pointers);
        lemma_covered(rest);
        assert forall|i: int| 0 <= i < pointers.len() implies is_covered(#[trigger] pointers[i], next) by {
            if i < rest.len() {
                assert(is_covered(rest[i], groups));
                let a = choose|a: int|
                    #![trigger groups[a]]
                    0 <= a < groups.len() && groups[a].0 == rest[i].0 && rest[i].1 <= groups[a].1;
                assert(next[a].0 == pointers[i].0 && pointers[i].1 <= next[a].1);
            } else {
                let last = next.len() - 1;
                assert(next[last].0 == pointers[i].0 && pointers[i].1 <= next[last].1);
            }
        }
    }
}

proof fn lemma_attained(pointers: Seq<(Seq<u8>, nat)>)
    ensures
        forall|a: int|
            0 <= a < grouped(pointers).len() ==> pointers.contains(#[trigger] grouped(pointers)[a]),
    decreases pointers.len(),
{
    if pointers.len() > 0 {
        let rest = pointers.drop_last();
        let groups = grouped(rest);
        let next = grouped(pointers);
        lemma_attained(rest);
        assert forall|a: int| 0 <= a < next.len() implies pointers.contains(#[trigger] next[a]) by {
            if a < groups.len() && next[a] == groups[a] {
                assert(rest.contains(groups[a]));
                let i = choose|i: int| 0 <= i < rest.len() && rest[i] == groups[a];
                assert(pointers[i] == next[a]);
            } else {
                assert(pointers[pointers.len() - 1] == next[a]);
            }
        }
    }
}

/// The sum of the first `count` lengths.
pub open spec fn total_length(lengths: Seq<u64>, count: int) -> nat
    decreases count,
{
    if count <= 0 {
        0
    } else {
        total_length(lengths, count - 1) + lengths[count - 1] as nat
    }
}

proof fn lemma_total_length_monotone(lengths: Seq<u64>, low: int, high: int)
    requires
        low <= high,
    ensures
        total_length(lengths, low) <= total_length(lengths, high),
    decreases high - low,
{
    if low < high {
        lemma_total_length_monotone(lengths, low, high - 1);
    }
}

/// Where each segment of a stream begins and ends.
pub struct SegmentSpans {
    pub spans: Vec<(u64, u64)>,
}

/// Lays segments one behind the other.
pub fn segment_spans(lengths: &Vec<u64>) -> (result: Result<SegmentSpans, RuntimeError>)
    ensures
        error::failure(result) == (if total_length(lengths@, lengths@.len() as int) > u64::MAX {
            error::protocol_failure("event identifier source offset overflow"@)
        } else {
            None
        }),
        result matches Ok(source) ==> spans_of(source.spans@, lengths@),
{
    let mut spans: Vec<(u64, u64)> = Vec::new();
    let mut start: u64 = 0;
    let mut i: usize = 0;
    while i < lengths.len()
        invariant
            i <= lengths.len(),
            spans@.len() == i,
            start == total_length(lengths@, i as int),
            forall|k: int|
                0 <= k < i ==> (#[trigger] spans@[k]).0 == total_length(lengths@, k) && spans@[k].1
                    == total_length(lengths@, k + 1),
        decreases lengths.len() - i,
    {
        match start.checked_add(lengths[i]) {
            None => {
                proof {
                    lemma_total_length_monotone(lengths@, i + 1, lengths@.len() as int);
                }
                return Err(protocol("event identifier source offset overflow"));
            },
            Some(end) => {
                spans.push((start, end));
                start = end;
            },
        }
        i = i + 1;
    }
    Ok(SegmentSpans { spans })
}

/// Whether spans are those of segments of the given lengths.
pub open spec fn spans_of(spans: Seq<(u64, u64)>, lengths: Seq<u64>) -> bool {
    &&& spans.len() == lengths.len()
    &&& forall|k: int|
        0 <= k < spans.len() ==> (#[trigger] spans[k]).0 == total_length(lengths, k) && spans[k].1
            == total_length(lengths, k + 1)
}

impl SegmentSpans {
    /// The segment that holds an offset, and the offset within it.
    pub fn locate(&self, offset: u64) -> (result: Result<(usize, u64), RuntimeError>)
        ensures
            error::failure(result) == (if exists|k: int| #[trigger] span_holds(self.spans@, k, offset) {
                None
            } else {
                error::protocol_failure("event identifier source offset is outside its segments"@)
            }),
            result matches Ok(place) ==> span_holds(self.spans@, place.0 as int, offset) && place.1
                == offset - self.spans@[place.0 as int].0 && forall|k: int|
                0 <= k < place.0 ==> !#[trigger] span_holds(self.spans@, k, offset),
    {
        let mut i: usize = 0;
        while i < self.spans.len()
            invariant
                i <= self.spans.len(),
                forall|k: int| 0 <= k < i ==> !#[trigger] span_holds(self.spans@, k, offset),
            decreases self.spans.len() - i,
        {
            let span = self.spans[i];
            if span.0 <= offset && offset < span.1 {
                assert(span_holds(self.spans@, i as int, offset));
                return Ok((i, offset - span.0));
            }
            i = i + 1;
        }
        Err(protocol("event identifier source offset is outside its segments"))
    }
}

/// Whether an offset lies in a span.
pub open spec fn span_holds(spans: Seq<(u64, u64)>, index: int, offset: u64) -> bool {
    0 <= index < spans.len() && spans[index].0 <= offset < spans[index].1
}

/// Every offset below the total length lies in exactly one segment.
pub proof fn law_offsets_are_located(lengths: Seq<u64>, spans: Seq<(u64, u64)>, offset: u64)
    requires
        spans_of(spans, lengths),
        offset < total_length(lengths, lengths.len() as int),
    ensures
        exists|k: int| #[trigger] span_holds(spans, k, offset),
        forall|i: int, j: int|
            #![trigger span_holds(spans, i, offset), span_holds(spans, j, offset)]
            span_holds(spans, i, offset) && span_holds(spans, j, offset) ==> i == j,
{
    lemma_some_span(lengths, spans, offset, lengths.len() as int);
    assert forall|i: int, j: int|
        #![trigger span_holds(spans, i, offset), span_holds(spans, j, offset)]
        span_holds(spans, i, offset) && span_holds(spans, j, offset) implies i == j by {
        if i < j {
            lemma_total_length_monotone(lengths, i + 1, j);
        } else if j < i {
            lemma_total_length_monotone(lengths, j + 1, i);
        }
    }
}

proof fn lemma_some_span(lengths: Seq<u64>, spans: Seq<(u64, u64)>, offset: u64, count: int)
    requires
        spans_of(spans, lengths),
        0 <= count <= lengths.len(),
        offset < total_length(lengths, count),
    ensures
        exists|k: int| #[trigger] span_holds(spans, k, offset),
    decreases count,
{
    if count > 0 {
        if offset < total_length(lengths, count - 1) {
            lemma_some_span(lengths, spans, offset, count - 1);
        } else {
            assert(spans[count - 1].1 == total_length(lengths, count));
            assert(span_holds(spans, count - 1, offset));
        }
    }
}

/// How far a scan of an event stream for one sequence number has come.
#[derive(Clone, Copy, Debug, PartialEq, Eq, Structural)]
pub struct CommittedScan {
    pub reached: bool,
    pub offset: u64,
    pub line_number: usize,
}

/// An offset moved on by a number of bytes, as far as it goes.
pub open spec fn moved_on(offset: u64, bytes: nat) -> u64 {
    if offset + bytes > u64::MAX {
        u64::MAX
    } else {
        (offset + bytes) as u64
    }
}

impl CommittedScan {
    /// A scan of which nothing is done.
    pub fn new() -> (scan: CommittedScan)
        ensures
            scan == (CommittedScan { reached: false, offset: 0, line_number: 0 }),
    {
        CommittedScan { reached: false, offset: 0, line_number: 0 }
    }

    /// Takes the next line: true where its event is to be looked at, false where the
    /// sequence number has been reached and the line is only passed over.
    pub fn begin_line(&mut self, line: &[u8]) -> (result: Result<bool, RuntimeError>)
        ensures
            error::failure(result) == (if old(self).reached || (line@.len() > 0 && line@.last() == 10) {
                None
            } else {
                error::protocol_failure("committed event stream must end with LF"@)
            }),
            result matches Ok(look) ==> look == !old(self).reached,
            *final(self) == (if old(self).reached {
                CommittedScan { offset: moved_on(old(self).offset, line@.len()), ..*old(self) }
            } else if old(self).line_number == usize::MAX {
                *old(self)
            } else {
                CommittedScan { line_number: (old(self).line_number + 1) as usize, ..*old(self) }
            }),
    {
        if self.reached {
            self.offset = self.offset.saturating_add(line.len() as u64);
            return Ok(false);
        }
        self.line_number = self.line_number.saturating_add(1);
        if line.len() == 0 || line[line.len() - 1] != 10 {
            return Err(protocol("committed event stream must end with LF"));
        }
        Ok(true)
    }

    /// Takes the sequence number of the event on a line that was looked at.
    pub fn end_line(&mut self, line_bytes: usize, sequence: u64, wanted: u64)
        ensures
            *final(self) == (CommittedScan {
                reached: sequence == wanted,
                offset: moved_on(old(self).offset, line_bytes as nat),
                line_number: old(self).line_number,
            }),
    {
        self.reached = sequence == wanted;
        self.offset = self.offset.saturating_add(line_bytes as u64);
    }

    /// Says at the end of the stream whether the sequence number was reached.
    pub fn finish(&self, run_session_id: &str, wanted: u64) -> (result: Result<(), RuntimeError>)
        ensures
            error::failure(result) == (if self.reached {
                None
            } else {
                error::protocol_failure(
                    "conversation history run "@ + run_session_id@
                        + " has no committed event at sequence "@ + text::decimal(wanted as nat),
                )
            }),
    {
        if self.reached {
            return Ok(());
        }
        let mut message = join3(
            "conversation history run ",
            run_session_id,
            " has no committed event at sequence ",
        );
        let number = decimal_text(wanted);
        append_text(&mut message, number.as_str());
        Err(protocol(message.as_str()))
    }
}

/// The text of an identifier that a record holds.
pub fn decode_index_id(id: &[u8]) -> (result: Result<String, RuntimeError>)
    ensures
        error::failure(result) == (if valid_utf8(id@) {
            None
        } else {
            error::protocol_failure("conversation history index id is not UTF-8"@)
        }),
        result matches Ok(text) ==> text@ == decode_utf8(id@),
{
    match text_from_utf8(id) {
        Ok(text) => Ok(text),
        Err(_) => Err(protocol("conversation history index id is not UTF-8")),
    }
}

} // verus!
