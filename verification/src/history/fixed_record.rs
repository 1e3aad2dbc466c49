//! Reading fixed-width records from a source that may hand out fewer bytes than
//! asked for.

use crate::error::{protocol, ErrorModel, IoKind, RuntimeError};
use crate::error;
use vstd::prelude::*;

verus! {

/// What one read of the source gave.
pub enum ReadOutcome {
    /// Some bytes, at least one.
    Data(Vec<u8>),
    /// The source has no more bytes.
    End,
    /// The read failed.
    Failed { kind: IoKind, message: String },
}

/// How far a record has come.
#[derive(Clone, Copy, Debug, PartialEq, Eq, Structural)]
pub enum RecordProgress {
    /// More bytes are needed.
    Wanting,
    /// The record is complete.
    Complete,
    /// The source ended where a record would begin.
    Ended,
}

/// A record that is being read.
pub struct FixedRecord {
    pub bytes: Vec<u8>,
    pub width: usize,
}

/// What a read outcome makes of a record: how far it has come, or what is wrong.
pub open spec fn record_progress(
    held: nat,
    width: nat,
    outcome: ReadOutcome,
    truncated: Seq<char>,
    path: Seq<char>,
) -> Result<RecordProgress, ErrorModel> {
    match outcome {
        ReadOutcome::Data(bytes) => if held + bytes@.len() == width {
            Ok(RecordProgress::Complete)
        } else {
            Ok(RecordProgress::Wanting)
        },
        ReadOutcome::End => if held == 0 {
            Ok(RecordProgress::Ended)
        } else {
            Err(ErrorModel::Protocol(truncated))
        },
        ReadOutcome::Failed { kind, message } => Err(
            ErrorModel::Io { path, kind, message: message@ },
        ),
    }
}

impl FixedRecord {
    /// The record holds at most as many bytes as it is wide.
    pub open spec fn wf(self) -> bool {
        self.bytes@.len() <= self.width
    }

    /// A record of which nothing has been read.
    pub fn new(width: usize) -> (record: FixedRecord)
        ensures
            record.wf(),
            record.width == width,
            record.bytes@ == Seq::<u8>::empty(),
    {
        FixedRecord { bytes: Vec::new(), width }
    }

    /// How many bytes are missing.
    pub fn missing(&self) -> (count: usize)
        requires
            self.wf(),
        ensures
            count == self.width - self.bytes@.len(),
    {
        self.width - self.bytes.len()
    }

    /// Takes account of one read, which was asked for at most the missing bytes.
    pub fn observe(&mut self, outcome: ReadOutcome, truncated: &str, path: &str) -> (result: Result<
        RecordProgress,
        RuntimeError,
    >)
        requires
            old(self).wf(),
            outcome matches ReadOutcome::Data(bytes) ==> 1 <= bytes@.len() <= old(self).width - old(
                self,
            ).bytes@.len(),
        ensures
            final(self).wf(),
            final(self).width == old(self).width,
            final(self).bytes@ == (match outcome {
                ReadOutcome::Data(bytes) => old(self).bytes@ + bytes@,
                _ => old(self).bytes@,
            }),
            match record_progress(
                old(self).bytes@.len(),
                old(self).width as nat,
                outcome,
                truncated@,
                path@,
            ) {
                Ok(progress) => result == Ok::<RecordProgress, RuntimeError>(progress),
                Err(error) => error::failure(result) == Some(error),
            },
    {
        match outcome {
            ReadOutcome::Data(bytes) => {
                let mut bytes = bytes;
                self.bytes.append(&mut bytes);
                if self.bytes.len() == self.width {
                    Ok(RecordProgress::Complete)
                } else {
                    Ok(RecordProgress::Wanting)
                }
            },
            ReadOutcome::End => {
                if self.bytes.len() == 0 {
                    Ok(RecordProgress::Ended)
                } else {
                    Err(protocol(truncated))
                }
            },
            ReadOutcome::Failed { kind, message } => Err(
                RuntimeError::Io { path: path.to_owned(), kind, message },
            ),
        }
    }
}

/// A failed read is reported as such whatever has been read: it is neither the end
/// of the source nor a truncated record.
pub proof fn law_read_failure_is_reported(
    held: nat,
    width: nat,
    kind: IoKind,
    message: String,
    truncated: Seq<char>,
    path: Seq<char>,
)
    ensures
        record_progress(
            held,
            width,
            ReadOutcome::Failed { kind, message },
            truncated,
            path,
        ) == Err::<RecordProgress, ErrorModel>(ErrorModel::Io { path, kind, message: message@ }),
{
}

/// A source of bytes that may hand out fewer than it is asked for, as a file may.
pub trait RecordSource: Sized {
    /// Whether a source that was asked for at most so many bytes may give this and be the
    /// other source from there on. Anything may come of a source that does not say more.
    open spec fn step(before: Self, wanted: int, outcome: ReadOutcome, after: Self) -> bool {
        true
    }

    /// Reads at most so many bytes, of which at least one is asked for.
    fn read(&mut self, wanted: usize) -> (outcome: ReadOutcome)
        requires
            wanted >= 1,
        ensures
            outcome matches ReadOutcome::Data(bytes) ==> 1 <= bytes@.len() <= wanted,
            Self::step(*old(self), wanted as int, outcome, *final(self)),
    ;
}

/// How many bytes a read gave.
pub open spec fn taken(outcome: ReadOutcome) -> nat {
    match outcome {
        ReadOutcome::Data(bytes) => bytes@.len(),
        _ => 0,
    }
}

/// Whether these are the reads that a source gave one behind the other, each asked for
/// all that was still missing, and the other source is what they left of it.
pub open spec fn source_gave<S: RecordSource>(
    before: S,
    missing: int,
    reads: Seq<ReadOutcome>,
    after: S,
) -> bool
    decreases reads.len(),
{
    if reads.len() == 0 {
        before == after
    } else {
        exists|next: S|
            #![trigger S::step(before, missing, reads[0], next)]
            S::step(before, missing, reads[0], next) && source_gave(
                next,
                missing - taken(reads[0]),
                reads.skip(1),
                after,
            )
    }
}

/// Whether a read gives the first of some bytes, as many as it likes of those asked for,
/// and the end where there are none left.
pub open spec fn gives_first(
    bytes: Seq<u8>,
    end: ReadOutcome,
    wanted: int,
    outcome: ReadOutcome,
) -> bool {
    if bytes.len() == 0 {
        outcome == end
    } else {
        &&& outcome matches ReadOutcome::Data(data)
        &&& 1 <= data@.len() <= bytes.len()
        &&& data@.len() <= wanted
        &&& data@ == bytes.take(data@.len() as int)
    }
}

/// Whether a source hands out exactly these bytes, in pieces of any size, and then ends:
/// either there is no more or a read fails.
pub open spec fn delivers<S: RecordSource>(source: S, bytes: Seq<u8>, end: ReadOutcome) -> bool
    decreases bytes.len(),
{
    &&& end !is Data
    &&& forall|wanted: int, outcome: ReadOutcome, after: S|
        #![trigger S::step(source, wanted, outcome, after)]
        wanted >= 1 && S::step(source, wanted, outcome, after) ==> {
            &&& gives_first(bytes, end, wanted, outcome)
            &&& bytes.len() > 0 && 1 <= taken(outcome) <= bytes.len() ==> delivers(
                after,
                bytes.skip(taken(outcome) as int),
                end,
            )
        }
}

/// Bytes in memory, handed out in pieces of at most a given size.
pub struct PieceSource {
    pub bytes: Vec<u8>,
    pub read: usize,
    pub piece: usize,
}

impl PieceSource {
    /// The bytes that have not been handed out.
    pub open spec fn left(self) -> Seq<u8> {
        if self.read < self.bytes@.len() {
            self.bytes@.skip(self.read as int)
        } else {
            Seq::empty()
        }
    }

    /// How many bytes a read hands out that asks for so many.
    pub open spec fn given(self, wanted: int) -> int {
        let left = self.left().len() as int;
        let most = if wanted < left {
            wanted
        } else {
            left
        };
        if 1 <= self.piece < most {
            self.piece as int
        } else {
            most
        }
    }

    /// A source that hands out some bytes and ends.
    pub fn new(bytes: Vec<u8>, piece: usize) -> (source: PieceSource)
        ensures
            source == (PieceSource { bytes, read: 0, piece }),
            delivers(source, bytes@, ReadOutcome::End),
    {
        let source = PieceSource { bytes, read: 0, piece };
        proof {
            law_pieces_are_delivered(source);
            assert(source.left() =~= bytes@);
        }
        source
    }
}

impl RecordSource for PieceSource {
    open spec fn step(
        before: PieceSource,
        wanted: int,
        outcome: ReadOutcome,
        after: PieceSource,
    ) -> bool {
        &&& gives_first(before.left(), ReadOutcome::End, wanted, outcome)
        &&& taken(outcome) == before.given(wanted)
        &&& after.left() == before.left().skip(taken(outcome) as int)
        &&& after.bytes == before.bytes
        &&& after.piece == before.piece
    }

    fn read(&mut self, wanted: usize) -> (outcome: ReadOutcome) {
        let left: usize = if self.read < self.bytes.len() {
            self.bytes.len() - self.read
        } else {
            0
        };
        if left == 0 {
            assert(self.left().skip(0) =~= self.left());
            return ReadOutcome::End;
        }
        let mut count: usize = if wanted < left {
            wanted
        } else {
            left
        };
        if self.piece >= 1 && self.piece < count {
            count = self.piece;
        }
        let piece = vstd::slice::slice_to_vec(
            vstd::slice::slice_subrange(self.bytes.as_slice(), self.read, self.read + count),
        );
        self.read = self.read + count;
        assert(piece@ =~= old(self).left().take(count as int));
        assert(self.left() =~= old(self).left().skip(count as int));
        ReadOutcome::Data(piece)
    }
}

/// Bytes in memory are handed out whatever the size of the pieces.
pub proof fn law_pieces_are_delivered(source: PieceSource)
    ensures
        delivers(source, source.left(), ReadOutcome::End),
    decreases source.left().len(),
{
    assert forall|wanted: int, outcome: ReadOutcome, after: PieceSource|
        #![trigger PieceSource::step(source, wanted, outcome, after)]
        wanted >= 1 && PieceSource::step(source, wanted, outcome, after) && source.left().len() > 0
            && 1 <= taken(outcome) <= source.left().len() implies delivers(
        after,
        source.left().skip(taken(outcome) as int),
        ReadOutcome::End,
    ) by {
        law_pieces_are_delivered(after);
    }
}

/// The bytes that reads gave, up to the first that gave none.
pub open spec fn read_bytes(reads: Seq<ReadOutcome>) -> Seq<u8>
    decreases reads.len(),
{
    if reads.len() == 0 {
        Seq::empty()
    } else {
        match reads[0] {
            ReadOutcome::Data(bytes) => bytes@ + read_bytes(reads.skip(1)),
            _ => Seq::empty(),
        }
    }
}

/// What reads come to that were made one behind the other, each of at most what was
/// missing, until the record was complete or nothing more came.
pub open spec fn record_of(
    held: Seq<u8>,
    width: nat,
    reads: Seq<ReadOutcome>,
    truncated: Seq<char>,
    path: Seq<char>,
) -> Result<Option<Seq<u8>>, ErrorModel>
    decreases reads.len(),
{
    if held.len() == width || reads.len() == 0 {
        Ok(Some(held))
    } else {
        match record_progress(held.len(), width, reads[0], truncated, path) {
            Err(error) => Err(error),
            Ok(RecordProgress::Ended) => Ok(None),
            Ok(_) => record_of(
                held + reads[0]->Data_0@,
                width,
                reads.skip(1),
                truncated,
                path,
            ),
        }
    }
}

/// Whether reads were made until a record was complete or nothing more came.
pub open spec fn reads_end(held: nat, width: nat, reads: Seq<ReadOutcome>) -> bool
    decreases reads.len(),
{
    if held == width {
        reads.len() == 0
    } else {
        &&& reads.len() > 0
        &&& match reads[0] {
            ReadOutcome::Data(bytes) => {
                &&& 1 <= bytes@.len() <= width - held
                &&& reads_end(held + bytes@.len(), width, reads.skip(1))
            },
            _ => reads.len() == 1,
        }
    }
}

/// A record that was read: nothing where the source ended before it began, and else as
/// many bytes as it is wide; and the reads that were made for it.
pub struct RecordRead {
    pub record: Result<Option<Vec<u8>>, RuntimeError>,
    pub reads: Ghost<Seq<ReadOutcome>>,
}

/// A record that was read, as its bytes.
pub open spec fn record_view(record: Result<Option<Vec<u8>>, RuntimeError>) -> Result<
    Option<Seq<u8>>,
    ErrorModel,
> {
    match record {
        Ok(Some(bytes)) => Ok(Some(bytes@)),
        Ok(None) => Ok(None),
        Err(error) => Err(error@),
    }
}

proof fn lemma_reads_go_on(
    held: Seq<u8>,
    width: nat,
    before: Seq<ReadOutcome>,
    last: ReadOutcome,
    truncated: Seq<char>,
    path: Seq<char>,
)
    requires
        held.len() <= width,
        reads_so_far(held.len(), width, before),
    ensures
        ({
            let now = held + read_bytes(before);
            &&& now.len() < width ==> (reads_so_far(held.len(), width, before.push(last)) <==> (
            last matches ReadOutcome::Data(bytes) && 1 <= bytes@.len() <= width - now.len()))
            &&& now.len() < width ==> (reads_end(held.len(), width, before.push(last)) <==> (
            last matches ReadOutcome::Data(bytes) ==> bytes@.len() == width - now.len()))
            &&& now.len() == width ==> reads_end(held.len(), width, before)
            &&& now.len() <= width
            &&& last matches ReadOutcome::Data(bytes) ==> read_bytes(before.push(last))
                == read_bytes(before) + bytes@
            &&& record_of(held, width, before, truncated, path) == Ok::<
                Option<Seq<u8>>,
                ErrorModel,
            >(Some(now))
            &&& now.len() < width ==> record_of(held, width, before.push(last), truncated, path)
                == record_of(now, width, seq![last], truncated, path)
        }),
    decreases before.len(),
{
    if before.len() > 0 {
        let first = before[0]->Data_0@;
        assert(before.push(last).skip(1) =~= before.skip(1).push(last));
        lemma_reads_go_on(held + first, width, before.skip(1), last, truncated, path);
        assert((held + first) + read_bytes(before.skip(1)) =~= held + read_bytes(before));
        if let ReadOutcome::Data(bytes) = last {
            assert(read_bytes(before.push(last)) =~= read_bytes(before) + bytes@);
        }
    } else {
        reveal_with_fuel(read_bytes, 2);
        reveal_with_fuel(reads_end, 2);
        reveal_with_fuel(reads_so_far, 2);
        reveal_with_fuel(record_of, 2);
        assert(before.push(last) =~= seq![last]);
        assert(before.push(last).skip(1) =~= Seq::<ReadOutcome>::empty());
        assert(held + read_bytes(before) =~= held);
        if let ReadOutcome::Data(bytes) = last {
            assert(read_bytes(before.push(last)) =~= read_bytes(before) + bytes@);
        }
    }
}

/// Whether reads gave bytes, and no more than were missing.
pub open spec fn reads_so_far(held: nat, width: nat, reads: Seq<ReadOutcome>) -> bool
    decreases reads.len(),
{
    reads.len() == 0 || {
        &&& reads[0] matches ReadOutcome::Data(bytes)
        &&& 1 <= bytes@.len() <= width - held
        &&& reads_so_far(held + bytes@.len(), width, reads.skip(1))
    }
}

/// What a record is that is read from a source which hands out these bytes and ends.
pub open spec fn delivered_record(
    bytes: Seq<u8>,
    end: ReadOutcome,
    width: nat,
    truncated: Seq<char>,
    path: Seq<char>,
) -> Result<Option<Seq<u8>>, ErrorModel> {
    if bytes.len() >= width {
        Ok(Some(bytes.take(width as int)))
    } else {
        match end {
            ReadOutcome::Failed { kind, message } => Err(
                ErrorModel::Io { path, kind, message: message@ },
            ),
            _ => if bytes.len() == 0 {
                Ok(None)
            } else {
                Err(ErrorModel::Protocol(truncated))
            },
        }
    }
}

proof fn lemma_source_goes_on<S: RecordSource>(
    before: S,
    missing: int,
    reads: Seq<ReadOutcome>,
    between: S,
    last: ReadOutcome,
    after: S,
)
    requires
        source_gave(before, missing, reads, between),
        forall|k: int| 0 <= k < reads.len() ==> (#[trigger] reads[k]) is Data,
        S::step(between, missing - read_bytes(reads).len(), last, after),
    ensures
        source_gave(before, missing, reads.push(last), after),
    decreases reads.len(),
{
    if reads.len() == 0 {
        reveal_with_fuel(source_gave, 2);
        assert(reads.push(last)[0] == last);
        assert(reads.push(last).skip(1) =~= Seq::<ReadOutcome>::empty());
        assert(S::step(before, missing, reads.push(last)[0], after));
    } else {
        let next = choose|next: S|
            #![trigger S::step(before, missing, reads[0], next)]
            S::step(before, missing, reads[0], next) && source_gave(
                next,
                missing - taken(reads[0]),
                reads.skip(1),
                between,
            );
        assert forall|k: int| 0 <= k < reads.skip(1).len() implies (#[trigger] reads.skip(
            1,
        )[k]) is Data by {
            assert(reads[k + 1] is Data);
        }
        assert(reads[0] is Data);
        lemma_source_goes_on(next, missing - taken(reads[0]), reads.skip(1), between, last, after);
        assert(reads.push(last).skip(1) =~= reads.skip(1).push(last));
        assert(reads.push(last)[0] == reads[0]);
        assert(S::step(before, missing, reads.push(last)[0], next));
    }
}

proof fn lemma_delivered_record<S: RecordSource>(
    before: S,
    held: Seq<u8>,
    width: nat,
    reads: Seq<ReadOutcome>,
    after: S,
    bytes: Seq<u8>,
    end: ReadOutcome,
    truncated: Seq<char>,
    path: Seq<char>,
)
    requires
        held.len() <= width,
        reads_end(held.len(), width, reads),
        source_gave(before, width - held.len(), reads, after),
        delivers(before, bytes, end),
    ensures
        record_of(held, width, reads, truncated, path) == delivered_record(
            held + bytes,
            end,
            width,
            truncated,
            path,
        ),
        held.len() + bytes.len() >= width ==> delivers(
            after,
            bytes.skip(width - held.len()),
            end,
        ),
    decreases reads.len(),
{
    if held.len() == width {
        assert((held + bytes).take(width as int) =~= held);
        assert(bytes.skip(0) =~= bytes);
    } else {
        let missing = width - held.len();
        let next = choose|next: S|
            #![trigger S::step(before, missing, reads[0], next)]
            S::step(before, missing, reads[0], next) && source_gave(
                next,
                missing - taken(reads[0]),
                reads.skip(1),
                after,
            );
        assert(S::step(before, missing, reads[0], next));
        assert(gives_first(bytes, end, missing, reads[0]));
        if let ReadOutcome::Data(data) = reads[0] {
            let rest = bytes.skip(data@.len() as int);
            assert(bytes.len() > 0);
            lemma_delivered_record(
                next,
                held + data@,
                width,
                reads.skip(1),
                after,
                rest,
                end,
                truncated,
                path,
            );
            assert((held + data@) + rest =~= held + bytes);
            if held.len() + bytes.len() >= width {
                assert(rest.skip(width - (held + data@).len()) =~= bytes.skip(
                    width - held.len(),
                ));
            }
        } else {
            assert(bytes.len() == 0);
            assert(held + bytes =~= held);
        }
    }
}

proof fn lemma_every_delivery<S: RecordSource>(
    before: S,
    width: nat,
    reads: Seq<ReadOutcome>,
    after: S,
    truncated: Seq<char>,
    path: Seq<char>,
)
    requires
        reads_end(0, width, reads),
        source_gave(before, width as int, reads, after),
    ensures
        forall|bytes: Seq<u8>, end: ReadOutcome| #[trigger]
            delivers(before, bytes, end) ==> {
                &&& record_of(Seq::empty(), width, reads, truncated, path) == delivered_record(
                    bytes,
                    end,
                    width,
                    truncated,
                    path,
                )
                &&& bytes.len() >= width ==> delivers(after, bytes.skip(width as int), end)
            },
{
    let none = Seq::<u8>::empty();
    assert forall|bytes: Seq<u8>, end: ReadOutcome| #[trigger]
        delivers(before, bytes, end) implies {
        &&& record_of(none, width, reads, truncated, path) == delivered_record(
            bytes,
            end,
            width,
            truncated,
            path,
        )
        &&& bytes.len() >= width ==> delivers(after, bytes.skip(width as int), end)
    } by {
        lemma_delivered_record(before, none, width, reads, after, bytes, end, truncated, path);
        assert(none + bytes =~= bytes);
    }
}

/// Reads a record from a source, however few bytes it hands out at a time. Where the
/// source hands out certain bytes and ends, the record is the first of them, exactly those
/// are taken, and the next record begins behind them.
pub fn read_fixed_record<S: RecordSource>(
    source: &mut S,
    width: usize,
    truncated: &str,
    path: &str,
) -> (read: RecordRead)
    ensures
        reads_end(0, width as nat, read.reads@),
        record_view(read.record) == record_of(
            Seq::empty(),
            width as nat,
            read.reads@,
            truncated@,
            path@,
        ),
        source_gave(*old(source), width as int, read.reads@, *final(source)),
        forall|bytes: Seq<u8>, end: ReadOutcome| #[trigger]
            delivers(*old(source), bytes, end) ==> {
                &&& record_view(read.record) == delivered_record(
                    bytes,
                    end,
                    width as nat,
                    truncated@,
                    path@,
                )
                &&& bytes.len() >= width ==> delivers(
                    *final(source),
                    bytes.skip(width as int),
                    end,
                )
            },
{
    let ghost start = *source;
    let mut record = FixedRecord::new(width);
    let ghost none: Seq<u8> = Seq::empty();
    let mut reads: Ghost<Seq<ReadOutcome>> = Ghost(Seq::empty());
    while record.missing() > 0
        invariant
            none == Seq::<u8>::empty(),
            record.wf(),
            record.width == width,
            reads_so_far(0, width as nat, reads@),
            record.bytes@ == none + read_bytes(reads@),
            forall|k: int| 0 <= k < reads@.len() ==> (#[trigger] reads@[k]) is Data,
            source_gave(start, width as int, reads@, *source),
            start == *old(source),
        decreases width - record.bytes@.len(),
    {
        let ghost between = *source;
        let outcome = source.read(record.missing());
        let ghost before = reads@;
        let ghost held = record.bytes@;
        proof {
            lemma_reads_go_on(none, width as nat, before, outcome, truncated@, path@);
            lemma_source_goes_on(start, width as int, before, between, outcome, *source);
            reads@ = before.push(outcome);
        }
        match record.observe(outcome, truncated, path) {
            Err(error) => {
                proof {
                    lemma_every_delivery(start, width as nat, reads@, *source, truncated@, path@);
                }
                return RecordRead { record: Err(error), reads };
            },
            Ok(RecordProgress::Ended) => {
                proof {
                    lemma_every_delivery(start, width as nat, reads@, *source, truncated@, path@);
                }
                return RecordRead { record: Ok(None), reads };
            },
            Ok(_) => {
                assert(record.bytes@ =~= none + read_bytes(reads@));
            },
        }
    }
    proof {
        lemma_reads_go_on(none, width as nat, reads@, ReadOutcome::End, truncated@, path@);
        lemma_every_delivery(start, width as nat, reads@, *source, truncated@, path@);
    }
    RecordRead { record: Ok(Some(record.bytes)), reads }
}

/// A record does not depend on the pieces in which its bytes come: of two sources that
/// hand out the same bytes and end alike, both give the same record, the same end, the same
/// truncation or the same failure, and a record that is whole leaves both with what lies
/// behind it.
pub proof fn law_record_does_not_depend_on_pieces<S: RecordSource, T: RecordSource>(
    bytes: Seq<u8>,
    end: ReadOutcome,
    width: nat,
    left: S,
    left_reads: Seq<ReadOutcome>,
    left_after: S,
    right: T,
    right_reads: Seq<ReadOutcome>,
    right_after: T,
    truncated: Seq<char>,
    path: Seq<char>,
)
    requires
        delivers(left, bytes, end),
        delivers(right, bytes, end),
        reads_end(0, width, left_reads),
        reads_end(0, width, right_reads),
        source_gave(left, width as int, left_reads, left_after),
        source_gave(right, width as int, right_reads, right_after),
    ensures
        record_of(Seq::empty(), width, left_reads, truncated, path) == delivered_record(
            bytes,
            end,
            width,
            truncated,
            path,
        ),
        record_of(Seq::empty(), width, right_reads, truncated, path) == record_of(
            Seq::empty(),
            width,
            left_reads,
            truncated,
            path,
        ),
        bytes.len() >= width ==> delivers(left_after, bytes.skip(width as int), end) && delivers(
            right_after,
            bytes.skip(width as int),
            end,
        ),
{
    lemma_every_delivery(left, width, left_reads, left_after, truncated, path);
    lemma_every_delivery(right, width, right_reads, right_after, truncated, path);
}

} // verus!
