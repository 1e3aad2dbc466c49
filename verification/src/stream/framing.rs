//! Lines and where they end.

use crate::contract::{MAX_CONVERSATION_SCAN_BYTES, MAX_CONVERSATION_SCAN_RECORDS};
use crate::error::{protocol, RuntimeError};
use crate::error;
use vstd::prelude::*;

verus! {

/// The byte that ends a line.
pub const LINE_FEED: u8 = 10;

/// The byte that must not stand before a line's end.
pub const CARRIAGE_RETURN: u8 = 13;

/// How many bytes lie up to and with the last line end.
pub open spec fn complete_prefix(bytes: Seq<u8>) -> nat
    decreases bytes.len(),
{
    if bytes.len() == 0 {
        0
    } else if bytes.last() == LINE_FEED {
        bytes.len()
    } else {
        complete_prefix(bytes.drop_last())
    }
}

/// How many bytes of a stream belong to complete lines.
pub fn complete_jsonl_prefix_len(bytes: &[u8]) -> (length: usize)
    ensures
        length == complete_prefix(bytes@),
        length <= bytes@.len(),
{
    let mut length: usize = bytes.len();
    assert(bytes@.take(length as int) =~= bytes@);
    while length > 0
        invariant
            length <= bytes.len(),
            complete_prefix(bytes@) == complete_prefix(bytes@.take(length as int)),
        decreases length,
    {
        let ghost head = bytes@.take(length as int);
        assert(head.last() == bytes@[length - 1]);
        if bytes[length - 1] == LINE_FEED {
            return length;
        }
        assert(head.drop_last() =~= bytes@.take(length - 1));
        length = length - 1;
    }
    length
}

/// The complete prefix is empty or ends with a line end; no line end follows it;
/// and it is complete itself.
pub proof fn law_complete_prefix(bytes: Seq<u8>)
    ensures
        complete_prefix(bytes) <= bytes.len(),
        complete_prefix(bytes) > 0 ==> bytes[complete_prefix(bytes) - 1] == LINE_FEED,
        forall|i: int| complete_prefix(bytes) <= i < bytes.len() ==> #[trigger] bytes[i] != LINE_FEED,
        complete_prefix(bytes.take(complete_prefix(bytes) as int)) == complete_prefix(bytes),
    decreases bytes.len(),
{
    if bytes.len() > 0 {
        let rest = bytes.drop_last();
        law_complete_prefix(rest);
        if bytes.last() == LINE_FEED {
            assert(bytes.take(bytes.len() as int) =~= bytes);
        } else {
            let length = complete_prefix(bytes) as int;
            assert(rest.take(length) =~= bytes.take(length));
            assert forall|i: int| length <= i < bytes.len() implies #[trigger] bytes[i] != LINE_FEED by {
                if i < rest.len() {
                    assert(rest[i] == bytes[i]);
                }
            }
        }
    }
}

/// More bytes never make a complete prefix shorter: what was complete stays so
/// when a stream grows.
pub proof fn law_complete_prefix_grows(bytes: Seq<u8>, more: Seq<u8>)
    ensures
        complete_prefix(bytes) <= complete_prefix(bytes + more),
    decreases more.len(),
{
    law_complete_prefix(bytes);
    let whole = bytes + more;
    if more.len() > 0 {
        assert(whole.last() == more.last());
        assert(whole.drop_last() =~= bytes + more.drop_last());
        law_complete_prefix_grows(bytes, more.drop_last());
    } else {
        assert(whole =~= bytes);
    }
}

/// How many bytes lie up to and with the first line end, or all of them.
pub open spec fn first_line(bytes: Seq<u8>) -> nat
    decreases bytes.len(),
{
    if bytes.len() == 0 {
        0
    } else if bytes[0] == LINE_FEED {
        1
    } else {
        1 + first_line(bytes.skip(1))
    }
}

/// What it takes for a length to be that of the first line.
pub proof fn lemma_first_line(bytes: Seq<u8>, length: int)
    requires
        0 <= length <= bytes.len(),
        forall|i: int| 0 <= i < length ==> #[trigger] bytes[i] != LINE_FEED,
    ensures
        length < bytes.len() && bytes[length] == LINE_FEED ==> first_line(bytes) == length + 1,
        length == bytes.len() ==> first_line(bytes) == length,
    decreases length,
{
    if length > 0 {
        let rest = bytes.skip(1);
        assert forall|i: int| 0 <= i < length - 1 implies #[trigger] rest[i] != LINE_FEED by {
            assert(bytes[i + 1] != LINE_FEED);
        }
        lemma_first_line(rest, length - 1);
    }
}

/// Splits bytes into lines, each with its end; the last may lack one.
pub open spec fn lines_of(bytes: Seq<u8>) -> Seq<Seq<u8>>
    decreases bytes.len(),
{
    if bytes.len() == 0 {
        Seq::empty()
    } else {
        let length = first_line(bytes) as int;
        proof {
            lemma_first_line_bounds(bytes);
        }
        seq![bytes.take(length)] + lines_of(bytes.skip(length))
    }
}

/// The first line of some bytes is not empty.
pub proof fn lemma_first_line_bounds(bytes: Seq<u8>)
    ensures
        first_line(bytes) <= bytes.len(),
        bytes.len() > 0 ==> first_line(bytes) >= 1,
    decreases bytes.len(),
{
    if bytes.len() > 0 && bytes[0] != LINE_FEED {
        lemma_first_line_bounds(bytes.skip(1));
    }
}

/// The length of the first line.
pub fn line_length(bytes: &[u8]) -> (length: usize)
    ensures
        length == first_line(bytes@),
        length <= bytes@.len(),
        bytes@.len() > 0 ==> length >= 1,
{
    let mut i: usize = 0;
    while i < bytes.len()
        invariant
            i <= bytes.len(),
            forall|k: int| 0 <= k < i ==> #[trigger] bytes@[k] != LINE_FEED,
        decreases bytes.len() - i,
    {
        if bytes[i] == LINE_FEED {
            proof {
                lemma_first_line(bytes@, i as int);
            }
            return i + 1;
        }
        i = i + 1;
    }
    proof {
        lemma_first_line(bytes@, i as int);
    }
    i
}

/// Lines put one behind the other.
pub open spec fn joined(lines: Seq<Seq<u8>>) -> Seq<u8>
    decreases lines.len(),
{
    if lines.len() == 0 {
        Seq::empty()
    } else {
        lines[0] + joined(lines.skip(1))
    }
}

/// Splitting loses nothing: the lines put together are the bytes.
pub proof fn law_lines_join(bytes: Seq<u8>)
    ensures
        joined(lines_of(bytes)) == bytes,
    decreases bytes.len(),
{
    if bytes.len() > 0 {
        let length = first_line(bytes) as int;
        lemma_first_line_bounds(bytes);
        law_lines_join(bytes.skip(length));
        let lines = lines_of(bytes);
        assert(lines[0] == bytes.take(length));
        assert(lines.skip(1) =~= lines_of(bytes.skip(length)));
        assert(joined(lines) =~= bytes);
    }
}

/// A line that is put together from the pieces that a source hands out.
pub struct LineAssembly {
    pub line: Vec<u8>,
    pub maximum: usize,
}

impl LineAssembly {
    /// The pieces so far hold no line end, and are no longer than a line may be.
    pub open spec fn wf(self) -> bool {
        &&& self.line@.len() <= self.maximum + 1
        &&& forall|i: int| 0 <= i < self.line@.len() ==> #[trigger] self.line@[i] != LINE_FEED
    }

    /// A line of which nothing is there.
    pub fn new(maximum: usize) -> (assembly: LineAssembly)
        ensures
            assembly.wf(),
            assembly.line@.len() == 0,
            assembly.maximum == maximum,
    {
        LineAssembly { line: Vec::new(), maximum }
    }

    /// Takes bytes up to the next line end. Gives how many were taken and the line,
    /// where it is complete; a line may be one byte longer than the maximum, for
    /// its end.
    pub fn take(&mut self, available: &[u8], exceeded: &str) -> (result: Result<
        (usize, Option<Vec<u8>>),
        RuntimeError,
    >)
        requires
            old(self).wf(),
            old(self).maximum < usize::MAX,
        ensures
            error::failure(result) == (if old(self).line@.len() + first_line(available@) > old(
                self,
            ).maximum + 1 {
                error::protocol_failure(exceeded@)
            } else {
                None
            }),
            final(self).maximum == old(self).maximum,
            result matches Ok(taken) ==> {
                let piece = available@.take(first_line(available@) as int);
                &&& final(self).wf()
                &&& taken.0 == first_line(available@)
                &&& taken.0 <= available@.len()
                &&& if piece.len() > 0 && piece.last() == LINE_FEED {
                    &&& taken.1 is Some
                    &&& taken.1->0@ == old(self).line@ + piece
                    &&& final(self).line@.len() == 0
                } else {
                    &&& taken.1 is None
                    &&& final(self).line@ == old(self).line@ + piece
                }
            },
    {
        let length = line_length(available);
        if length > self.maximum + 1 - self.line.len() {
            return Err(protocol(exceeded));
        }
        let ghost before = self.line@;
        let ghost piece = available@.take(length as int);
        let mut i: usize = 0;
        while i < length
            invariant
                i <= length <= available.len(),
                self.line@ =~= before + available@.take(i as int),
                self.maximum == old(self).maximum,
            decreases length - i,
        {
            self.line.push(available[i]);
            i = i + 1;
        }
        proof {
            lemma_first_line_content(available@);
        }
        if length > 0 && available[length - 1] == LINE_FEED {
            let mut line: Vec<u8> = Vec::new();
            std::mem::swap(&mut line, &mut self.line);
            Ok((length, Some(line)))
        } else {
            proof {
                assert forall|k: int| 0 <= k < self.line@.len() implies #[trigger] self.line@[k]
                    != LINE_FEED by {
                    if k >= before.len() {
                        assert(self.line@[k] == available@[k - before.len()]);
                    } else {
                        assert(self.line@[k] == before[k]);
                    }
                }
            }
            Ok((length, None))
        }
    }
}

/// A line end stands only at the end of the first line.
pub proof fn lemma_first_line_content(bytes: Seq<u8>)
    ensures
        forall|i: int| 0 <= i < first_line(bytes) - 1 ==> #[trigger] bytes[i] != LINE_FEED,
        first_line(bytes) > 0 && bytes[first_line(bytes) - 1] != LINE_FEED ==> first_line(bytes)
            == bytes.len(),
    decreases bytes.len(),
{
    if bytes.len() > 0 && bytes[0] != LINE_FEED {
        let rest = bytes.skip(1);
        lemma_first_line_content(rest);
        lemma_first_line_bounds(rest);
        assert forall|i: int| 0 <= i < first_line(bytes) - 1 implies #[trigger] bytes[i]
            != LINE_FEED by {
            if i > 0 {
                assert(rest[i - 1] == bytes[i]);
            }
        }
        if first_line(bytes) > 1 {
            assert(rest[first_line(rest) - 1] == bytes[first_line(bytes) - 1]);
        }
    }
}

/// How much of a scan has been done at a time.
#[derive(Clone, Copy, Debug, PartialEq, Eq, Structural)]
pub struct ConversationScanQuantum {
    pub entries: usize,
    pub stored_bytes: u64,
}

/// What a finished quantum had read.
#[derive(Clone, Copy, Debug, PartialEq, Eq, Structural)]
pub struct ConversationScanMetrics {
    pub entries: usize,
    pub stored_bytes: u64,
}

impl ConversationScanQuantum {
    /// A quantum stays within its limits.
    pub open spec fn wf(self) -> bool {
        self.entries <= MAX_CONVERSATION_SCAN_RECORDS && self.stored_bytes
            <= MAX_CONVERSATION_SCAN_BYTES
    }

    /// A quantum in which nothing is done.
    pub fn new() -> (quantum: ConversationScanQuantum)
        ensures
            quantum.wf(),
            quantum == (ConversationScanQuantum { entries: 0, stored_bytes: 0 }),
    {
        ConversationScanQuantum { entries: 0, stored_bytes: 0 }
    }

    /// Whether a record of some bytes needs a new quantum.
    pub open spec fn overflows(self, bytes: nat) -> bool {
        self.entries == MAX_CONVERSATION_SCAN_RECORDS || self.stored_bytes + bytes
            > MAX_CONVERSATION_SCAN_BYTES
    }

    /// The quantum with a record taken: a new one where it does not fit.
    pub open spec fn after(self, stored_bytes: nat) -> ConversationScanQuantum {
        if self.overflows(stored_bytes) {
            ConversationScanQuantum { entries: 1, stored_bytes: stored_bytes as u64 }
        } else {
            ConversationScanQuantum {
                entries: (self.entries + 1) as usize,
                stored_bytes: (self.stored_bytes + stored_bytes) as u64,
            }
        }
    }

    /// Takes a record; gives the quantum that was finished to make room for it.
    pub fn admit_record(&mut self, stored_bytes: usize) -> (result: Result<
        Option<ConversationScanMetrics>,
        RuntimeError,
    >)
        requires
            old(self).wf(),
        ensures
            final(self).wf(),
            error::failure(result) == (if stored_bytes > MAX_CONVERSATION_SCAN_BYTES {
                error::protocol_failure("conversation record exceeds one scan quantum"@)
            } else {
                None
            }),
            result is Err ==> *final(self) == *old(self),
            result matches Ok(finished) ==> {
                &&& *final(self) == old(self).after(stored_bytes as nat)
                &&& finished == (if old(self).overflows(stored_bytes as nat) && !(old(self).entries
                    == 0 && old(self).stored_bytes == 0) {
                    Some(
                        ConversationScanMetrics {
                            entries: old(self).entries,
                            stored_bytes: old(self).stored_bytes,
                        },
                    )
                } else {
                    None
                })
            },
    {
        let bytes: u64 = stored_bytes as u64;
        if bytes > MAX_CONVERSATION_SCAN_BYTES {
            return Err(protocol("conversation record exceeds one scan quantum"));
        }
        let mut finished: Option<ConversationScanMetrics> = None;
        if self.entries == MAX_CONVERSATION_SCAN_RECORDS || self.stored_bytes + bytes
            > MAX_CONVERSATION_SCAN_BYTES {
            finished = self.finish();
        }
        self.entries = self.entries + 1;
        self.stored_bytes = self.stored_bytes + bytes;
        Ok(finished)
    }

    /// Ends the quantum; gives what it had read, where that is anything.
    pub fn finish(&mut self) -> (finished: Option<ConversationScanMetrics>)
        ensures
            *final(self) == (ConversationScanQuantum { entries: 0, stored_bytes: 0 }),
            finished == (if old(self).entries == 0 && old(self).stored_bytes == 0 {
                None
            } else {
                Some(
                    ConversationScanMetrics {
                        entries: old(self).entries,
                        stored_bytes: old(self).stored_bytes,
                    },
                )
            }),
    {
        if self.entries == 0 && self.stored_bytes == 0 {
            return None;
        }
        let finished = ConversationScanMetrics {
            entries: self.entries,
            stored_bytes: self.stored_bytes,
        };
        self.entries = 0;
        self.stored_bytes = 0;
        Some(finished)
    }
}

/// The first line of bytes goes to their first line feed, or to their end where there is none.
pub proof fn law_first_line_ends_at_its_line_feed(bytes: Seq<u8>)
    ensures
        first_line(bytes) <= bytes.len(),
        bytes.len() > 0 ==> first_line(bytes) > 0,
        forall|i: int| 0 <= i < first_line(bytes) - 1 ==> #[trigger] bytes[i] != LINE_FEED,
        bytes.len() > 0 ==> bytes[first_line(bytes) - 1] == LINE_FEED || first_line(bytes)
            == bytes.len(),
    decreases bytes.len(),
{
    if bytes.len() > 0 && bytes[0] != LINE_FEED {
        let rest = bytes.skip(1);
        law_first_line_ends_at_its_line_feed(rest);
        assert forall|i: int| 0 <= i < first_line(bytes) - 1 implies #[trigger] bytes[i]
            != LINE_FEED by {
            if i > 0 {
                assert(rest[i - 1] == bytes[i]);
            }
        }
        if rest.len() > 0 {
            assert(bytes[first_line(bytes) - 1] == rest[first_line(rest) - 1]);
        }
    }
}

/// Every line but the last ends with the one line feed that it holds, and so does the last
/// where the bytes do.
pub proof fn law_every_line_ends_at_its_line_feed(bytes: Seq<u8>, k: int)
    requires
        0 <= k < lines_of(bytes).len(),
    ensures
        lines_of(bytes)[k].len() > 0,
        forall|i: int|
            0 <= i < lines_of(bytes)[k].len() - 1 ==> #[trigger] lines_of(bytes)[k][i]
                != LINE_FEED,
        k + 1 < lines_of(bytes).len() || bytes.last() == LINE_FEED ==> lines_of(bytes)[k].last()
            == LINE_FEED,
    decreases bytes.len(),
{
    if bytes.len() > 0 {
        let length = first_line(bytes) as int;
        law_first_line_ends_at_its_line_feed(bytes);
        let rest = bytes.skip(length);
        let lines = lines_of(bytes);
        if k == 0 {
            assert(lines[0] == bytes.take(length));
            if lines.len() > 1 {
                assert(rest.len() > 0);
            }
            if bytes[length - 1] != LINE_FEED {
                assert(length == bytes.len());
                assert(bytes.last() == bytes[length - 1]);
                assert(rest.len() == 0);
                assert(lines_of(rest).len() == 0);
            }
        } else {
            assert(lines[k] == lines_of(rest)[k - 1]);
            law_every_line_ends_at_its_line_feed(rest, k - 1);
            if rest.len() > 0 {
                assert(rest.last() == bytes.last());
            }
        }
    }
}

} // verus!
