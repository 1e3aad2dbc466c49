//! Reading the committed prefix of a run's streams when the run is resumed.

use crate::error::{protocol, ErrorModel, RuntimeError};
use crate::error;
use crate::json::read_json_text;
use crate::json;
use crate::stream::framing::{CARRIAGE_RETURN, LINE_FEED};
use crate::text::{join2, join3, same_text};
use vstd::prelude::*;

verus! {

/// A message about the prefix of a stream.
pub open spec fn prefix_message(before: Seq<char>, label: Seq<char>, after: Seq<char>) -> Seq<char> {
    before + label + after
}

fn prefix_error(before: &str, label: &str, after: &str) -> (error: RuntimeError)
    ensures
        error@ == ErrorModel::Protocol(prefix_message(before@, label@, after@)),
{
    let message = join3(before, label, after);
    protocol(message.as_str())
}

/// What is wrong with a line of a prefix, given why it is not JSON, where it is not, and
/// the canonical form of the record on it, which stands without a line end.
pub open spec fn prefix_record_failure(
    line: Seq<char>,
    json: Option<Seq<char>>,
    canonical: Result<Seq<char>, Seq<char>>,
    label: Seq<char>,
) -> Option<ErrorModel> {
    match json {
        Some(words) => error::protocol_failure(
            "productive recovery "@ + label + " prefix is invalid JSON: "@ + words,
        ),
        None => match canonical {
            Err(words) => error::protocol_failure(
                "productive recovery "@ + label + " prefix is invalid: "@ + words,
            ),
            Ok(text) => if text + "\n"@ != line {
                error::protocol_failure(
                    prefix_message("productive recovery "@, label, " prefix is not canonical JSONL"@),
                )
            } else {
                None
            },
        },
    }
}

/// The line of a prefix, where it holds its record in canonical form, by what reading it
/// as JSON gave and by the canonical form of the record.
pub fn judge_jsonl_record(
    line: &str,
    parsed: &Result<(), String>,
    canonical: &Result<String, String>,
    label: &str,
) -> (result: Result<String, RuntimeError>)
    ensures
        error::failure(result) == prefix_record_failure(
            line@,
            json::json_failure(*parsed),
            json::canonical_view(*canonical),
            label@,
        ),
        result matches Ok(text) ==> text@ == line@,
{
    if let Err(words) = parsed {
        let message = join3("productive recovery ", label, " prefix is invalid JSON: ");
        let message = join2(message.as_str(), words.as_str());
        return Err(protocol(message.as_str()));
    }
    match canonical {
        Err(words) => {
            let message = join3("productive recovery ", label, " prefix is invalid: ");
            let message = join2(message.as_str(), words.as_str());
            Err(protocol(message.as_str()))
        },
        Ok(text) => {
            let framed = join2(text.as_str(), "\n");
            if !same_text(framed.as_str(), line) {
                return Err(
                    prefix_error("productive recovery ", label, " prefix is not canonical JSONL"),
                );
            }
            Ok(framed)
        },
    }
}

/// The line of a prefix, where it holds its record in canonical form; `canonical` is the
/// form of the record, which has one where it is JSON.
pub fn canonical_jsonl_record(line: &str, canonical: &Result<String, String>, label: &str) -> (result:
    Result<String, RuntimeError>)
    ensures
        error::failure(result) == prefix_record_failure(
            line@,
            json::json_text_error(line@),
            json::canonical_view(*canonical),
            label@,
        ),
        result matches Ok(text) ==> text@ == line@,
{
    let parsed = read_json_text(line);
    judge_jsonl_record(line, &parsed, canonical, label)
}

/// A segment as it is found before a prefix is read.
#[derive(Clone, Copy, Debug, PartialEq, Eq, Structural)]
pub struct SegmentFound {
    pub bytes: u64,
    pub last: Option<u8>,
}

/// What is wrong with a segment, given how many bytes lie before it.
pub open spec fn segment_failure(
    found: SegmentFound,
    before: nat,
    is_last: bool,
    segment_limit: u64,
    total_limit: u64,
    stem: Seq<char>,
) -> Option<ErrorModel> {
    if found.bytes > segment_limit {
        error::protocol_failure(
            prefix_message(
                "productive recovery "@,
                stem,
                " prefix segment exceeds its byte limit"@,
            ),
        )
    } else if before + found.bytes > u64::MAX {
        error::protocol_failure(
            prefix_message("productive recovery "@, stem, " prefix byte count overflow"@),
        )
    } else if before + found.bytes > total_limit {
        error::protocol_failure(
            prefix_message("productive recovery "@, stem, " prefix exceeds its byte limit"@),
        )
    } else if found.bytes == 0 {
        if is_last {
            None
        } else {
            error::protocol_failure(
                prefix_message(
                    "productive recovery non-final "@,
                    stem,
                    " prefix segment must end with LF"@,
                ),
            )
        }
    } else if found.last != Some(LINE_FEED) {
        error::protocol_failure(prefix_message("productive recovery "@, stem, " prefix must end with LF"@))
    } else {
        None
    }
}

/// How many bytes the first `count` segments hold.
pub open spec fn bytes_before(segments: Seq<SegmentFound>, count: int) -> nat
    decreases count,
{
    if count <= 0 {
        0
    } else {
        bytes_before(segments, count - 1) + segments[count - 1].bytes as nat
    }
}

/// The first thing that is wrong with the segments from a position on.
pub open spec fn preflight_failure(
    segments: Seq<SegmentFound>,
    from: int,
    segment_limit: u64,
    total_limit: u64,
    stem: Seq<char>,
) -> Option<ErrorModel>
    decreases segments.len() - from,
{
    if from < 0 || from >= segments.len() {
        None
    } else {
        error::first_failure(
            segment_failure(
                segments[from],
                bytes_before(segments, from),
                from + 1 == segments.len(),
                segment_limit,
                total_limit,
                stem,
            ),
            preflight_failure(segments, from + 1, segment_limit, total_limit, stem),
        )
    }
}

/// A prefix that is being read.
pub struct PrefixRead {
    pub byte_offset: u64,
    pub label: String,
    pub max_record_bytes: usize,
    pub segment_index: usize,
    pub segment_lengths: Vec<u64>,
}

/// What a read at the present place of a prefix gave.
#[derive(Clone, Copy, Debug, PartialEq, Eq, Structural)]
pub enum PrefixStep {
    /// The segment is read; the next one follows.
    NextSegment,
    /// A line was read.
    Line,
}

impl PrefixRead {
    /// The place lies within the segments.
    pub open spec fn wf(self) -> bool {
        self.segment_index <= self.segment_lengths@.len()
    }

    /// A prefix without segments.
    pub fn empty(label: &str, max_record_bytes: usize) -> (read: PrefixRead)
        ensures
            read.wf(),
            read.segment_lengths@.len() == 0,
            read.label@ == label@,
            read.max_record_bytes == max_record_bytes,
            read.byte_offset == 0,
            read.segment_index == 0,
    {
        PrefixRead {
            byte_offset: 0,
            label: label.to_owned(),
            max_record_bytes,
            segment_index: 0,
            segment_lengths: Vec::new(),
        }
    }

    /// Looks at every segment before the prefix is read.
    pub fn open(
        segments: &Vec<SegmentFound>,
        stem: &str,
        segment_limit: u64,
        total_limit: u64,
        max_record_bytes: usize,
    ) -> (result: Result<PrefixRead, RuntimeError>)
        ensures
            error::failure(result) == preflight_failure(
                segments@,
                0,
                segment_limit,
                total_limit,
                stem@,
            ),
            result matches Ok(read) ==> {
                &&& read.wf()
                &&& read.byte_offset == 0
                &&& read.segment_index == 0
                &&& read.label@ == stem@
                &&& read.max_record_bytes == max_record_bytes
                &&& read.segment_lengths@ == segments@.map_values(|found: SegmentFound| found.bytes)
            },
    {
        let mut segment_lengths: Vec<u64> = Vec::new();
        let mut total: u64 = 0;
        let mut i: usize = 0;
        while i < segments.len()
            invariant
                i <= segments.len(),
                total == bytes_before(segments@, i as int),
                segment_lengths@ =~= segments@.take(i as int).map_values(
                    |found: SegmentFound| found.bytes,
                ),
                preflight_failure(segments@, 0, segment_limit, total_limit, stem@)
                    == preflight_failure(segments@, i as int, segment_limit, total_limit, stem@),
            decreases segments.len() - i,
        {
            let found = segments[i];
            if found.bytes > segment_limit {
                return Err(
                    prefix_error(
                        "productive recovery ",
                        stem,
                        " prefix segment exceeds its byte limit",
                    ),
                );
            }
            match total.checked_add(found.bytes) {
                None => {
                    return Err(
                        prefix_error("productive recovery ", stem, " prefix byte count overflow"),
                    );
                },
                Some(sum) => {
                    total = sum;
                },
            }
            if total > total_limit {
                return Err(
                    prefix_error("productive recovery ", stem, " prefix exceeds its byte limit"),
                );
            }
            if found.bytes == 0 {
                if i + 1 != segments.len() {
                    return Err(
                        prefix_error(
                            "productive recovery non-final ",
                            stem,
                            " prefix segment must end with LF",
                        ),
                    );
                }
            } else {
                let ends = match found.last {
                    Some(byte) => byte == LINE_FEED,
                    None => false,
                };
                if !ends {
                    return Err(
                        prefix_error("productive recovery ", stem, " prefix must end with LF"),
                    );
                }
            }
            segment_lengths.push(found.bytes);
            i = i + 1;
        }
        assert(segments@.take(i as int) =~= segments@);
        Ok(
            PrefixRead {
                byte_offset: 0,
                label: stem.to_owned(),
                max_record_bytes,
                segment_index: 0,
                segment_lengths,
            },
        )
    }

    /// Whether a segment is left to read.
    pub fn has_segment(&self) -> (more: bool)
        requires
            self.wf(),
        ensures
            more == (self.segment_index < self.segment_lengths@.len()),
    {
        self.segment_index < self.segment_lengths.len()
    }

    /// Accepts the present segment where it is the file that was looked at and has
    /// kept its length.
    pub fn check_segment(&self, bytes: u64, same_file: bool) -> (result: Result<(), RuntimeError>)
        requires
            self.segment_index < self.segment_lengths.len(),
        ensures
            error::failure(result) == (if bytes != self.segment_lengths@[self.segment_index as int]
                || !same_file {
                error::protocol_failure(
                    prefix_message(
                        "productive recovery "@,
                        self.label@,
                        " prefix segment changed after preflight"@,
                    ),
                )
            } else {
                None
            }),
    {
        if bytes != self.segment_lengths[self.segment_index] || !same_file {
            return Err(
                prefix_error(
                    "productive recovery ",
                    self.label.as_str(),
                    " prefix segment changed after preflight",
                ),
            );
        }
        Ok(())
    }

    /// What is wrong with what a read gave; no bytes are the end of the segment.
    pub open spec fn read_failure(self, line: Seq<u8>) -> Option<ErrorModel> {
        let expected = self.segment_lengths@[self.segment_index as int];
        if line.len() == 0 {
            if self.byte_offset != expected {
                error::protocol_failure(
                    prefix_message(
                        "productive recovery "@,
                        self.label@,
                        " prefix segment changed after preflight"@,
                    ),
                )
            } else {
                None
            }
        } else if line.len() > self.max_record_bytes {
            error::protocol_failure(
                prefix_message(
                    "productive recovery "@,
                    self.label@,
                    " prefix record exceeds its byte limit"@,
                ),
            )
        } else if self.byte_offset + line.len() > u64::MAX {
            error::protocol_failure(
                prefix_message(
                    "productive recovery "@,
                    self.label@,
                    " prefix offset overflow"@,
                ),
            )
        } else if self.byte_offset + line.len() > expected {
            error::protocol_failure(
                prefix_message(
                    "productive recovery "@,
                    self.label@,
                    " prefix exceeds its preflight boundary"@,
                ),
            )
        } else if line.last() != LINE_FEED || (line.len() >= 2 && line[line.len() - 2]
            == CARRIAGE_RETURN) {
            error::protocol_failure(
                prefix_message(
                    "productive recovery "@,
                    self.label@,
                    " prefix must use LF framing"@,
                ),
            )
        } else {
            None
        }
    }

    /// Takes what reading the next line of the present segment gave.
    pub fn next_line(&mut self, line: &[u8]) -> (result: Result<PrefixStep, RuntimeError>)
        requires
            old(self).wf(),
            old(self).segment_index < old(self).segment_lengths.len(),
        ensures
            error::failure(result) == old(self).read_failure(line@),
            final(self).segment_lengths == old(self).segment_lengths,
            final(self).label == old(self).label,
            final(self).max_record_bytes == old(self).max_record_bytes,
            result matches Ok(step) ==> {
                &&& final(self).wf()
                &&& if line@.len() == 0 {
                    &&& step == PrefixStep::NextSegment
                    &&& final(self).segment_index == old(self).segment_index + 1
                    &&& final(self).byte_offset == 0
                } else {
                    &&& step == PrefixStep::Line
                    &&& final(self).segment_index == old(self).segment_index
                    &&& final(self).byte_offset == old(self).byte_offset + line@.len()
                }
            },
    {
        let expected = self.segment_lengths[self.segment_index];
        if line.len() == 0 {
            if self.byte_offset != expected {
                return Err(
                    prefix_error(
                        "productive recovery ",
                        self.label.as_str(),
                        " prefix segment changed after preflight",
                    ),
                );
            }
            self.segment_index = self.segment_index + 1;
            self.byte_offset = 0;
            return Ok(PrefixStep::NextSegment);
        }
        if line.len() > self.max_record_bytes {
            return Err(
                prefix_error(
                    "productive recovery ",
                    self.label.as_str(),
                    " prefix record exceeds its byte limit",
                ),
            );
        }
        match self.byte_offset.checked_add(line.len() as u64) {
            None => {
                return Err(
                    prefix_error(
                        "productive recovery ",
                        self.label.as_str(),
                        " prefix offset overflow",
                    ),
                );
            },
            Some(offset) => {
                if offset > expected {
                    return Err(
                        prefix_error(
                            "productive recovery ",
                            self.label.as_str(),
                            " prefix exceeds its preflight boundary",
                        ),
                    );
                }
                if line[line.len() - 1] != LINE_FEED || (line.len() >= 2 && line[line.len() - 2]
                    == CARRIAGE_RETURN) {
                    return Err(
                        prefix_error(
                            "productive recovery ",
                            self.label.as_str(),
                            " prefix must use LF framing",
                        ),
                    );
                }
                self.byte_offset = offset;
                Ok(PrefixStep::Line)
            },
        }
    }

    /// Goes back to the beginning.
    pub fn reset(&mut self)
        ensures
            final(self).byte_offset == 0,
            final(self).segment_index == 0,
            final(self).segment_lengths == old(self).segment_lengths,
            final(self).label == old(self).label,
            final(self).max_record_bytes == old(self).max_record_bytes,
            final(self).wf(),
    {
        self.byte_offset = 0;
        self.segment_index = 0;
    }
}

/// The bytes before a segment are the sum of those of the segments before it.
pub proof fn law_bytes_before_are_summed(segments: Seq<SegmentFound>, k: int)
    requires
        0 <= k < segments.len(),
    ensures
        bytes_before(segments, k + 1) == bytes_before(segments, k) + segments[k].bytes,
        bytes_before(segments, 0) == 0,
{
}

proof fn lemma_preflight(
    segments: Seq<SegmentFound>,
    from: int,
    segment_limit: u64,
    total_limit: u64,
    stem: Seq<char>,
)
    requires
        0 <= from <= segments.len(),
        preflight_failure(segments, from, segment_limit, total_limit, stem) is None,
    ensures
        forall|k: int|
            from <= k < segments.len() ==> segment_failure(
                #[trigger] segments[k],
                bytes_before(segments, k),
                k + 1 == segments.len(),
                segment_limit,
                total_limit,
                stem,
            ) is None,
    decreases segments.len() - from,
{
    if from < segments.len() {
        lemma_preflight(segments, from + 1, segment_limit, total_limit, stem);
    }
}

/// Recorded segments are taken up only where each is no longer than it may be and ends with
/// a line feed, only the last is empty if any is, and all together are no longer than they
/// may be.
pub proof fn law_every_segment_is_looked_at(
    segments: Seq<SegmentFound>,
    segment_limit: u64,
    total_limit: u64,
    stem: Seq<char>,
    k: int,
)
    requires
        preflight_failure(segments, 0, segment_limit, total_limit, stem) is None,
        0 <= k < segments.len(),
    ensures
        segments[k].bytes <= segment_limit,
        segments[k].bytes > 0 ==> segments[k].last == Some(LINE_FEED),
        segments[k].bytes == 0 ==> k + 1 == segments.len(),
        bytes_before(segments, segments.len() as int) <= total_limit,
{
    lemma_preflight(segments, 0, segment_limit, total_limit, stem);
    let last = segments.len() - 1;
    assert(segment_failure(
        segments[last],
        bytes_before(segments, last),
        true,
        segment_limit,
        total_limit,
        stem,
    ) is None);
    assert(bytes_before(segments, last + 1) == bytes_before(segments, last)
        + segments[last].bytes);
    assert(segment_failure(
        segments[k],
        bytes_before(segments, k),
        k + 1 == segments.len(),
        segment_limit,
        total_limit,
        stem,
    ) is None);
}

} // verus!
