//! Checking the events that the entries of a history point to: their pointers are sorted
//! by run, and each run is read once, up to the last event that is pointed to.

use crate::error::{protocol, ErrorModel, RuntimeError};
use crate::error;
use crate::history::external_sort::sort_run;
use crate::history::external_sort;
use crate::history::identifiers::{EventStateIdentifierKind, IdentifierValue};
use crate::history::identifiers;
use crate::history::pointers::{decode_index_id, PointerGroups, RunPointer};
use crate::history::pointers;
use crate::history::records::{encode_event_pointer_record, IndexLayout};
use crate::history::records;
use crate::history::scratch::{event_pointer_run_leaf, EVENT_POINTER_RUN_PREFIX};
use crate::history::scratch;
use crate::history::work::WorkBudget;
use crate::history::work;
use crate::text::{join3, text_from_utf8};
use crate::text;
use vstd::prelude::*;
use vstd::utf8::*;

verus! {

/// What is to be done next for the pointers of a history.
#[derive(Clone, Copy, Debug, PartialEq, Eq, Structural)]
pub enum PointerStage {
    /// Set memory for sorting aside.
    Reserve,
    /// Read the next record of the index.
    Read,
    /// Sort the chunk; `last` is whether no record is left.
    Sort { last: bool },
    /// Write the sorted chunk as a run.
    WriteRun { last: bool },
    /// Merge the runs into one.
    Merge,
    /// Check the sorted pointers.
    Validate,
    /// Take the sorted pointers away.
    Remove,
    Done,
}

/// The pointers of a history that are being sorted.
pub struct PointerBuild {
    pub layout: IndexLayout,
    pub entries: u64,
    pub sort_limit: usize,
    pub read: u64,
    pub chunk: Vec<Vec<u8>>,
    pub run_count: u64,
    pub generation: u32,
    pub stage: PointerStage,
    /// Every record that was read.
    pub seen: Ghost<Seq<Seq<u8>>>,
}

impl PointerBuild {
    /// The chunk holds the pointers of the records that are not in a run yet.
    pub open spec fn wf(self) -> bool {
        &&& self.layout.wf()
        &&& self.sort_limit > 0
        &&& self.read <= self.entries
        &&& self.read == self.seen@.len()
        &&& match self.stage {
            PointerStage::Reserve | PointerStage::Read => {
                &&& self.chunk@.len() < self.sort_limit
                &&& self.chunked()
            },
            PointerStage::Sort { last } => {
                &&& 0 < self.chunk@.len() <= self.sort_limit
                &&& self.chunked()
                &&& !last ==> self.chunk@.len() == self.sort_limit
                &&& last ==> self.read == self.entries
            },
            PointerStage::WriteRun { last } => {
                &&& self.chunk@.len() == 0
                &&& !last ==> self.chunked()
                &&& last ==> self.read == self.entries
            },
            _ => self.read == self.entries,
        }
    }

    /// The chunk holds the pointers of the last records that were read, and each run those
    /// of a full chunk.
    pub open spec fn chunked(self) -> bool {
        &&& self.run_count * self.sort_limit + self.chunk@.len() == self.seen@.len()
        &&& forall|i: int|
            0 <= i < self.chunk@.len() ==> (#[trigger] self.chunk@[i])@ == records::pointer_record(
                self.layout,
                self.seen@[self.run_count * self.sort_limit + i],
            ) && records::has_leading_id(self.chunk@[i]@)
    }

    /// The pointers of a history with so many entries; nothing is to be done where it has
    /// none.
    pub fn validate_history_event_pointers(
        layout: IndexLayout,
        entries: u64,
        sort_limit: usize,
    ) -> (build: PointerBuild)
        requires
            layout.wf(),
            sort_limit > 0,
        ensures
            build.wf(),
            build.stage == (if entries == 0 {
                PointerStage::Done
            } else {
                PointerStage::Reserve
            }),
            build.entries == entries,
            build.layout == layout,
            build.sort_limit == sort_limit,
            build.seen@ == Seq::<Seq<u8>>::empty(),
            build.chunk@.len() == 0,
            build.run_count == 0,
            build.generation == 0,
    {
        PointerBuild {
            layout,
            entries,
            sort_limit,
            read: 0,
            chunk: Vec::new(),
            run_count: 0,
            generation: 0,
            stage: if entries == 0 {
                PointerStage::Done
            } else {
                PointerStage::Reserve
            },
            seen: Ghost(Seq::empty()),
        }
    }

    /// Goes on when memory for sorting was set aside.
    pub fn reserved(&mut self, admitted: bool) -> (result: Result<(), RuntimeError>)
        requires
            old(self).wf(),
            old(self).stage is Reserve,
        ensures
            final(self).wf(),
            error::failure(result) == (if admitted {
                None
            } else {
                error::protocol_failure("conversation history pointer sort memory admission failed"@)
            }),
            result is Ok ==> *final(self) == (PointerBuild {
                stage: PointerStage::Read,
                ..*old(self)
            }),
    {
        if !admitted {
            return Err(protocol("conversation history pointer sort memory admission failed"));
        }
        self.stage = PointerStage::Read;
        Ok(())
    }

    /// Takes what reading the next record of the index gave.
    pub fn record_read(&mut self, record: Option<Vec<u8>>, work: &mut WorkBudget) -> (result: Result<
        (),
        RuntimeError,
    >)
        requires
            old(self).wf(),
            old(self).stage is Read,
            record matches Some(record) ==> record@.len() == old(self).layout.record_bytes()
                && records::has_leading_id(records::pointer_record(old(self).layout, record@)),
        ensures
            if old(self).read < old(self).entries {
                match record {
                    None => error::failure(result) == error::protocol_failure(
                        "conversation history index ended early"@,
                    ) && *final(work) == *old(work),
                    Some(record) => {
                        &&& error::failure(result) == work::work_failure(*old(work), 1)
                        &&& *final(work) == work::work_after(*old(work), 1)
                        &&& result is Ok ==> {
                            &&& final(self).wf()
                            &&& final(self).seen@ == old(self).seen@.push(record@)
                            &&& final(self).chunk@.len() == old(self).chunk@.len() + 1
                            &&& *final(self) == (PointerBuild {
                                read: (old(self).read + 1) as u64,
                                chunk: final(self).chunk,
                                seen: final(self).seen,
                                stage: final(self).stage,
                                ..*old(self)
                            })
                            &&& final(self).stage == (if final(self).chunk@.len()
                                == final(self).sort_limit {
                                PointerStage::Sort { last: false }
                            } else {
                                PointerStage::Read
                            })
                        }
                    },
                }
            } else {
                &&& *final(work) == *old(work)
                &&& error::failure(result) == (if record is Some {
                    error::protocol_failure("conversation history index has trailing records"@)
                } else {
                    None
                })
                &&& result is Ok ==> {
                    &&& final(self).wf()
                    &&& *final(self) == (PointerBuild {
                        stage: if old(self).chunk@.len() > 0 {
                            PointerStage::Sort { last: true }
                        } else {
                            PointerStage::Merge
                        },
                        ..*old(self)
                    })
                }
            },
    {
        if self.read < self.entries {
            let record = match record {
                Some(record) => record,
                None => {
                    return Err(protocol("conversation history index ended early"));
                },
            };
            work.add(1)?;
            let ghost before = self.seen@;
            let pointer = encode_event_pointer_record(self.layout, &record);
            self.chunk.push(pointer);
            self.read = self.read + 1;
            self.seen = Ghost(before.push(record@));
            if self.chunk.len() == self.sort_limit {
                self.stage = PointerStage::Sort { last: false };
            }
            proof {
                let base = self.run_count * self.sort_limit;
                assert forall|i: int| 0 <= i < self.chunk@.len() implies (#[trigger] self.chunk@[i])@
                    == records::pointer_record(self.layout, self.seen@[base + i]) && records::has_leading_id(
                    self.chunk@[i]@,
                ) by {
                    if i < old(self).chunk@.len() {
                        assert(self.chunk@[i] == old(self).chunk@[i]);
                        assert(self.seen@[base + i] == before[base + i]);
                    }
                }
            }
            Ok(())
        } else {
            if record.is_some() {
                return Err(protocol("conversation history index has trailing records"));
            }
            self.stage = if self.chunk.len() > 0 {
                PointerStage::Sort { last: true }
            } else {
                PointerStage::Merge
            };
            Ok(())
        }
    }

    /// Sorts the chunk: the pointers of the run to write, and the name of its file.
    pub fn sort_chunk(&mut self, work: &mut WorkBudget) -> (result: Result<
        (Vec<Vec<u8>>, String),
        RuntimeError,
    >)
        requires
            old(self).wf(),
            old(self).stage is Sort,
        ensures
            exists|comparisons: nat| #[trigger]
                external_sort::comparisons_fit(comparisons, old(self).chunk@.len()) && error::failure(result)
                    == work::work_failure(*old(work), comparisons) && *final(work) == work::work_after(
                    *old(work),
                    comparisons,
                ),
            result matches Ok((run, leaf)) ==> {
                &&& final(self).wf()
                &&& run@.to_multiset() == old(self).chunk@.to_multiset()
                &&& external_sort::ordered(run@, false)
                &&& leaf@ == EVENT_POINTER_RUN_PREFIX@ + scratch::run_leaf(0, old(self).run_count)
                &&& final(self).chunk@.len() == 0
                &&& *final(self) == (PointerBuild {
                    chunk: final(self).chunk,
                    run_count: (old(self).run_count + 1) as u64,
                    stage: PointerStage::WriteRun { last: old(self).stage->Sort_last },
                    ..*old(self)
                })
            },
    {
        assert(external_sort::all_sortable(self.chunk@));
        let ghost count = self.run_count as int;
        let ghost limit = self.sort_limit as int;
        assert(count < self.read) by {
            assert(count * limit >= count) by (nonlinear_arith)
                requires
                    limit >= 1,
                    count >= 0,
            ;
        }
        let mut run: Vec<Vec<u8>> = Vec::new();
        std::mem::swap(&mut run, &mut self.chunk);
        sort_run(&mut run, work)?;
        let leaf = event_pointer_run_leaf(0, self.run_count);
        self.run_count = self.run_count + 1;
        let last = match self.stage {
            PointerStage::Sort { last } => last,
            _ => true,
        };
        self.stage = PointerStage::WriteRun { last };
        proof {
            assert((count + 1) * limit == count * limit + limit) by (nonlinear_arith);
        }
        Ok((run, leaf))
    }

    /// Goes on when the run was written.
    pub fn run_written(&mut self)
        requires
            old(self).wf(),
            old(self).stage is WriteRun,
        ensures
            final(self).wf(),
            *final(self) == (PointerBuild {
                stage: if old(self).stage->WriteRun_last {
                    PointerStage::Merge
                } else {
                    PointerStage::Read
                },
                ..*old(self)
            }),
    {
        match self.stage {
            PointerStage::WriteRun { last } => {
                self.stage = if last {
                    PointerStage::Merge
                } else {
                    PointerStage::Read
                };
            },
            _ => {},
        }
    }

    /// Goes on when the runs were merged, which leaves one.
    pub fn merged(&mut self, generation: u32, final_count: u64) -> (result: Result<
        (),
        RuntimeError,
    >)
        requires
            old(self).wf(),
            old(self).stage is Merge,
        ensures
            final(self).wf(),
            error::failure(result) == (if final_count != 1 {
                error::protocol_failure("conversation history pointer index did not produce one final run"@)
            } else {
                None
            }),
            result is Ok ==> *final(self) == (PointerBuild {
                generation,
                stage: PointerStage::Validate,
                ..*old(self)
            }),
    {
        if final_count != 1 {
            return Err(
                protocol("conversation history pointer index did not produce one final run"),
            );
        }
        self.generation = generation;
        self.stage = PointerStage::Validate;
        Ok(())
    }

    /// The file that holds the sorted pointers.
    pub fn leaf(&self) -> (leaf: String)
        ensures
            leaf@ == EVENT_POINTER_RUN_PREFIX@ + scratch::run_leaf(self.generation, 0),
    {
        event_pointer_run_leaf(self.generation, 0)
    }

    /// Goes on when the sorted pointers were checked, and when they were taken away.
    pub fn finished(&mut self)
        requires
            old(self).wf(),
            old(self).stage is Validate || old(self).stage is Remove,
        ensures
            final(self).wf(),
            *final(self) == (PointerBuild {
                stage: if old(self).stage is Validate {
                    PointerStage::Remove
                } else {
                    PointerStage::Done
                },
                ..*old(self)
            }),
    {
        self.stage = match self.stage {
            PointerStage::Validate => PointerStage::Remove,
            _ => PointerStage::Done,
        };
    }
}

/// A run whose events are to be read up to a sequence number.
pub struct RunEvents {
    pub run_session_id: String,
    pub event_sequence: u64,
}

/// What is to be done with the next of the sorted pointers.
pub enum PointerStep {
    /// Go on with the next pointer.
    Next,
    /// Check the events of this run, then go on.
    Check(RunEvents),
    /// There are no more; check the events of this run, if any.
    Complete(Option<RunEvents>),
}

/// Sorted pointers that are read one by one.
pub struct SortedPointerScan {
    pub layout: IndexLayout,
    pub entries: u64,
    pub read: u64,
    pub groups: PointerGroups,
    /// Every pointer that was read, and every run that was handed out.
    pub seen: Ghost<Seq<(Seq<u8>, nat)>>,
    pub emitted: Ghost<Seq<(Seq<u8>, nat)>>,
}

/// What is wrong with the run that a pointer record names.
pub open spec fn run_name_failure(run: Seq<u8>) -> Option<ErrorModel> {
    if valid_utf8(run) {
        None
    } else {
        error::protocol_failure("conversation history index id is not UTF-8"@)
    }
}

/// Whether a run is the one that a group of pointers is about.
pub open spec fn run_of_group(run: RunEvents, group: (Seq<u8>, nat)) -> bool {
    run.run_session_id@ == decode_utf8(group.0) && run.event_sequence == group.1
}

fn run_events(pointer: RunPointer) -> (result: Result<RunEvents, RuntimeError>)
    ensures
        error::failure(result) == run_name_failure(pointer.run_id@),
        result matches Ok(run) ==> run_of_group(run, pointers::run_pointer_view(pointer)),
{
    let run_session_id = decode_index_id(pointer.run_id.as_slice())?;
    Ok(RunEvents { run_session_id, event_sequence: pointer.max_sequence })
}

impl SortedPointerScan {
    /// The runs that were handed out and the one at hand are the pointers read so far,
    /// taken together by run.
    pub open spec fn wf(self) -> bool {
        &&& self.layout.wf()
        &&& self.read <= self.entries
        &&& self.read == self.seen@.len()
        &&& pointers::grouped(self.seen@) == self.emitted@ + pointers::optional_pointer(self.groups.current)
        &&& self.groups.current is None ==> self.seen@.len() == 0
    }

    /// Sorted pointers of which none is read.
    pub fn validate_sorted_event_pointers(layout: IndexLayout, entries: u64) -> (scan:
        SortedPointerScan)
        requires
            layout.wf(),
        ensures
            scan.wf(),
            scan.layout == layout,
            scan.entries == entries,
            scan.seen@ == Seq::<(Seq<u8>, nat)>::empty(),
            scan.emitted@ == Seq::<(Seq<u8>, nat)>::empty(),
    {
        let scan = SortedPointerScan {
            layout,
            entries,
            read: 0,
            groups: PointerGroups::new(),
            seen: Ghost(Seq::empty()),
            emitted: Ghost(Seq::empty()),
        };
        assert(pointers::grouped(scan.seen@) =~= scan.emitted@ + pointers::optional_pointer(scan.groups.current));
        scan
    }

    /// Takes what reading the next pointer gave.
    pub fn observe(&mut self, record: Option<Vec<u8>>, work: &mut WorkBudget) -> (result: Result<
        PointerStep,
        RuntimeError,
    >)
        requires
            old(self).wf(),
            record matches Some(record) ==> record@.len() == old(self).layout.pointer_bytes()
                && records::has_leading_id(record@),
        ensures
            if old(self).read < old(self).entries {
                match record {
                    None => error::failure(result) == error::protocol_failure(
                        "conversation history pointer index ended early"@,
                    ) && *final(work) == *old(work) && *final(self) == *old(self),
                    Some(record) => {
                        let pointer = pointers::pointer_view(old(self).layout, record@);
                        let current = old(self).groups.current;
                        let other = current is Some && current->0.run_id@ != pointer.0;
                        &&& *final(work) == work::work_after(*old(work), 1)
                        &&& error::failure(result) == error::first_failure(
                            work::work_failure(*old(work), 1),
                            if other {
                                run_name_failure(current->0.run_id@)
                            } else {
                                None
                            },
                        )
                        &&& result matches Ok(step) ==> {
                            &&& final(self).wf()
                            &&& final(self).entries == old(self).entries
                            &&& final(self).layout == old(self).layout
                            &&& final(self).seen@ == old(self).seen@.push(pointer)
                            &&& match step {
                                PointerStep::Check(run) => {
                                    &&& other
                                    &&& run_of_group(run, pointers::run_pointer_view(current->0))
                                    &&& final(self).emitted@ == old(self).emitted@.push(
                                        pointers::run_pointer_view(current->0),
                                    )
                                },
                                PointerStep::Next => !other && final(self).emitted@ == old(
                                    self,
                                ).emitted@,
                                PointerStep::Complete(_) => false,
                            }
                        }
                    },
                }
            } else {
                &&& *final(work) == *old(work)
                &&& *final(self) == (if record is Some {
                    *old(self)
                } else {
                    SortedPointerScan { groups: PointerGroups { current: None }, ..*old(self) }
                })
                &&& error::failure(result) == (if record is Some {
                    error::protocol_failure("conversation history pointer index has trailing records"@)
                } else {
                    match old(self).groups.current {
                        Some(last) => run_name_failure(last.run_id@),
                        None => None,
                    }
                })
                &&& result matches Ok(step) ==> match step {
                    PointerStep::Complete(run) => match old(self).groups.current {
                        Some(last) => run is Some && run_of_group(run->0, pointers::run_pointer_view(last)),
                        None => run is None,
                    },
                    _ => false,
                }
            },
    {
        if self.read < self.entries {
            let record = match record {
                Some(record) => record,
                None => {
                    return Err(protocol("conversation history pointer index ended early"));
                },
            };
            work.add(1)?;
            let ghost seen = self.seen@;
            let ghost emitted = self.emitted@;
            let ghost current = self.groups.current;
            let ghost pointer = pointers::pointer_view(self.layout, record@);
            let ghost all = emitted + pointers::optional_pointer(current);
            let finished = self.groups.observe(self.layout, &record);
            self.read = self.read + 1;
            self.seen = Ghost(seen.push(pointer));
            proof {
                assert(pointers::grouped(seen) == all);
                assert(pointers::grouped(self.seen@) == emitted + pointers::optional_pointer(finished)
                    + pointers::optional_pointer(self.groups.current));
                lemma_finished(seen, emitted, current, pointer, finished, self.groups.current);
            }
            match finished {
                Some(prior) => {
                    self.emitted = Ghost(emitted.push(pointers::run_pointer_view(prior)));
                    assert(self.emitted@ =~= emitted + pointers::optional_pointer(Some(prior)));
                    let run = run_events(prior)?;
                    Ok(PointerStep::Check(run))
                },
                None => {
                    assert(emitted + pointers::optional_pointer(None) =~= emitted);
                    Ok(PointerStep::Next)
                },
            }
        } else {
            if record.is_some() {
                return Err(protocol("conversation history pointer index has trailing records"));
            }
            let mut current: Option<RunPointer> = None;
            std::mem::swap(&mut current, &mut self.groups.current);
            match current {
                Some(last) => {
                    let run = run_events(last)?;
                    Ok(PointerStep::Complete(Some(run)))
                },
                None => Ok(PointerStep::Complete(None)),
            }
        }
    }
}

/// The run that a further pointer ends is the one at hand, where the pointer is about
/// another.
proof fn lemma_finished(
    seen: Seq<(Seq<u8>, nat)>,
    emitted: Seq<(Seq<u8>, nat)>,
    current: Option<RunPointer>,
    pointer: (Seq<u8>, nat),
    finished: Option<RunPointer>,
    next: Option<RunPointer>,
)
    requires
        pointers::grouped(seen) == emitted + pointers::optional_pointer(current),
        current is None ==> seen.len() == 0,
        next is Some,
        pointers::grouped(seen.push(pointer)) == emitted + pointers::optional_pointer(finished) + pointers::optional_pointer(
            next,
        ),
    ensures
        finished is Some <==> (current is Some && current->0.run_id@ != pointer.0),
        finished is Some ==> pointers::run_pointer_view(finished->0) == pointers::run_pointer_view(current->0),
{
    let after = seen.push(pointer);
    assert(after.drop_last() =~= seen);
    assert(after.last() == pointer);
    let groups = pointers::grouped(seen);
    if current is Some {
        assert(groups.last() == pointers::run_pointer_view(current->0));
        if current->0.run_id@ == pointer.0 {
            assert(pointers::grouped(after).len() == groups.len());
        } else {
            assert(pointers::grouped(after) == groups.push(pointer));
            assert(pointers::grouped(after).len() == emitted.len() + 2);
            assert(pointers::grouped(after)[emitted.len() as int] == pointers::run_pointer_view(current->0));
            assert(pointers::grouped(after)[emitted.len() as int] == pointers::run_pointer_view(finished->0));
        }
    } else {
        assert(emitted.len() == 0) by {
            assert(groups.len() == 0);
        }
        assert(pointers::grouped(after).len() == 1);
    }
}

/// What is to be done next for the events of one run.
#[derive(Clone, Copy, Debug, PartialEq, Eq, Structural)]
pub enum EventStage {
    /// Open the directory of the runs.
    Runs,
    /// Open the directory of the run.
    Run,
    /// Measure the segments of its events.
    Source,
    /// Set memory for the tokens of all identifiers aside.
    ReserveTokens,
    /// Set memory for the identifiers of a pass aside.
    ReserveRecords(u8),
    /// Read the events, and collect the identifiers of the pass.
    Collect(u8),
    /// Sort the identifiers, and write them.
    Write(u8),
    /// Read them back, and give them their tokens.
    Assign(u8),
    /// Take them away.
    Remove(u8),
    /// Sort the tokens.
    SortTokens,
    /// Read the events, and check each with its tokens in place of its identifiers.
    Validate,
    Done,
}

/// How an outside step of checking the events of one run came out.
#[derive(Clone, Copy, Debug, PartialEq, Eq, Structural)]
pub enum EventReply {
    /// It was done.
    Done,
    /// It was not there, or there was no memory for it.
    Lacking,
    /// Nothing was collected.
    Empty,
}

/// The stage behind a pass.
pub open spec fn behind_pass(pass: u8) -> EventStage {
    if pass >= 2 {
        EventStage::SortTokens
    } else {
        EventStage::ReserveRecords((pass + 1) as u8)
    }
}

/// The stage behind another one.
pub open spec fn next_event_stage(stage: EventStage, reply: EventReply) -> EventStage {
    match stage {
        EventStage::Runs => EventStage::Run,
        EventStage::Run => EventStage::Source,
        EventStage::Source => EventStage::ReserveTokens,
        EventStage::ReserveTokens => EventStage::ReserveRecords(0),
        EventStage::ReserveRecords(pass) => EventStage::Collect(pass),
        EventStage::Collect(pass) => if reply is Empty {
            behind_pass(pass)
        } else {
            EventStage::Write(pass)
        },
        EventStage::Write(pass) => EventStage::Assign(pass),
        EventStage::Assign(pass) => EventStage::Remove(pass),
        EventStage::Remove(pass) => behind_pass(pass),
        EventStage::SortTokens => EventStage::Validate,
        EventStage::Validate => EventStage::Done,
        EventStage::Done => EventStage::Done,
    }
}

/// What is wrong where something is lacking.
pub open spec fn lacking_failure(stage: EventStage, reply: EventReply) -> Option<ErrorModel> {
    if !(reply is Lacking) {
        None
    } else {
        match stage {
            EventStage::Runs => error::protocol_failure("conversation runs directory disappeared"@),
            EventStage::Run => error::protocol_failure("conversation history run disappeared"@),
            EventStage::ReserveTokens => error::protocol_failure(
                "event identifier mapping memory admission failed"@,
            ),
            EventStage::ReserveRecords(_) => error::protocol_failure(
                "event identifier sort memory admission failed"@,
            ),
            _ => None,
        }
    }
}

/// How many steps are left at most.
pub open spec fn event_rank(stage: EventStage) -> int {
    match stage {
        EventStage::Runs => 30,
        EventStage::Run => 29,
        EventStage::Source => 28,
        EventStage::ReserveTokens => 27,
        EventStage::ReserveRecords(pass) => 12 - 5 * pass + 13,
        EventStage::Collect(pass) => 12 - 5 * pass + 12,
        EventStage::Write(pass) => 12 - 5 * pass + 11,
        EventStage::Assign(pass) => 12 - 5 * pass + 10,
        EventStage::Remove(pass) => 12 - 5 * pass + 9,
        EventStage::SortTokens => 2,
        EventStage::Validate => 1,
        EventStage::Done => 0,
    }
}

/// The events of one run that are being checked.
pub struct EventValidation {
    pub stage: EventStage,
}

/// Whether a stage is of one of the three passes.
pub open spec fn sound_stage(stage: EventStage) -> bool {
    match stage {
        EventStage::ReserveRecords(pass) => pass <= 2,
        EventStage::Collect(pass) => pass <= 2,
        EventStage::Write(pass) => pass <= 2,
        EventStage::Assign(pass) => pass <= 2,
        EventStage::Remove(pass) => pass <= 2,
        _ => true,
    }
}

impl EventValidation {
    /// The events of a run of which nothing is checked.
    pub fn validate_committed_event_pointer() -> (validation: EventValidation)
        ensures
            validation.stage is Runs,
    {
        EventValidation { stage: EventStage::Runs }
    }

    /// Goes on by how the stage came out.
    pub fn advance(&mut self, outcome: Result<EventReply, RuntimeError>) -> (result: Result<
        (),
        RuntimeError,
    >)
        requires
            sound_stage(old(self).stage),
        ensures
            sound_stage(final(self).stage),
            error::failure(result) == (match outcome {
                Err(error) => Some(error@),
                Ok(reply) => lacking_failure(old(self).stage, reply),
            }),
            final(self).stage == (if result is Ok {
                next_event_stage(old(self).stage, outcome->Ok_0)
            } else {
                old(self).stage
            }),
    {
        let reply = outcome?;
        if reply == EventReply::Lacking {
            match self.stage {
                EventStage::Runs => {
                    return Err(protocol("conversation runs directory disappeared"));
                },
                EventStage::Run => {
                    return Err(protocol("conversation history run disappeared"));
                },
                EventStage::ReserveTokens => {
                    return Err(protocol("event identifier mapping memory admission failed"));
                },
                EventStage::ReserveRecords(_) => {
                    return Err(protocol("event identifier sort memory admission failed"));
                },
                _ => {},
            }
        }
        self.stage = match self.stage {
            EventStage::Runs => EventStage::Run,
            EventStage::Run => EventStage::Source,
            EventStage::Source => EventStage::ReserveTokens,
            EventStage::ReserveTokens => EventStage::ReserveRecords(0),
            EventStage::ReserveRecords(pass) => EventStage::Collect(pass),
            EventStage::Collect(pass) => {
                if reply == EventReply::Empty {
                    EventValidation::end_pass(pass)
                } else {
                    EventStage::Write(pass)
                }
            },
            EventStage::Write(pass) => EventStage::Assign(pass),
            EventStage::Assign(pass) => EventStage::Remove(pass),
            EventStage::Remove(pass) => EventValidation::end_pass(pass),
            EventStage::SortTokens => EventStage::Validate,
            EventStage::Validate => EventStage::Done,
            EventStage::Done => EventStage::Done,
        };
        Ok(())
    }

    fn end_pass(pass: u8) -> (stage: EventStage)
        requires
            pass <= 2,
        ensures
            stage == behind_pass(pass),
    {
        if pass >= 2 {
            EventStage::SortTokens
        } else {
            EventStage::ReserveRecords(pass + 1)
        }
    }
}

/// Checking the events of a run comes to an end.
pub proof fn law_event_validation_goes_on(stage: EventStage, reply: EventReply)
    requires
        sound_stage(stage),
        !(stage is Done),
    ensures
        sound_stage(next_event_stage(stage, reply)),
        0 <= event_rank(next_event_stage(stage, reply)) < event_rank(stage),
{
}

/// The identifier of a kind that an event has: the last one.
pub open spec fn identifier_of(identifiers: Seq<IdentifierValue>, kind: EventStateIdentifierKind) -> Option<
    Seq<char>,
>
    decreases identifiers.len(),
{
    if identifiers.len() == 0 {
        None
    } else if identifiers.last().kind == kind {
        Some(identifiers.last().value@)
    } else {
        identifier_of(identifiers.drop_last(), kind)
    }
}

/// What is wrong with reading an identifier back from the line of its event.
pub open spec fn source_failure(
    path: Seq<char>,
    line: Seq<u8>,
    parsed: Result<Vec<IdentifierValue>, RuntimeError>,
    kind: EventStateIdentifierKind,
) -> Option<ErrorModel> {
    if !valid_utf8(line) {
        error::protocol_failure(path + " is not valid UTF-8: "@ + text::utf8_error(line))
    } else if line.len() == 0 || line.last() != 10 {
        error::protocol_failure("committed event identifier source must end with LF"@)
    } else {
        match parsed {
            Err(error) => Some(error@),
            Ok(identifiers) => if identifier_of(identifiers@, kind) is None {
                error::protocol_failure("event identifier source no longer contains its field"@)
            } else {
                None
            },
        }
    }
}

/// The identifier of a kind, read back from the line of its event; `parsed` is the
/// identifiers that the event on the line has.
pub fn identifier(
    path: &str,
    line: &[u8],
    parsed: Result<Vec<IdentifierValue>, RuntimeError>,
    kind: EventStateIdentifierKind,
) -> (result: Result<String, RuntimeError>)
    ensures
        error::failure(result) == source_failure(path@, line@, parsed, kind),
        result matches Ok(value) ==> identifier_of(parsed->Ok_0@, kind) == Some(value@),
{
    match text_from_utf8(line) {
        Ok(_) => {},
        Err(words) => {
            let message = join3(path, " is not valid UTF-8: ", words.as_str());
            return Err(protocol(message.as_str()));
        },
    }
    if line.len() == 0 || line[line.len() - 1] != 10 {
        return Err(protocol("committed event identifier source must end with LF"));
    }
    let identifiers = parsed?;
    let mut i: usize = identifiers.len();
    assert(identifiers@.take(i as int) =~= identifiers@);
    while i > 0
        invariant
            i <= identifiers.len(),
            valid_utf8(line@),
            line@.len() > 0,
            line@.last() == 10,
            parsed == Ok::<Vec<IdentifierValue>, RuntimeError>(identifiers),
            identifier_of(identifiers@, kind) == identifier_of(identifiers@.take(i as int), kind),
        decreases i,
    {
        let ghost head = identifiers@.take(i as int);
        i = i - 1;
        proof {
            assert(head.drop_last() =~= identifiers@.take(i as int));
            assert(head.last() == identifiers@[i as int]);
        }
        if identifiers[i].kind == kind {
            return Ok(identifiers[i].value.clone());
        }
    }
    Err(protocol("event identifier source no longer contains its field"))
}

/// An identifier of a kind is the last that has it, and there is none exactly where none has.
pub proof fn law_identifier_is_found_by_its_kind(
    identifiers: Seq<IdentifierValue>,
    kind: EventStateIdentifierKind,
)
    ensures
        match identifier_of(identifiers, kind) {
            Some(value) => exists|k: int|
                #![trigger identifiers[k]]
                0 <= k < identifiers.len() && identifiers[k].kind == kind && identifiers[k].value@
                    == value && forall|j: int|
                    k < j < identifiers.len() ==> (#[trigger] identifiers[j]).kind != kind,
            None => forall|k: int|
                0 <= k < identifiers.len() ==> (#[trigger] identifiers[k]).kind != kind,
        },
    decreases identifiers.len(),
{
    if identifiers.len() > 0 {
        let last = identifiers.len() - 1;
        assert(identifiers[last] == identifiers.last());
        if identifiers.last().kind != kind {
            let rest = identifiers.drop_last();
            law_identifier_is_found_by_its_kind(rest, kind);
            assert forall|k: int| 0 <= k < rest.len() implies #[trigger] identifiers[k]
                == rest[k] by {}
            if let Some(value) = identifier_of(rest, kind) {
                let k = choose|k: int|
                    #![trigger rest[k]]
                    0 <= k < rest.len() && rest[k].kind == kind && rest[k].value@ == value
                        && forall|j: int|
                        k < j < rest.len() ==> (#[trigger] rest[j]).kind != kind;
                assert(identifiers[k] == rest[k]);
                assert forall|j: int| k < j < identifiers.len() implies (
                #[trigger] identifiers[j]).kind != kind by {
                    if j < last {
                        assert(rest[j] == identifiers[j]);
                    }
                }
            }
        }
    }
}

/// The events of a run are validated in one order: its source and the memory for its tokens,
/// then three passes over its identifiers, in each of which what was collected is written,
/// given tokens and removed, then the tokens are sorted and the events validated with them.
pub proof fn law_events_are_validated_in_order(pass: u8, reply: EventReply)
    requires
        pass <= 2,
    ensures
        next_event_stage(EventStage::Runs, reply) is Run,
        next_event_stage(EventStage::Run, reply) is Source,
        next_event_stage(EventStage::Source, reply) is ReserveTokens,
        next_event_stage(EventStage::ReserveTokens, reply) == EventStage::ReserveRecords(0),
        next_event_stage(EventStage::ReserveRecords(pass), reply) == EventStage::Collect(pass),
        reply !is Empty ==> next_event_stage(EventStage::Collect(pass), reply)
            == EventStage::Write(pass),
        next_event_stage(EventStage::Write(pass), reply) == EventStage::Assign(pass),
        next_event_stage(EventStage::Assign(pass), reply) == EventStage::Remove(pass),
        ({
            let behind = next_event_stage(EventStage::Remove(pass), reply);
            &&& pass == 0 ==> behind == EventStage::ReserveRecords(1)
            &&& pass == 1 ==> behind == EventStage::ReserveRecords(2)
            &&& pass == 2 ==> behind is SortTokens
            &&& reply is Empty ==> next_event_stage(EventStage::Collect(pass), reply) == behind
        }),
        next_event_stage(EventStage::SortTokens, reply) is Validate,
        next_event_stage(EventStage::Validate, reply) is Done,
{
}

} // verus!
