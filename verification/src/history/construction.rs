//! Building the index of a history: its entries are read, sorted run by run, merged, and
//! checked, and what was made for it is taken away where anything goes wrong.

use crate::contract::{validate_id, Checked, CheckedModel};
use crate::contract;
use crate::error::{protocol, ErrorModel, RuntimeError};
use crate::error;
use crate::history::external_sort::RecordMerge;
use crate::history::external_sort;
use crate::history::index::{
    index_leaf, HistoryBuild, HistorySummary, IndexScanStep, ScannedRecord, SortedIndexScan,
};
use crate::history::index;
use crate::history::model::{admit_entry, validate_conversation_entry, ConversationEntry, EntryModel};
use crate::history::model;
use crate::history::pointers;
use crate::history::records::IndexLayout;
use crate::history::records;
use crate::history::scratch::index_run_leaf;
use crate::history::scratch;
use crate::history::search;
use crate::history::validation::SortedPointerScan;
use crate::history::work::{history_scratch_limit, history_work_limit, WorkBudget, INDEX_SCRATCH_PER_ENTRY, INDEX_WORK_RESERVE};
use crate::history::work;
use crate::listing::reversed;
use crate::order;
use crate::text;
use vstd::prelude::*;
use vstd::utf8::*;

verus! {

/// What is to be done next for an index.
#[derive(Clone, Copy, Debug, PartialEq, Eq, Structural)]
pub enum BuildStage {
    /// Set memory for sorting aside.
    Reserve,
    /// Read on in the history.
    Read,
    /// Take the next entry that was read.
    Entry,
    /// See that the run of that entry exists.
    CheckRun,
    /// Sort the chunk; `last` is whether no entry is left.
    Sort { last: bool },
    /// Write the sorted chunk as a run.
    WriteRun { last: bool },
    /// Merge the runs into one.
    Merge,
    /// Make an empty index.
    CreateEmpty,
    /// Check the sorted index.
    Scan,
    /// Check the events that the entries point to.
    Pointers,
    /// The index is there.
    Built,
    /// Take away what was made.
    Cleanup,
    /// It was taken away.
    Failed,
}

/// The index of a history: how many entries it has, the file that holds it, and the work
/// that may still be done with it.
pub struct ConversationHistoryIndex {
    pub entries: u64,
    pub index_leaf: String,
    pub work: WorkBudget,
}

/// An index that is being built.
pub struct IndexBuild {
    pub parts: HistoryBuild,
    /// How far the sorted index was checked.
    pub scan: SortedIndexScan,
    pub entries: u64,
    pub scratch_limit: u64,
    /// The entries that were read and not taken, last one first.
    pub pending: Vec<ConversationEntry>,
    pub more: bool,
    pub generation: u32,
    pub final_count: u64,
    pub stage: BuildStage,
    pub failures: Vec<RuntimeError>,
    /// Every entry that was read.
    pub read: Ghost<Seq<EntryModel>>,
    /// The sorted runs that were handed out to be written.
    pub runs: Ghost<Seq<Seq<Vec<u8>>>>,
    /// The runs of sessions that were found to exist.
    pub found: Ghost<Set<Seq<char>>>,
}

/// Whether a record stands in one of the sorted runs.
pub open spec fn in_runs(runs: Seq<Seq<Vec<u8>>>, record: Seq<u8>) -> bool {
    exists|r: int, i: int|
        0 <= r < runs.len() && 0 <= i < runs[r].len() && (#[trigger] runs[r][i])@ == record
}

/// Whether the sorted runs hold the records of the first entries of a history, so many of
/// them, and nothing else.
pub open spec fn runs_hold(
    layout: IndexLayout,
    runs: Seq<Seq<Vec<u8>>>,
    entries: Seq<EntryModel>,
    count: int,
) -> bool {
    &&& forall|k: int|
        0 <= k < count ==> in_runs(
            runs,
            records::index_record(layout, #[trigger] entries[k], k as u64),
        )
    &&& forall|r: int, i: int|
        0 <= r < runs.len() && 0 <= i < runs[r].len() ==> index::is_of_history(
            layout,
            entries,
            (#[trigger] runs[r][i])@,
        )
}

/// Whether the run of every entry was found to exist.
pub open spec fn runs_found(entries: Seq<EntryModel>, found: Set<Seq<char>>) -> bool {
    forall|k: int|
        0 <= k < entries.len() ==> found.contains((#[trigger] entries[k]).run_session_id.text)
}

proof fn lemma_runs_grow(
    parts: HistoryBuild,
    runs: Seq<Seq<Vec<u8>>>,
    run: Seq<Vec<u8>>,
)
    requires
        parts.wf(),
        runs_hold(
            parts.layout,
            runs,
            parts.seen@,
            parts.seen@.len() - parts.chunk@.len(),
        ),
        run.to_multiset() == parts.chunk@.to_multiset(),
    ensures
        runs_hold(parts.layout, runs.push(run), parts.seen@, parts.seen@.len() as int),
{
    broadcast use vstd::seq_lib::group_to_multiset_ensures;

    let (layout, seen, chunk, now) = (parts.layout, parts.seen@, parts.chunk@, runs.push(run));
    let done = seen.len() - chunk.len();
    let last = runs.len() as int;
    assert(now[last] == run);
    assert(parts.run_count * parts.sort_limit == done);
    assert forall|k: int| 0 <= k < seen.len() implies in_runs(
        now,
        records::index_record(layout, #[trigger] seen[k], k as u64),
    ) by {
        let record = records::index_record(layout, seen[k], k as u64);
        if k < done {
            assert(in_runs(runs, record));
            let (r, i) = choose|r: int, i: int|
                0 <= r < runs.len() && 0 <= i < runs[r].len() && (#[trigger] runs[r][i])@ == record;
            assert(now[r] == runs[r]);
            assert(now[r][i]@ == record);
        } else {
            let held = chunk[k - done];
            assert(held@ == record);
            assert(chunk.contains(held));
            assert(chunk.to_multiset().count(held) > 0);
            assert(run.contains(held));
            let i = choose|i: int| 0 <= i < run.len() && run[i] == held;
            assert(now[last][i]@ == record);
        }
    }
    assert forall|r: int, i: int|
        0 <= r < now.len() && 0 <= i < now[r].len() implies index::is_of_history(
        layout,
        seen,
        (#[trigger] now[r][i])@,
    ) by {
        if r < last {
            assert(now[r] == runs[r]);
            assert(index::is_of_history(layout, seen, runs[r][i]@));
        } else {
            let held = run[i];
            assert(run.contains(held));
            assert(run.to_multiset().count(held) > 0);
            assert(chunk.contains(held));
            let j = choose|j: int| 0 <= j < chunk.len() && chunk[j] == held;
            assert(held@ == records::index_record(layout, seen[done + j], (done + j) as u64));
        }
    }
}

proof fn lemma_runs_hold_still(
    layout: IndexLayout,
    runs: Seq<Seq<Vec<u8>>>,
    entries: Seq<EntryModel>,
    count: int,
    entry: EntryModel,
)
    requires
        0 <= count <= entries.len(),
        runs_hold(layout, runs, entries, count),
    ensures
        runs_hold(layout, runs, entries.push(entry), count),
{
    let now = entries.push(entry);
    assert forall|k: int| 0 <= k < count implies in_runs(
        runs,
        records::index_record(layout, #[trigger] now[k], k as u64),
    ) by {
        assert(now[k] == entries[k]);
    }
    assert forall|r: int, i: int|
        0 <= r < runs.len() && 0 <= i < runs[r].len() implies index::is_of_history(
        layout,
        now,
        (#[trigger] runs[r][i])@,
    ) by {
        assert(index::is_of_history(layout, entries, runs[r][i]@));
        let k = choose|k: int|
            0 <= k < entries.len() && runs[r][i]@ == records::index_record(
                layout,
                #[trigger] entries[k],
                k as u64,
            );
        assert(now[k] == entries[k]);
    }
}

/// Entries from the last to the first, by their contents.
pub open spec fn turned(pending: Seq<ConversationEntry>) -> Seq<EntryModel> {
    Seq::new(pending.len(), |i: int| pending[pending.len() - 1 - i]@)
}

/// Entries by their contents.
pub open spec fn entries_view(entries: Seq<ConversationEntry>) -> Seq<EntryModel> {
    entries.map_values(|entry: ConversationEntry| entry@)
}

/// Whether the summary of an index is that of the entries it has seen.
pub open spec fn summarised(parts: HistoryBuild) -> bool {
    let seen = parts.seen@;
    &&& parts.ordinal == seen.len()
    &&& index::entries_sound(seen)
    &&& forall|i: int| 0 <= i < seen.len() ==> records::entry_fits(parts.layout, #[trigger] seen[i])
    &&& index::optional_entry(parts.latest) == (if seen.len() == 0 {
        None
    } else {
        Some(seen.last())
    })
    &&& index::optional_entry(parts.selected) == index::last_with_id(seen, text::optional_view(parts.selected_id))
    &&& parts.contains_run == index::records_run(seen, text::optional_view(parts.run_id))
}

impl ConversationHistoryIndex {
    /// An index of a history with so many entries, of which nothing is built. The scratch
    /// space is made with the limit that it states.
    pub fn build(
        entries: Result<u64, RuntimeError>,
        layout: IndexLayout,
        sort_limit: usize,
        selected_id: Option<String>,
        run_id: Option<String>,
    ) -> (result: Result<IndexBuild, RuntimeError>)
        requires
            layout.wf(),
            sort_limit > 0,
        ensures
            error::failure(result) == (match entries {
                Err(error) => Some(error@),
                Ok(entries) => error::first_failure(
                    work::history_scratch_failure(entries as nat),
                    work::history_work_failure(entries as nat),
                ),
            }),
            result matches Ok(build) ==> {
                &&& build.wf()
                &&& build.stage is Reserve
                &&& build.read@ == Seq::<EntryModel>::empty()
                &&& build.runs@ == Seq::<Seq<Vec<u8>>>::empty()
                &&& build.found@ == Set::<Seq<char>>::empty()
                &&& Ok::<u64, RuntimeError>(build.entries) == entries
                &&& build.more
                &&& build.generation == 0
                &&& build.final_count == 0
                &&& build.scratch_limit == build.entries * INDEX_SCRATCH_PER_ENTRY
                    + INDEX_WORK_RESERVE
                &&& build.parts.selected_id == selected_id
                &&& build.parts.run_id == run_id
                &&& build.parts.layout == layout
                &&& build.parts.sort_limit == sort_limit
                &&& build.parts.work.used == 0
            },
    {
        let entries = entries?;
        let scratch_limit = history_scratch_limit(entries)?;
        let work_limit = history_work_limit(entries)?;
        let parts = HistoryBuild::start(layout, sort_limit, work_limit, selected_id, run_id);
        let build = IndexBuild {
            parts,
            scan: SortedIndexScan::validate_sorted_index(layout, entries),
            entries,
            scratch_limit,
            pending: Vec::new(),
            more: true,
            generation: 0,
            final_count: 0,
            stage: BuildStage::Reserve,
            failures: Vec::new(),
            read: Ghost(Seq::empty()),
            runs: Ghost(Seq::empty()),
            found: Ghost(Set::empty()),
        };
        assert(build.read@ =~= build.parts.seen@ + turned(build.pending@));
        Ok(build)
    }
}

impl IndexBuild {
    /// Every entry that was read was seen or is still to be taken; the parts are as the
    /// stage needs them.
    pub open spec fn wf(self) -> bool {
        &&& match self.stage {
            BuildStage::Cleanup => self.failures@.len() == 1,
            BuildStage::Failed => true,
            _ => {
                &&& self.read@ == self.parts.seen@ + turned(self.pending@)
                &&& summarised(self.parts)
                &&& self.sound()
                &&& self.failures@.len() == 0
                &&& self.scan.wf()
                &&& self.scan.layout == self.parts.layout
                &&& self.scan.entries == self.entries
                &&& match self.stage {
                    BuildStage::Scan => true,
                    BuildStage::Pointers | BuildStage::Built => !self.scan.looking
                        && self.scan.read == self.entries,
                    _ => !self.scan.looking && self.scan.read == 0,
                }
            },
        }
        &&& match self.stage {
            BuildStage::Reserve | BuildStage::Read => {
                &&& self.parts.wf()
                &&& self.parts.chunk@.len() < self.parts.sort_limit
                &&& self.pending@.len() == 0
            },
            BuildStage::Entry => {
                &&& self.parts.wf()
                &&& self.parts.chunk@.len() < self.parts.sort_limit
                &&& self.pending@.len() > 0
            },
            BuildStage::CheckRun => {
                &&& self.parts.wf()
                &&& self.parts.chunk@.len() < self.parts.sort_limit
                &&& self.pending@.len() > 0
                &&& model::entry_failure(self.pending@.last()@) is None
                &&& index::position_failure(self.pending@.last()@, self.parts.seen@.len()) is None
            },
            BuildStage::Sort { last } => {
                &&& self.parts.wf()
                &&& self.parts.chunk@.len() > 0
                &&& last ==> self.pending@.len() == 0
                &&& !last ==> self.parts.chunk@.len() == self.parts.sort_limit
            },
            BuildStage::WriteRun { last } => {
                &&& last ==> self.pending@.len() == 0
                &&& !last ==> self.parts.wf()
                &&& self.parts.chunk@.len() == 0
            },
            BuildStage::Pointers | BuildStage::Built => {
                &&& self.pending@.len() == 0
                &&& self.parts.chunk@.len() == 0
                &&& self.entries == self.read@.len()
            },
            BuildStage::Cleanup | BuildStage::Failed => true,
            _ => self.pending@.len() == 0 && self.parts.chunk@.len() == 0,
        }
    }

    /// The runs that were handed out hold the record of every entry that is not in the
    /// chunk, and the run of every entry was found.
    pub open spec fn sound(self) -> bool {
        &&& self.parts.layout.wf()
        &&& self.parts.chunk@.len() <= self.parts.seen@.len()
        &&& runs_hold(
            self.parts.layout,
            self.runs@,
            self.parts.seen@,
            self.parts.seen@.len() - self.parts.chunk@.len(),
        )
        &&& runs_found(self.parts.seen@, self.found@)
        &&& text::optional_view(self.parts.last_checked_run) matches Some(run)
            ==> self.found@.contains(run)
    }

    /// Whether something went wrong and what was made is now to be taken away.
    pub open spec fn failed_with(self, before: IndexBuild, error: Option<ErrorModel>) -> bool {
        &&& self.stage is Cleanup
        &&& error is Some
        &&& error::failures_view(self.failures@) == seq![error->0]
        &&& self.entries == before.entries
        &&& self.read == before.read
        &&& self.runs == before.runs
        &&& self.found == before.found
        &&& self.scratch_limit == before.scratch_limit
    }

    /// Whether what the build goes by is what it was: the history, the limits, what is
    /// looked for, and how far the runs were merged.
    pub open spec fn same_order(self, before: IndexBuild) -> bool {
        &&& self.entries == before.entries
        &&& self.scratch_limit == before.scratch_limit
        &&& self.generation == before.generation
        &&& self.final_count == before.final_count
        &&& self.scan == before.scan
        &&& self.parts.selected_id == before.parts.selected_id
        &&& self.parts.run_id == before.parts.run_id
        &&& self.parts.layout == before.parts.layout
        &&& self.parts.sort_limit == before.parts.sort_limit
    }

    /// Whether nothing of the sorted index was checked yet.
    pub open spec fn scan_is_fresh(self) -> bool {
        &&& self.scan.wf()
        &&& self.scan.layout == self.parts.layout
        &&& self.scan.entries == self.entries
        &&& !self.scan.looking
        &&& self.scan.read == 0
    }

    /// Whether this is the same build at another stage.
    pub open spec fn moved_to(self, before: IndexBuild, stage: BuildStage) -> bool {
        self == (IndexBuild { stage, ..before })
    }

    /// The stage behind an entry, or behind a run that was written.
    pub open spec fn behind_entry(self) -> BuildStage {
        if self.pending@.len() > 0 {
            BuildStage::Entry
        } else if self.more {
            BuildStage::Read
        } else if self.parts.chunk@.len() > 0 {
            BuildStage::Sort { last: true }
        } else {
            BuildStage::Merge
        }
    }

    fn fail(&mut self, error: RuntimeError)
        requires
            old(self).failures@.len() == 0,
        ensures
            final(self).wf(),
            final(self).failed_with(*old(self), Some(error@)),
    {
        self.failures.push(error);
        self.stage = BuildStage::Cleanup;
        assert(error::failures_view(self.failures@) =~= seq![error@]);
    }

    fn go_on(&mut self)
        requires
            old(self).scan_is_fresh(),
            old(self).read@ == old(self).parts.seen@ + turned(old(self).pending@),
            old(self).failures@.len() == 0,
            old(self).parts.wf(),
            old(self).sound(),
            old(self).parts.chunk@.len() < old(self).parts.sort_limit,
        ensures
            final(self).wf(),
            final(self).moved_to(*old(self), old(self).behind_entry()),
    {
        self.stage = if self.pending.len() > 0 {
            BuildStage::Entry
        } else if self.more {
            BuildStage::Read
        } else if self.parts.chunk.len() > 0 {
            BuildStage::Sort { last: true }
        } else {
            BuildStage::Merge
        };
    }

    /// Goes on when memory for sorting was set aside.
    pub fn reserved(&mut self, admitted: bool)
        requires
            old(self).wf(),
            old(self).stage is Reserve,
        ensures
            final(self).wf(),
            if admitted {
                final(self).moved_to(*old(self), BuildStage::Read)
            } else {
                final(self).failed_with(
                    *old(self),
                    error::protocol_failure("conversation history sort memory admission failed"@),
                )
            },
    {
        if admitted {
            self.stage = BuildStage::Read;
        } else {
            self.fail(protocol("conversation history sort memory admission failed"));
        }
    }

    /// Goes on when some entries were read; `more` is whether there may be others.
    pub fn quantum_read(&mut self, quantum: Result<(Vec<ConversationEntry>, bool), RuntimeError>)
        requires
            old(self).wf(),
            old(self).stage is Read,
        ensures
            final(self).wf(),
            match quantum {
                Err(error) => final(self).failed_with(*old(self), Some(error@)),
                Ok((entries, more)) => {
                    &&& final(self).read@ == old(self).read@ + entries_view(entries@)
                    &&& final(self).parts == old(self).parts
                    &&& final(self).runs == old(self).runs
                    &&& final(self).found == old(self).found
                    &&& final(self).same_order(*old(self))
                    &&& final(self).more == more
                    &&& turned(final(self).pending@) == entries_view(entries@)
                    &&& final(self).failures@.len() == 0
                    &&& final(self).stage == final(self).behind_entry()
                },
            },
    {
        match quantum {
            Err(error) => {
                self.fail(error);
            },
            Ok((entries, more)) => {
                let ghost all = entries@;
                let ghost before = self.read@;
                self.pending = reversed(entries);
                self.more = more;
                self.read = Ghost(before + entries_view(all));
                proof {
                    assert(turned(self.pending@) =~= entries_view(all)) by {
                        assert forall|i: int| 0 <= i < all.len() implies turned(self.pending@)[i]
                            == #[trigger] entries_view(all)[i] by {
                            assert(self.pending@[all.len() - 1 - i] == all[i]);
                        }
                    }
                    assert(turned(old(self).pending@) =~= Seq::<EntryModel>::empty());
                    assert(self.read@ =~= self.parts.seen@ + turned(self.pending@));
                }
                self.go_on();
            },
        }
    }

    fn add_entry(&mut self)
        requires
            old(self).scan_is_fresh(),
            old(self).read@ == old(self).parts.seen@ + turned(old(self).pending@),
            old(self).failures@.len() == 0,
            old(self).parts.wf(),
            old(self).sound(),
            old(self).found@.contains(old(self).pending@.last()@.run_session_id.text),
            old(self).parts.chunk@.len() < old(self).parts.sort_limit,
            old(self).pending@.len() > 0,
            model::entry_failure(old(self).pending@.last()@) is None,
            index::position_failure(old(self).pending@.last()@, old(self).parts.seen@.len()) is None,
        ensures
            final(self).wf(),
            final(self).added(*old(self)),
    {
        let ghost before = *self;
        match self.pending.pop() {
            Some(entry) => {
                let ghost model = entry@;
                proof {
                    assert(entry == before.pending@.last());
                    let rest = before.pending@.drop_last();
                    assert(self.pending@ =~= rest);
                    assert(turned(before.pending@) =~= seq![model] + turned(rest)) by {
                        assert forall|i: int| 0 <= i < before.pending@.len() implies turned(
                            before.pending@,
                        )[i] == #[trigger] (seq![model] + turned(rest))[i] by {}
                    }
                    assert(before.read@ =~= before.parts.seen@.push(model) + turned(rest));
                }
                match self.parts.add(entry) {
                    Ok(full) => {
                        assert(self.read@ == self.parts.seen@ + turned(self.pending@));
                        proof {
                            let count = before.parts.seen@.len() - before.parts.chunk@.len();
                            lemma_runs_hold_still(
                                before.parts.layout,
                                before.runs@,
                                before.parts.seen@,
                                count,
                                model,
                            );
                            assert(self.parts.run_count * self.parts.sort_limit
                                == before.parts.run_count * before.parts.sort_limit);
                            assert(self.parts.seen@.len() - self.parts.chunk@.len() == count);
                            assert forall|k: int| 0 <= k < self.parts.seen@.len() implies
                                self.found@.contains(
                                (#[trigger] self.parts.seen@[k]).run_session_id.text,
                            ) by {
                                if k < before.parts.seen@.len() {
                                    assert(self.parts.seen@[k] == before.parts.seen@[k]);
                                }
                            }
                        }
                        if full {
                            self.stage = BuildStage::Sort { last: false };
                        } else {
                            self.go_on();
                        }
                    },
                    Err(error) => {
                        self.fail(error);
                    },
                }
            },
            None => {},
        }
    }

    /// What taking the next entry comes to: the entry is one step of work, its record is
    /// added to the chunk, and a chunk that is full is sorted.
    pub open spec fn added(self, before: IndexBuild) -> bool {
        let entry = before.pending@.last()@;
        let wrong = error::first_failure(
            work::work_failure(before.parts.work, 1),
            error::first_failure(
                if records::entry_fits(before.parts.layout, entry) {
                    None
                } else {
                    error::protocol_failure("conversation history index id is oversized"@)
                },
                if before.parts.ordinal == u64::MAX {
                    error::protocol_failure("conversation history entry count overflow"@)
                } else {
                    None
                },
            ),
        );
        if wrong is Some {
            self.failed_with(before, wrong)
        } else {
            &&& self.read@ == before.read@
            &&& self.runs == before.runs
            &&& self.found == before.found
            &&& self.parts.seen@ == before.parts.seen@.push(entry)
            &&& self.pending@ == before.pending@.drop_last()
            &&& self.same_order(before)
            &&& self.parts.work == work::work_after(before.parts.work, 1)
            &&& self.parts.run_count == before.parts.run_count
            &&& self.parts.chunk@.len() == before.parts.chunk@.len() + 1
            &&& text::optional_view(self.parts.last_checked_run) == Some(entry.run_session_id.text)
            &&& self.more == before.more
            &&& self.failures@.len() == 0
            &&& self.stage == (if self.parts.chunk@.len() == self.parts.sort_limit {
                BuildStage::Sort { last: false }
            } else {
                self.behind_entry()
            })
        }
    }

    /// Takes the next entry that was read. Where its run is another than the last one that
    /// was found to exist, that run has to be looked for first.
    pub fn take_entry(&mut self)
        requires
            old(self).wf(),
            old(self).stage is Entry,
        ensures
            final(self).wf(),
            ({
                let entry = old(self).pending@.last()@;
                let wrong = error::first_failure(
                    model::entry_failure(entry),
                    index::position_failure(entry, old(self).parts.seen@.len()),
                );
                if wrong is Some {
                    final(self).failed_with(*old(self), wrong)
                } else if text::optional_view(old(self).parts.last_checked_run) != Some(
                    entry.run_session_id.text,
                ) {
                    final(self).moved_to(*old(self), BuildStage::CheckRun)
                } else {
                    final(self).added(*old(self))
                }
            }),
    {
        let last = self.pending.len() - 1;
        match self.parts.inspect(&self.pending[last]) {
            Err(error) => {
                self.fail(error);
            },
            Ok(check) => {
                if check {
                    self.stage = BuildStage::CheckRun;
                } else {
                    self.add_entry();
                }
            },
        }
    }

    /// Goes on when the run of the entry was looked for.
    pub fn run_checked(&mut self, outcome: Result<(), RuntimeError>)
        requires
            old(self).wf(),
            old(self).stage is CheckRun,
        ensures
            final(self).wf(),
            match outcome {
                Err(error) => final(self).failed_with(*old(self), Some(error@)),
                Ok(_) => final(self).added(
                    IndexBuild {
                        found: Ghost(
                            old(self).found@.insert(old(self).pending@.last()@.run_session_id.text),
                        ),
                        ..*old(self)
                    },
                ),
            },
    {
        match outcome {
            Err(error) => {
                self.fail(error);
            },
            Ok(()) => {
                let ghost run = self.pending@.last()@.run_session_id.text;
                let ghost found = self.found@.insert(run);
                self.found = Ghost(found);
                self.add_entry();
            },
        }
    }

    /// Sorts the chunk: the records of the run to write, and the name of its file. Where
    /// sorting them took too much work, there is none.
    pub fn sort_chunk(&mut self) -> (run: Option<(Vec<Vec<u8>>, String)>)
        requires
            old(self).wf(),
            old(self).stage is Sort,
        ensures
            final(self).wf(),
            exists|comparisons: nat| #[trigger]
                external_sort::comparisons_fit(comparisons, old(self).parts.chunk@.len()) && {
                    let wrong = work::work_failure(old(self).parts.work, comparisons);
                    match run {
                        None => final(self).failed_with(*old(self), wrong),
                        Some((records, leaf)) => {
                            &&& wrong is None
                            &&& records@.to_multiset() == old(self).parts.chunk@.to_multiset()
                            &&& external_sort::ordered(records@, false)
                            &&& leaf@ == scratch::run_leaf(0, old(self).parts.run_count)
                            &&& final(self).read@ == old(self).read@
                            &&& final(self).runs@ == old(self).runs@.push(records@)
                            &&& final(self).found == old(self).found
                            &&& final(self).parts.seen@ == old(self).parts.seen@
                            &&& final(self).parts.run_count == old(self).parts.run_count + 1
                            &&& final(self).parts.chunk@.len() == 0
                            &&& final(self).parts.work == work::work_after(
                                old(self).parts.work,
                                comparisons,
                            )
                            &&& final(self).parts.last_checked_run == old(self).parts.last_checked_run
                            &&& final(self).pending == old(self).pending
                            &&& final(self).same_order(*old(self))
                            &&& final(self).more == old(self).more
                            &&& final(self).failures@.len() == 0
                            &&& final(self).stage == (BuildStage::WriteRun {
                                last: old(self).stage->Sort_last,
                            })
                        },
                    }
                },
    {
        match self.stage {
            BuildStage::Sort { last } => {
                let ghost runs = self.runs@;
                match self.parts.take_run() {
                    Ok((records, number)) => {
                        proof {
                            lemma_runs_grow(old(self).parts, runs, records@);
                        }
                        self.runs = Ghost(runs.push(records@));
                        self.stage = BuildStage::WriteRun { last };
                        Some((records, index_run_leaf(0, number)))
                    },
                    Err(error) => {
                        self.fail(error);
                        None
                    },
                }
            },
            _ => None,
        }
    }

    /// Goes on when the run was written.
    pub fn run_written(&mut self, outcome: Result<(), RuntimeError>)
        requires
            old(self).wf(),
            old(self).stage is WriteRun,
        ensures
            final(self).wf(),
            match outcome {
                Err(error) => final(self).failed_with(*old(self), Some(error@)),
                Ok(_) => final(self).moved_to(
                    *old(self),
                    if old(self).stage->WriteRun_last {
                        BuildStage::Merge
                    } else {
                        old(self).behind_entry()
                    },
                ),
            },
    {
        match outcome {
            Err(error) => {
                self.fail(error);
            },
            Ok(()) => {
                match self.stage {
                    BuildStage::WriteRun { last } => {
                        if last {
                            self.stage = BuildStage::Merge;
                        } else {
                            self.go_on();
                        }
                    },
                    _ => {},
                }
            },
        }
    }

    /// Goes on when the runs were merged: into the runs of a generation, of which one is
    /// left, or none where there was none.
    pub fn merged(&mut self, outcome: Result<(u32, u64), RuntimeError>)
        requires
            old(self).wf(),
            old(self).stage is Merge,
        ensures
            final(self).wf(),
            match outcome {
                Err(error) => final(self).failed_with(*old(self), Some(error@)),
                Ok((generation, final_count)) => *final(self) == (IndexBuild {
                    generation,
                    final_count,
                    stage: if final_count == 0 {
                        BuildStage::CreateEmpty
                    } else {
                        BuildStage::Scan
                    },
                    ..*old(self)
                }),
            },
    {
        match outcome {
            Err(error) => {
                self.fail(error);
            },
            Ok((generation, final_count)) => {
                self.generation = generation;
                self.final_count = final_count;
                self.stage = if final_count == 0 {
                    BuildStage::CreateEmpty
                } else {
                    BuildStage::Scan
                };
            },
        }
    }

    /// Goes on when the next record of the sorted index was read. Gives the parent that is
    /// to be looked up in the index, where the record names one. The sorted index holds a
    /// record for every entry that was read, and is checked for as many as the history was
    /// counted to have: where the two differ, it ends early or goes on too long.
    pub fn scan_record(&mut self, record: Result<Option<Vec<u8>>, RuntimeError>) -> (parent: Option<
        Vec<u8>,
    >)
        requires
            old(self).wf(),
            old(self).stage is Scan,
            !old(self).scan.looking,
            record matches Ok(Some(record)) ==> records::fits(old(self).parts.layout, record@),
        ensures
            final(self).wf(),
            match record {
                Err(error) => parent is None && final(self).failed_with(*old(self), Some(error@)),
                Ok(record) => {
                    let found = index::optional_record(record);
                    let work = old(self).parts.work;
                    let wrong = index::scan_failure(old(self).scan, found, work);
                    if wrong is Some {
                        parent is None && final(self).failed_with(*old(self), wrong)
                    } else if record is None {
                        &&& parent is None
                        &&& if old(self).entries != old(self).read@.len() {
                            final(self).failed_with(
                                *old(self),
                                error::protocol_failure(
                                    if old(self).read@.len() < old(self).entries {
                                        "conversation history index ended early"@
                                    } else {
                                        "conversation history index has trailing records"@
                                    },
                                ),
                            )
                        } else {
                            final(self).moved_to(*old(self), BuildStage::Pointers)
                        }
                    } else {
                        &&& *final(self) == (IndexBuild {
                            scan: final(self).scan,
                            parts: HistoryBuild {
                                work: index::scan_work(old(self).scan, found, work),
                                ..old(self).parts
                            },
                            ..*old(self)
                        })
                        &&& final(self).scan.took(old(self).scan, found->0)
                        &&& index::optional_record(parent) == records::parent_of(
                            old(self).parts.layout,
                            found->0,
                        )
                    }
                },
            },
    {
        proof {
            assert(turned(self.pending@) =~= Seq::<EntryModel>::empty());
            assert(self.read@ =~= self.parts.seen@);
        }
        let record = match record {
            Ok(record) => record,
            Err(error) => {
                self.fail(error);
                return None;
            },
        };
        let step = self.scan.observe(record, &mut self.parts.work);
        match step {
            Err(error) => {
                self.fail(error);
                None
            },
            Ok(IndexScanStep::LookUpParent(parent)) => Some(parent),
            Ok(IndexScanStep::Next) => None,
            Ok(IndexScanStep::Complete) => {
                if self.parts.ordinal < self.entries {
                    self.fail(protocol("conversation history index ended early"));
                } else if self.parts.ordinal > self.entries {
                    self.fail(protocol("conversation history index has trailing records"));
                } else {
                    self.stage = BuildStage::Pointers;
                }
                None
            },
        }
    }

    /// Goes on when the parent of the last record was looked up in the index: its position
    /// in the history, where it is there.
    pub fn parent_looked_up(&mut self, found: Result<Option<u64>, RuntimeError>)
        requires
            old(self).wf(),
            old(self).stage is Scan,
            old(self).scan.looking,
        ensures
            final(self).wf(),
            match found {
                Err(error) => final(self).failed_with(*old(self), Some(error@)),
                Ok(found) => {
                    let wrong = index::parent_failure(old(self).scan, found);
                    if wrong is Some {
                        final(self).failed_with(*old(self), wrong)
                    } else {
                        &&& *final(self) == (IndexBuild { scan: final(self).scan, ..*old(self) })
                        &&& final(self).scan.found(old(self).scan, found->0)
                    }
                },
            },
    {
        match found {
            Err(error) => {
                self.fail(error);
            },
            Ok(found) => {
                let outcome = self.scan.parent_found(found);
                match outcome {
                    Err(error) => {
                        self.fail(error);
                    },
                    Ok(()) => {},
                }
            },
        }
    }

    /// Goes on when an empty index was made, or the events that the entries of the index
    /// point to were checked.
    pub fn checked(&mut self, outcome: Result<(), RuntimeError>)
        requires
            old(self).wf(),
            old(self).stage is CreateEmpty || old(self).stage is Pointers,
        ensures
            final(self).wf(),
            match outcome {
                Err(error) => final(self).failed_with(*old(self), Some(error@)),
                Ok(_) => final(self).moved_to(
                    *old(self),
                    match old(self).stage {
                        BuildStage::CreateEmpty => BuildStage::Scan,
                        _ => BuildStage::Built,
                    },
                ),
            },
    {
        match outcome {
            Err(error) => {
                self.fail(error);
            },
            Ok(()) => {
                self.stage = match self.stage {
                    BuildStage::CreateEmpty => BuildStage::Scan,
                    _ => BuildStage::Built,
                };
            },
        }
    }

    /// Ends a build that went wrong, when what was made was taken away.
    pub fn cleaned(&mut self, cleanup: Result<(), RuntimeError>)
        requires
            old(self).wf(),
            old(self).stage is Cleanup,
        ensures
            final(self).wf(),
            *final(self) == (IndexBuild {
                stage: BuildStage::Failed,
                failures: final(self).failures,
                ..*old(self)
            }),
            error::failures_view(final(self).failures@) == error::failures_view(old(self).failures@)
                + error::optional_failure(error::failure(cleanup)),
    {
        match cleanup {
            Err(error) => {
                self.failures.push(error);
            },
            Ok(()) => {},
        }
        self.stage = BuildStage::Failed;
        assert(error::failures_view(self.failures@) =~= error::failures_view(old(self).failures@)
            + error::optional_failure(error::failure(cleanup)));
    }

    /// The file that holds the index.
    pub fn leaf(&self) -> (leaf: String)
        ensures
            leaf@ == scratch::run_leaf(
                if self.final_count == 0 {
                    0
                } else {
                    self.generation
                },
                0,
            ),
    {
        index_leaf(self.generation, self.final_count)
    }

    /// The index that was built, and what the history holds as a whole: every entry that
    /// was read has its part in it, and each of them is sound.
    pub fn finish(self) -> (built: (ConversationHistoryIndex, HistorySummary))
        requires
            self.wf(),
            self.stage is Built,
        ensures
            ({
                let (index, summary) = built;
                &&& index.entries == self.read@.len()
                &&& index.work == self.parts.work
                &&& index.index_leaf@ == scratch::run_leaf(
                    if self.final_count == 0 {
                        0
                    } else {
                        self.generation
                    },
                    0,
                )
                &&& summary.entry_count == self.read@.len()
                &&& index::entries_sound(self.read@)
                &&& runs_found(self.read@, self.found@)
                &&& index::scanned_sound(self.parts.layout, self.scan.seen@)
                &&& self.scan.seen@.len() == self.read@.len()
                &&& index::optional_entry(summary.latest) == (if self.read@.len() == 0 {
                    None
                } else {
                    Some(self.read@.last())
                })
                &&& index::optional_entry(summary.selected) == index::last_with_id(
                    self.read@,
                    text::optional_view(self.parts.selected_id),
                )
                &&& summary.contains_run == index::records_run(
                    self.read@,
                    text::optional_view(self.parts.run_id),
                )
            }),
    {
        assert(turned(self.pending@) =~= Seq::<EntryModel>::empty());
        assert(self.read@ =~= self.parts.seen@);
        let leaf = index_leaf(self.generation, self.final_count);
        let work = self.parts.work;
        let index = ConversationHistoryIndex { entries: self.entries, index_leaf: leaf, work };
        let summary = HistorySummary {
            entry_count: self.entries,
            latest: self.parts.latest,
            selected: self.parts.selected,
            contains_run: self.parts.contains_run,
        };
        (index, summary)
    }
}

/// Whether a sorted index that was read back holds the records that were written in sorted
/// runs and no others, in the order of their identifiers.
pub open spec fn is_merged(seen: Seq<ScannedRecord>, runs: Seq<Seq<Vec<u8>>>) -> bool {
    &&& search::ids_sorted(index::scanned_ids(seen))
    &&& forall|r: int, i: int|
        0 <= r < runs.len() && 0 <= i < runs[r].len() ==> index::was_scanned(
            seen,
            (#[trigger] runs[r][i])@,
        )
    &&& forall|i: int| 0 <= i < seen.len() ==> in_runs(runs, (#[trigger] seen[i]).record)
}

/// Whether runs hold the same records as others.
pub open spec fn same_records(left: Seq<Seq<Vec<u8>>>, right: Seq<Seq<Vec<u8>>>) -> bool {
    forall|record: Seq<u8>| #[trigger] in_runs(left, record) <==> in_runs(right, record)
}

proof fn lemma_counted_in_runs(runs: Seq<Seq<Vec<u8>>>, held: Vec<u8>)
    ensures
        external_sort::run_records(runs).count(held) > 0 <==> exists|r: int, i: int|
            0 <= r < runs.len() && 0 <= i < runs[r].len() && #[trigger] runs[r][i] == held,
    decreases runs.len(),
{
    broadcast use vstd::seq_lib::group_to_multiset_ensures;

    if runs.len() > 0 {
        let rest = runs.drop_last();
        let last = runs.len() - 1;
        lemma_counted_in_runs(rest, held);
        if external_sort::run_records(rest).count(held) > 0 {
            let (r, i) = choose|r: int, i: int|
                0 <= r < rest.len() && 0 <= i < rest[r].len() && #[trigger] rest[r][i] == held;
            assert(runs[r] == rest[r]);
            assert(runs[r][i] == held);
        }
        if runs.last().to_multiset().count(held) > 0 {
            assert(runs.last().contains(held));
            let i = choose|i: int| 0 <= i < runs.last().len() && runs.last()[i] == held;
            assert(runs[last][i] == held);
        }
        assert forall|r: int, i: int|
            0 <= r < runs.len() && 0 <= i < runs[r].len() && #[trigger] runs[r][i]
                == held implies external_sort::run_records(runs).count(held) > 0 by {
            if r < last {
                assert(rest[r] == runs[r]);
                assert(rest[r][i] == held);
            } else {
                assert(runs.last().contains(held));
            }
        }
    }
}

/// Merging some runs keeps their records: when every run has come to its end, the run that
/// was written holds what they hold, in order.
pub proof fn law_merge_keeps_the_records(merge: RecordMerge<Vec<u8>>)
    requires
        merge.wf(),
        merge.in_order(),
        external_sort::least(merge.heads@, merge.heads@.len() as int) is None,
    ensures
        same_records(merge.runs@, seq![merge.written@]),
        external_sort::ordered(merge.written@, false),
{
    broadcast use vstd::seq_lib::group_to_multiset_ensures;

    external_sort::law_merged_run_holds_every_record(merge);
    let (runs, written) = (merge.runs@, merge.written@);
    let one = seq![written];
    assert(one[0] == written);
    assert forall|record: Seq<u8>| #[trigger] in_runs(runs, record) <==> in_runs(one, record) by {
        if in_runs(runs, record) {
            let (r, i) = choose|r: int, i: int|
                0 <= r < runs.len() && 0 <= i < runs[r].len() && (#[trigger] runs[r][i])@ == record;
            let held = runs[r][i];
            lemma_counted_in_runs(runs, held);
            assert(written.contains(held));
            let j = choose|j: int| 0 <= j < written.len() && written[j] == held;
            assert(one[0][j]@ == record);
        }
        if in_runs(one, record) {
            let (r, j) = choose|r: int, j: int|
                0 <= r < one.len() && 0 <= j < one[r].len() && (#[trigger] one[r][j])@ == record;
            let held = written[j];
            assert(written.contains(held));
            assert(written.to_multiset().count(held) > 0);
            lemma_counted_in_runs(runs, held);
            let (q, i) = choose|q: int, i: int|
                0 <= q < runs.len() && 0 <= i < runs[q].len() && #[trigger] runs[q][i] == held;
            assert(runs[q][i]@ == record);
        }
    }
}

proof fn lemma_in_either(left: Seq<Seq<Vec<u8>>>, right: Seq<Seq<Vec<u8>>>, record: Seq<u8>)
    ensures
        in_runs(left + right, record) <==> in_runs(left, record) || in_runs(right, record),
{
    let both = left + right;
    if in_runs(both, record) {
        let (r, i) = choose|r: int, i: int|
            0 <= r < both.len() && 0 <= i < both[r].len() && (#[trigger] both[r][i])@ == record;
        if r < left.len() {
            assert(left[r][i]@ == record);
        } else {
            assert(right[r - left.len()][i]@ == record);
        }
    }
    if in_runs(left, record) {
        let (r, i) = choose|r: int, i: int|
            0 <= r < left.len() && 0 <= i < left[r].len() && (#[trigger] left[r][i])@ == record;
        assert(both[r] == left[r]);
        assert(both[r][i]@ == record);
    }
    if in_runs(right, record) {
        let (r, i) = choose|r: int, i: int|
            0 <= r < right.len() && 0 <= i < right[r].len() && (#[trigger] right[r][i])@ == record;
        assert(both[left.len() + r] == right[r]);
        assert(both[left.len() + r][i]@ == record);
    }
}

/// The runs of groups, one group behind the other.
pub open spec fn joined_groups(groups: Seq<Seq<Seq<Vec<u8>>>>) -> Seq<Seq<Vec<u8>>>
    decreases groups.len(),
{
    if groups.len() == 0 {
        Seq::empty()
    } else {
        joined_groups(groups.drop_last()) + groups.last()
    }
}

/// A generation of merging keeps the records: where every group of neighbouring runs is
/// merged into one run of its records, the merged runs hold what all runs held.
pub proof fn law_generation_keeps_the_records(
    groups: Seq<Seq<Seq<Vec<u8>>>>,
    merged: Seq<Seq<Vec<u8>>>,
)
    requires
        groups.len() == merged.len(),
        forall|k: int| 0 <= k < groups.len() ==> same_records(#[trigger] groups[k], seq![merged[k]]),
    ensures
        same_records(joined_groups(groups), merged),
    decreases groups.len(),
{
    if groups.len() > 0 {
        let (rest, fewer) = (groups.drop_last(), merged.drop_last());
        assert forall|k: int| 0 <= k < rest.len() implies same_records(
            #[trigger] rest[k],
            seq![fewer[k]],
        ) by {
            assert(same_records(groups[k], seq![merged[k]]));
        }
        law_generation_keeps_the_records(rest, fewer);
        let last = seq![merged.last()];
        assert(same_records(groups[groups.len() - 1], seq![merged[groups.len() - 1]]));
        assert(merged =~= fewer + last);
        assert forall|record: Seq<u8>| #[trigger]
            in_runs(joined_groups(groups), record) <==> in_runs(merged, record) by {
            lemma_in_either(joined_groups(rest), groups.last(), record);
            lemma_in_either(fewer, last, record);
        }
    } else {
        assert(merged =~= joined_groups(groups));
    }
}

/// The one run that merging leaves is the sorted index of what was written: it holds the
/// records of the sorted runs and no others, in the order of their identifiers.
pub proof fn law_last_run_is_the_index(
    runs: Seq<Seq<Vec<u8>>>,
    last: Seq<Vec<u8>>,
    seen: Seq<ScannedRecord>,
)
    requires
        same_records(runs, seq![last]),
        external_sort::ordered(last, false),
        seen.len() == last.len(),
        forall|i: int| 0 <= i < seen.len() ==> (#[trigger] seen[i]).record == last[i]@,
    ensures
        is_merged(seen, runs),
{
    let one = seq![last];
    assert(one[0] == last);
    let ids = index::scanned_ids(seen);
    assert forall|i: int, j: int|
        #![trigger ids[i], ids[j]]
        0 <= i < j < ids.len() implies !order::bytes_before(ids[j], ids[i]) by {
        assert(seen[i].record == last[i]@ && seen[j].record == last[j]@);
        assert(external_sort::in_order(last[i], last[j], false));
    }
    assert forall|r: int, i: int| 0 <= r < runs.len() && 0 <= i < runs[r].len() implies index::was_scanned(
        seen,
        (#[trigger] runs[r][i])@,
    ) by {
        let record = runs[r][i]@;
        assert(in_runs(runs, record));
        let (q, j) = choose|q: int, j: int|
            0 <= q < one.len() && 0 <= j < one[q].len() && (#[trigger] one[q][j])@ == record;
        assert(seen[j].record == last[j]@);
    }
    assert forall|i: int| 0 <= i < seen.len() implies in_runs(runs, (#[trigger] seen[i]).record) by {
        assert(one[0][i]@ == seen[i].record);
        assert(in_runs(one, seen[i].record));
    }
}

/// A history whose index was built is one tree: its entries have identifiers of their own,
/// the first is the root, every other has its parent before it, and the run of each was
/// found. The files gave back what was written to them: the index that was read holds the
/// records of the runs in order, and a parent was looked up by halving it.
pub proof fn law_built_history_is_one_tree(build: IndexBuild)
    requires
        build.wf(),
        build.stage is Built,
        is_merged(build.scan.seen@, build.runs@),
        index::parents_searched(build.parts.layout, build.scan.seen@),
    ensures
        index::one_tree(build.read@),
        runs_found(build.read@, build.found@),
{
    let (layout, seen, entries) = (build.parts.layout, build.scan.seen@, build.read@);
    assert(turned(build.pending@) =~= Seq::<EntryModel>::empty());
    assert(entries =~= build.parts.seen@);
    let ids = index::scanned_ids(seen);
    assert forall|i: int, j: int|
        #![trigger seen[i], seen[j]]
        0 <= i < j < seen.len() implies !order::bytes_before(
        records::leading_id(seen[j].record),
        records::leading_id(seen[i].record),
    ) by {
        assert(!order::bytes_before(ids[j], ids[i]));
    }
    assert forall|k: int| 0 <= k < entries.len() implies #[trigger] index::is_indexed(
        layout,
        seen,
        entries[k],
        k,
    ) by {
        let record = records::index_record(layout, entries[k], k as u64);
        assert(in_runs(build.runs@, record));
        let (r, i) = choose|r: int, i: int|
            0 <= r < build.runs@.len() && 0 <= i < build.runs@[r].len() && (
            #[trigger] build.runs@[r][i])@ == record;
        assert(index::was_scanned(seen, build.runs@[r][i]@));
    }
    assert forall|i: int| 0 <= i < seen.len() implies #[trigger] index::is_of_history(
        layout,
        entries,
        seen[i].record,
    ) by {
        assert(in_runs(build.runs@, seen[i].record));
        let (r, j) = choose|r: int, j: int|
            0 <= r < build.runs@.len() && 0 <= j < build.runs@[r].len() && (
            #[trigger] build.runs@[r][j])@ == seen[i].record;
        assert(index::is_of_history(layout, entries, build.runs@[r][j]@));
    }
    index::lemma_searched_parents_are_true(layout, seen);
    index::law_scanned_history_is_one_tree(layout, seen, entries);
}

/// The run of an entry and the sequence of the event that it points to.
pub open spec fn pointer_of(entry: EntryModel) -> (Seq<u8>, nat) {
    (encode_utf8(entry.run_session_id.text), entry.event_sequence as nat)
}

/// Whether sorted pointers that were read are those of the entries of a history.
pub open spec fn points_from(entries: Seq<EntryModel>, pointers: Seq<(Seq<u8>, nat)>) -> bool {
    &&& pointers::sorted_by_run(pointers)
    &&& forall|k: int| 0 <= k < entries.len() ==> pointers.contains(pointer_of(#[trigger] entries[k]))
    &&& forall|i: int|
        0 <= i < pointers.len() ==> is_pointer_of(entries, #[trigger] pointers[i])
}

/// Whether an entry of a history has a pointer.
pub open spec fn is_pointer_of(entries: Seq<EntryModel>, pointer: (Seq<u8>, nat)) -> bool {
    exists|k: int| 0 <= k < entries.len() && pointer == pointer_of(#[trigger] entries[k])
}

/// The events of a history are checked run by run, each run once and up to the highest
/// sequence that an entry points to in it: the run of every entry is checked up to a
/// sequence that is no lower than its own, and an entry points to the event that a run is
/// checked up to. The files gave back the pointers of the entries, sorted by run.
pub proof fn law_every_run_is_checked_to_its_last_event(
    entries: Seq<EntryModel>,
    scan: SortedPointerScan,
)
    requires
        scan.wf(),
        scan.read == scan.entries,
        points_from(entries, scan.seen@),
    ensures
        ({
            let checked = scan.emitted@ + pointers::optional_pointer(scan.groups.current);
            &&& pointers::runs_rise(checked)
            &&& forall|k: int|
                0 <= k < entries.len() ==> pointers::is_covered(
                    pointer_of(#[trigger] entries[k]),
                    checked,
                )
            &&& forall|a: int|
                0 <= a < checked.len() ==> is_pointer_of(entries, #[trigger] checked[a])
        }),
{
    let seen = scan.seen@;
    let checked = pointers::grouped(seen);
    pointers::law_grouped_sorted(seen);
    assert forall|k: int| 0 <= k < entries.len() implies pointers::is_covered(
        pointer_of(#[trigger] entries[k]),
        checked,
    ) by {
        let pointer = pointer_of(entries[k]);
        assert(seen.contains(pointer));
        let i = choose|i: int| 0 <= i < seen.len() && seen[i] == pointer;
        assert(pointers::is_covered(seen[i], checked));
    }
    assert forall|a: int| 0 <= a < checked.len() implies is_pointer_of(
        entries,
        #[trigger] checked[a],
    ) by {
        assert(seen.contains(checked[a]));
        let i = choose|i: int| 0 <= i < seen.len() && seen[i] == checked[a];
        assert(is_pointer_of(entries, seen[i]));
    }
}

/// The pointer that is kept of an entry, whatever its place in the history, names its run
/// and its event.
pub proof fn law_pointer_names_run_and_event(layout: IndexLayout, entry: EntryModel, ordinal: u64)
    requires
        layout.wf(),
        records::entry_fits(layout, entry),
    ensures
        pointers::pointer_view(
            layout,
            records::pointer_record(layout, records::index_record(layout, entry, ordinal)),
        ) == pointer_of(entry),
{
    records::law_record_round_trip(layout, entry, ordinal);
}

/// What is known of the history that an entry is added to.
pub enum KnownHistory {
    /// There is none yet.
    Missing,
    /// It has so many entries; whether one has the identifier of the entry, and whether one
    /// has that of its parent.
    Indexed { count: u64, duplicate: Result<bool, RuntimeError>, parent: Result<bool, RuntimeError> },
}

/// What is wrong with adding an entry to a history.
pub open spec fn place_failure(entry: EntryModel, history: KnownHistory) -> Option<ErrorModel> {
    match history {
        KnownHistory::Missing => if entry.parent_entry_id is Some {
            error::protocol_failure("the conversation root must omit its parent"@)
        } else {
            None
        },
        KnownHistory::Indexed { count, duplicate, parent } => match duplicate {
            Err(error) => Some(error@),
            Ok(duplicate) => if !duplicate && entry.parent_entry_id is Some && count > 0
                && parent is Err {
                Some(parent->Err_0@)
            } else {
                model::append_failure(entry, count as nat, duplicate, parent == Ok::<bool, RuntimeError>(true))
            },
        },
    }
}

/// What is wrong with appending an entry to the history of a conversation.
pub open spec fn append_entry_failure(
    conversation_id: CheckedModel,
    entry: EntryModel,
    conversation: Result<(), RuntimeError>,
    history: Result<KnownHistory, RuntimeError>,
    run: Result<(), RuntimeError>,
    pointer: Result<(), RuntimeError>,
) -> Option<ErrorModel> {
    error::first_failure(
        contract::id_failure(conversation_id, "conversation"@),
        error::first_failure(
            model::entry_failure(entry),
            error::first_failure(
                error::failure(conversation),
                match history {
                    Err(error) => Some(error@),
                    Ok(history) => error::first_failure(
                        place_failure(entry, history),
                        error::first_failure(error::failure(run), error::failure(pointer)),
                    ),
                },
            ),
        ),
    )
}

/// Accepts an entry that is about to be appended to the history of a conversation: the
/// conversation is there, the entry has its place in the history, its run is there, and
/// so is the event that it points to.
pub fn append_conversation_entry(
    conversation_id: &Checked,
    entry: &ConversationEntry,
    conversation: Result<(), RuntimeError>,
    history: Result<KnownHistory, RuntimeError>,
    run: Result<(), RuntimeError>,
    pointer: Result<(), RuntimeError>,
) -> (result: Result<(), RuntimeError>)
    ensures
        error::failure(result) == append_entry_failure(
            conversation_id@,
            entry@,
            conversation,
            history,
            run,
            pointer,
        ),
{
    validate_id(conversation_id, "conversation")?;
    validate_conversation_entry(entry)?;
    conversation?;
    match history? {
        KnownHistory::Missing => {
            if entry.parent_entry_id.is_some() {
                return Err(protocol("the conversation root must omit its parent"));
            }
        },
        KnownHistory::Indexed { count, duplicate, parent } => {
            let duplicate = duplicate?;
            let looked_up = if !duplicate && entry.parent_entry_id.is_some() && count > 0 {
                parent?
            } else {
                false
            };
            admit_entry(entry, count, duplicate, looked_up)?;
        },
    }
    run?;
    pointer
}

/// An entry that is appended is the root of its history, or a child of an entry that is
/// there; and no entry of the history has its identifier.
pub proof fn law_appended_entry_has_its_place(entry: EntryModel, history: KnownHistory)
    requires
        place_failure(entry, history) is None,
    ensures
        match history {
            KnownHistory::Missing => entry.parent_entry_id is None,
            KnownHistory::Indexed { count, duplicate, parent } => {
                &&& duplicate == Ok::<bool, RuntimeError>(false)
                &&& entry.parent_entry_id is None <==> count == 0
                &&& entry.parent_entry_id is Some ==> parent == Ok::<bool, RuntimeError>(true)
            },
        },
{
}

/// What a history is said to hold as a whole is what its entries say: the latest entry is the
/// last one, the selected entry is there wherever an entry has its identifier, the root among
/// them, and a run is recorded exactly where an entry records it.
pub proof fn law_summary_is_that_of_the_entries(build: IndexBuild)
    requires
        build.wf(),
        build.stage is Built,
    ensures
        ({
            let entries = build.read@;
            let latest = index::optional_entry(build.parts.latest);
            let selected = index::optional_entry(build.parts.selected);
            &&& entries.len() == 0 ==> latest is None
            &&& entries.len() > 0 ==> latest == Some(entries[entries.len() - 1])
            &&& match build.parts.selected_id {
                None => selected is None,
                Some(id) => match selected {
                    Some(entry) => entry.entry_id.text == id@ && entries.contains(entry),
                    None => forall|k: int|
                        0 <= k < entries.len() ==> (#[trigger] entries[k]).entry_id.text != id@,
                },
            }
            &&& match build.parts.run_id {
                None => !build.parts.contains_run,
                Some(id) => build.parts.contains_run <==> exists|k: int|
                    0 <= k < entries.len() && (#[trigger] entries[k]).run_session_id.text == id@,
            }
        }),
{
    let entries = build.read@;
    assert(turned(build.pending@) =~= Seq::<EntryModel>::empty());
    assert(entries =~= build.parts.seen@);
    if let Some(id) = build.parts.selected_id {
        index::law_selected_entry_is_found(entries, id@);
        if let Some(entry) = index::last_with_id(entries, Some(id@)) {
            let k = choose|k: int|
                #![trigger entries[k]]
                0 <= k < entries.len() && entries[k] == entry && forall|j: int|
                    k < j < entries.len() ==> (#[trigger] entries[j]).entry_id.text != id@;
            assert(entries.contains(entry));
        }
    } else {
        index::law_selected_entry_is_found(entries, Seq::empty());
    }
}

} // verus!
