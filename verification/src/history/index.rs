//! Building the index of a history entry by entry, reading it back in order, and
//! walking from an entry to the root of its conversation.

use crate::contract::MAX_CONVERSATION_RECORD_BYTES;
use crate::error::{protocol, ErrorModel, RuntimeError};
use crate::error;
use crate::history::external_sort::sort_run;
use crate::history::external_sort;
use crate::history::model::{validate_conversation_entry, ConversationEntry, EntryModel};
use crate::history::model;
use crate::history::records::{encode_record, record_parent, IndexLayout};
use crate::history::records;
use crate::history::scratch::index_run_leaf;
use crate::history::scratch;
use crate::history::search::{check_record_id, check_record_parent};
use crate::history::search;
use crate::history::work::WorkBudget;
use crate::history::work;
use crate::order;
use crate::text::{join2, same_text};
use crate::text;
use vstd::prelude::*;
use vstd::utf8::*;

verus! {

/// The last of some entries with an identifier.
pub open spec fn last_with_id(entries: Seq<EntryModel>, id: Option<Seq<char>>) -> Option<EntryModel>
    decreases entries.len(),
{
    if entries.len() == 0 || id is None {
        None
    } else if entries.last().entry_id.text == id->0 {
        Some(entries.last())
    } else {
        last_with_id(entries.drop_last(), id)
    }
}

/// Whether some entry records a run.
pub open spec fn records_run(entries: Seq<EntryModel>, run: Option<Seq<char>>) -> bool {
    run is Some && exists|i: int|
        0 <= i < entries.len() && (#[trigger] entries[i]).run_session_id.text == run->0
}

/// What is wrong with an entry at a position of the history.
pub open spec fn position_failure(entry: EntryModel, position: nat) -> Option<ErrorModel> {
    if position == 0 && entry.parent_entry_id is Some {
        error::protocol_failure("the conversation root must omit its parent"@)
    } else if position > 0 && entry.parent_entry_id is None {
        error::protocol_failure("only the conversation root may omit its parent"@)
    } else {
        None
    }
}

/// Whether every entry is sound, and the first alone has no parent.
pub open spec fn entries_sound(entries: Seq<EntryModel>) -> bool {
    forall|i: int|
        0 <= i < entries.len() ==> model::entry_failure(#[trigger] entries[i]) is None && position_failure(
            entries[i],
            i as nat,
        ) is None
}

/// What a history holds as a whole.
pub struct HistorySummary {
    pub entry_count: u64,
    pub latest: Option<ConversationEntry>,
    pub selected: Option<ConversationEntry>,
    pub contains_run: bool,
}

/// An optional entry by its contents.
pub open spec fn optional_entry(entry: Option<ConversationEntry>) -> Option<EntryModel> {
    match entry {
        Some(entry) => Some(entry@),
        None => None,
    }
}

/// An index that is being built.
pub struct HistoryBuild {
    pub layout: IndexLayout,
    pub sort_limit: usize,
    pub selected_id: Option<String>,
    pub run_id: Option<String>,
    pub chunk: Vec<Vec<u8>>,
    pub ordinal: u64,
    pub run_count: u64,
    pub latest: Option<ConversationEntry>,
    pub selected: Option<ConversationEntry>,
    pub contains_run: bool,
    pub last_checked_run: Option<String>,
    pub work: WorkBudget,
    pub seen: Ghost<Seq<EntryModel>>,
}

impl HistoryBuild {
    /// The summary is that of the entries seen so far, and the chunk holds the
    /// records of those that are not in a run yet.
    pub open spec fn wf(self) -> bool {
        let seen = self.seen@;
        &&& self.layout.wf()
        &&& self.sort_limit > 0
        &&& self.ordinal == seen.len()
        &&& entries_sound(seen)
        &&& forall|i: int| 0 <= i < seen.len() ==> records::entry_fits(self.layout, #[trigger] seen[i])
        &&& optional_entry(self.latest) == (if seen.len() == 0 {
            None
        } else {
            Some(seen.last())
        })
        &&& optional_entry(self.selected) == last_with_id(seen, text::optional_view(self.selected_id))
        &&& self.contains_run == records_run(seen, text::optional_view(self.run_id))
        &&& self.chunk@.len() <= self.sort_limit
        &&& self.run_count * self.sort_limit + self.chunk@.len() == seen.len()
        &&& forall|i: int|
            0 <= i < self.chunk@.len() ==> (#[trigger] self.chunk@[i])@ == records::index_record(
                self.layout,
                seen[self.run_count * self.sort_limit + i],
                (self.run_count * self.sort_limit + i) as u64,
            )
        &&& self.work.used <= self.work.limit
    }

    /// An index of which nothing is built.
    pub fn start(
        layout: IndexLayout,
        sort_limit: usize,
        work_limit: u64,
        selected_id: Option<String>,
        run_id: Option<String>,
    ) -> (build: HistoryBuild)
        requires
            layout.wf(),
            sort_limit > 0,
        ensures
            build.wf(),
            build.seen@ == Seq::<EntryModel>::empty(),
            build.work == (WorkBudget { used: 0, limit: work_limit }),
            build.selected_id == selected_id,
            build.run_id == run_id,
            build.sort_limit == sort_limit,
            build.layout == layout,
            build.last_checked_run is None,
    {
        HistoryBuild {
            layout,
            sort_limit,
            selected_id,
            run_id,
            chunk: Vec::new(),
            ordinal: 0,
            run_count: 0,
            latest: None,
            selected: None,
            contains_run: false,
            last_checked_run: None,
            work: WorkBudget { used: 0, limit: work_limit },
            seen: Ghost(Seq::empty()),
        }
    }

    /// Looks at the next entry: says whether the run it records is another than the
    /// last one that was found to exist, or what is wrong with the entry.
    pub fn inspect(&self, entry: &ConversationEntry) -> (result: Result<bool, RuntimeError>)
        requires
            self.wf(),
        ensures
            error::failure(result) == error::first_failure(
                model::entry_failure(entry@),
                position_failure(entry@, self.seen@.len()),
            ),
            result matches Ok(check) ==> check == (text::optional_view(self.last_checked_run) != Some(
                entry@.run_session_id.text,
            )),
    {
        validate_conversation_entry(entry)?;
        if self.ordinal == 0 {
            if entry.parent_entry_id.is_some() {
                return Err(protocol("the conversation root must omit its parent"));
            }
        } else if entry.parent_entry_id.is_none() {
            return Err(protocol("only the conversation root may omit its parent"));
        }
        match &self.last_checked_run {
            Some(run) => Ok(!same_text(run.as_str(), entry.run_session_id.text.as_str())),
            None => Ok(true),
        }
    }

    /// Adds an entry that was looked at and whose run exists; true where the chunk
    /// is now full and has to become a run.
    pub fn add(&mut self, entry: ConversationEntry) -> (result: Result<bool, RuntimeError>)
        requires
            old(self).wf(),
            old(self).chunk@.len() < old(self).sort_limit,
            model::entry_failure(entry@) is None,
            position_failure(entry@, old(self).seen@.len()) is None,
        ensures
            error::failure(result) == error::first_failure(
                work::work_failure(old(self).work, 1),
                error::first_failure(
                    if records::entry_fits(old(self).layout, entry@) {
                        None
                    } else {
                        error::protocol_failure("conversation history index id is oversized"@)
                    },
                    if old(self).ordinal == u64::MAX {
                        error::protocol_failure("conversation history entry count overflow"@)
                    } else {
                        None
                    },
                ),
            ),
            result matches Ok(full) ==> {
                &&& final(self).wf()
                &&& final(self).seen@ == old(self).seen@.push(entry@)
                &&& final(self).work == work::work_after(old(self).work, 1)
                &&& full == (final(self).chunk@.len() == final(self).sort_limit)
                &&& text::optional_view(final(self).last_checked_run) == Some(entry@.run_session_id.text)
                &&& final(self).layout == old(self).layout
                &&& final(self).sort_limit == old(self).sort_limit
                &&& final(self).selected_id == old(self).selected_id
                &&& final(self).run_id == old(self).run_id
                &&& final(self).run_count == old(self).run_count
            },
    {
        let ghost before = self.seen@;
        let ghost model = entry@;
        self.work.add(1)?;
        let record = encode_record(self.layout, &entry, self.ordinal)?;
        let next = match self.ordinal.checked_add(1) {
            Some(next) => next,
            None => {
                return Err(protocol("conversation history entry count overflow"));
            },
        };
        let is_selected = match &self.selected_id {
            Some(id) => same_text(id.as_str(), entry.entry_id.text.as_str()),
            None => false,
        };
        let is_run = match &self.run_id {
            Some(id) => same_text(id.as_str(), entry.run_session_id.text.as_str()),
            None => false,
        };
        if is_selected {
            self.selected = Some(entry.clone());
        }
        if is_run {
            self.contains_run = true;
        }
        self.last_checked_run = Some(entry.run_session_id.text.clone());
        self.latest = Some(entry);
        self.chunk.push(record);
        self.ordinal = next;
        self.seen = Ghost(before.push(model));
        proof {
            let after = self.seen@;
            assert(after.drop_last() =~= before);
            assert(after.last() == model);
            assert forall|i: int| 0 <= i < after.len() implies model::entry_failure(#[trigger] after[i]) is None
                && position_failure(after[i], i as nat) is None && records::entry_fits(
                self.layout,
                after[i],
            ) by {
                if i < before.len() {
                    assert(after[i] == before[i]);
                }
            }
            let run = text::optional_view(self.run_id);
            if records_run(before, run) {
                let i = choose|i: int|
                    0 <= i < before.len() && (#[trigger] before[i]).run_session_id.text == run->0;
                assert(after[i].run_session_id.text == run->0);
            }
            if is_run {
                assert(after[before.len() as int].run_session_id.text == run->0);
            }
            if records_run(after, run) && !is_run {
                let i = choose|i: int|
                    0 <= i < after.len() && (#[trigger] after[i]).run_session_id.text == run->0;
                assert(before[i].run_session_id.text == run->0);
            }
            let base = self.run_count * self.sort_limit;
            assert forall|i: int| 0 <= i < self.chunk@.len() implies (#[trigger] self.chunk@[i])@
                == records::index_record(self.layout, after[base + i], (base + i) as u64) by {
                if i < old(self).chunk@.len() {
                    assert(old(self).chunk@[i]@ == records::index_record(
                        self.layout,
                        before[base + i],
                        (base + i) as u64,
                    ));
                }
            }
        }
        Ok(self.chunk.len() == self.sort_limit)
    }

    /// Sorts the chunk into a run and hands it out with its number.
    pub fn take_run(&mut self) -> (result: Result<(Vec<Vec<u8>>, u64), RuntimeError>)
        requires
            old(self).wf(),
            old(self).chunk@.len() > 0,
        ensures
            result matches Ok(run) ==> {
                &&& run.0@.to_multiset() == old(self).chunk@.to_multiset()
                &&& external_sort::ordered(run.0@, false)
                &&& run.1 == old(self).run_count
                &&& final(self).chunk@.len() == 0
                &&& final(self).run_count == old(self).run_count + 1
                &&& final(self).seen@ == old(self).seen@
                &&& old(self).chunk@.len() == old(self).sort_limit ==> final(self).wf()
                &&& optional_entry(final(self).latest) == optional_entry(old(self).latest)
                &&& optional_entry(final(self).selected) == optional_entry(old(self).selected)
                &&& final(self).contains_run == old(self).contains_run
                &&& final(self).ordinal == old(self).ordinal
                &&& final(self).selected_id == old(self).selected_id
                &&& final(self).run_id == old(self).run_id
                &&& final(self).layout == old(self).layout
                &&& final(self).sort_limit == old(self).sort_limit
                &&& final(self).last_checked_run == old(self).last_checked_run
            },
            exists|comparisons: nat| #[trigger]
                external_sort::comparisons_fit(comparisons, old(self).chunk@.len()) && error::failure(result)
                    == work::work_failure(old(self).work, comparisons) && (result is Ok
                    ==> final(self).work == work::work_after(old(self).work, comparisons)),
    {
        proof {
            assert forall|i: int| 0 <= i < self.chunk@.len() implies records::has_leading_id(
                (#[trigger] self.chunk@[i])@,
            ) by {
                let at = self.run_count * self.sort_limit + i;
                assert(0 <= at < self.seen@.len()) by {
                    assert(self.run_count * self.sort_limit >= 0) by (nonlinear_arith);
                }
                assert(records::entry_fits(self.layout, self.seen@[at]));
                records::law_record_round_trip(self.layout, self.seen@[at], at as u64);
            }
            assert(external_sort::all_sortable(self.chunk@));
        }
        let ghost full = self.chunk@.len() == self.sort_limit;
        let ghost count = self.run_count as int;
        let ghost limit = self.sort_limit as int;
        assert(count < self.ordinal) by {
            assert(count * limit >= count) by (nonlinear_arith)
                requires
                    limit >= 1,
                    count >= 0,
            ;
        }
        let mut run: Vec<Vec<u8>> = Vec::new();
        std::mem::swap(&mut run, &mut self.chunk);
        sort_run(&mut run, &mut self.work)?;
        let number = self.run_count;
        self.run_count = self.run_count + 1;
        proof {
            assert((count + 1) * limit == count * limit + limit) by (nonlinear_arith);
        }
        Ok((run, number))
    }
}

/// The name of the file that holds the whole index once runs are merged; an empty
/// history has an empty one.
pub fn index_leaf(generation: u32, final_count: u64) -> (leaf: String)
    ensures
        leaf@ == scratch::run_leaf(
            if final_count == 0 {
                0
            } else {
                generation
            },
            0,
        ),
{
    if final_count == 0 {
        index_run_leaf(0, 0)
    } else {
        index_run_leaf(generation, 0)
    }
}

/// What is to be done with the next record of a sorted index.
pub enum IndexScanStep {
    /// Look up the parent that the record names, then go on.
    LookUpParent(Vec<u8>),
    /// Go on with the next record.
    Next,
    /// The index is complete.
    Complete,
}

/// A record of a sorted index that was checked: its bytes, and the position in the history
/// that its parent was found at, where it has one.
pub struct ScannedRecord {
    pub record: Seq<u8>,
    pub parent: Option<nat>,
}

/// A sorted index that is read record by record.
pub struct SortedIndexScan {
    pub layout: IndexLayout,
    pub entries: u64,
    pub read: u64,
    pub prior: Option<Vec<u8>>,
    /// Whether the parent of the last record is being looked up.
    pub looking: bool,
    /// Every record that was checked.
    pub seen: Ghost<Seq<ScannedRecord>>,
}

/// The identifier of the record before one.
pub open spec fn id_before(seen: Seq<ScannedRecord>, k: int) -> Option<Seq<u8>> {
    if k <= 0 {
        None
    } else {
        Some(records::leading_id(seen[k - 1].record))
    }
}

/// Whether every record that was checked is sound: its identifier is not that of the one
/// before, and its parent, where it names one, comes before it in the history.
pub open spec fn scanned_sound(layout: IndexLayout, seen: Seq<ScannedRecord>) -> bool {
    forall|k: int|
        0 <= k < seen.len() ==> search::record_failure(
            layout,
            id_before(seen, k),
            (#[trigger] seen[k]).record,
            seen[k].parent,
        ) is None
}

/// What is wrong with what reading the next record of a sorted index gave.
pub open spec fn scan_failure(scan: SortedIndexScan, record: Option<Seq<u8>>, work: WorkBudget) -> Option<
    ErrorModel,
> {
    match record {
        None => if scan.read < scan.entries {
            error::protocol_failure("conversation history index ended early"@)
        } else {
            None
        },
        Some(record) => if scan.read == scan.entries {
            error::protocol_failure("conversation history index has trailing records"@)
        } else {
            error::first_failure(
                work::work_failure(work, 1),
                search::record_id_failure(scan.layout, scan.prior_id(), record),
            )
        },
    }
}

/// The work that is left when the next record was read: a record is one step.
pub open spec fn scan_work(scan: SortedIndexScan, record: Option<Seq<u8>>, work: WorkBudget) -> WorkBudget {
    if record is None || scan.read == scan.entries {
        work
    } else {
        work::work_after(work, 1)
    }
}

/// What is wrong with where the parent of the last record was found.
pub open spec fn parent_failure(scan: SortedIndexScan, found: Option<u64>) -> Option<ErrorModel> {
    match found {
        Some(ordinal) if (ordinal as nat) < records::ordinal_of(scan.layout, scan.prior->0@) => None,
        _ => error::protocol_failure("conversation parent entry does not precede its child"@),
    }
}

/// The record of an index by its bytes.
pub open spec fn optional_record(record: Option<Vec<u8>>) -> Option<Seq<u8>> {
    match record {
        Some(record) => Some(record@),
        None => None,
    }
}

impl SortedIndexScan {
    /// No more records are read than the index has entries, and every one that was checked
    /// is sound.
    pub open spec fn wf(self) -> bool {
        &&& self.layout.wf()
        &&& self.read <= self.entries
        &&& self.prior matches Some(prior) ==> records::has_leading_id(prior@)
        &&& scanned_sound(self.layout, self.seen@)
        &&& if self.looking {
            &&& self.read == self.seen@.len() + 1
            &&& self.prior matches Some(prior)
            &&& records::fits(self.layout, prior@)
            &&& records::parent_of(self.layout, prior@) is Some
            &&& search::record_id_failure(
                self.layout,
                id_before(self.seen@, self.seen@.len() as int),
                prior@,
            ) is None
        } else {
            &&& self.read == self.seen@.len()
            &&& self.prior_id() == id_before(self.seen@, self.seen@.len() as int)
        }
    }

    /// The identifier of the record before.
    pub open spec fn prior_id(self) -> Option<Seq<u8>> {
        match self.prior {
            Some(prior) => Some(records::leading_id(prior@)),
            None => None,
        }
    }

    /// Whether the scan with one more record read is this one.
    pub open spec fn took(self, before: SortedIndexScan, record: Seq<u8>) -> bool {
        let named = records::parent_of(before.layout, record);
        &&& self.layout == before.layout
        &&& self.entries == before.entries
        &&& self.read == before.read + 1
        &&& self.prior matches Some(prior)
        &&& prior@ == record
        &&& self.looking == (named is Some)
        &&& self.seen@ == (if named is Some {
            before.seen@
        } else {
            before.seen@.push(ScannedRecord { record, parent: None })
        })
    }

    /// Whether the scan with the parent of its last record found is this one.
    pub open spec fn found(self, before: SortedIndexScan, ordinal: u64) -> bool {
        &&& self == (SortedIndexScan { looking: false, seen: self.seen, ..before })
        &&& self.seen@ == before.seen@.push(
            ScannedRecord { record: before.prior->0@, parent: Some(ordinal as nat) },
        )
    }

    /// An index of which nothing is read.
    pub fn validate_sorted_index(layout: IndexLayout, entries: u64) -> (scan: SortedIndexScan)
        requires
            layout.wf(),
        ensures
            scan.wf(),
            scan.read == 0,
            scan.entries == entries,
            scan.prior is None,
            scan.layout == layout,
            !scan.looking,
            scan.seen@ == Seq::<ScannedRecord>::empty(),
    {
        SortedIndexScan {
            layout,
            entries,
            read: 0,
            prior: None,
            looking: false,
            seen: Ghost(Seq::empty()),
        }
    }

    /// Takes what reading the next record gave.
    pub fn observe(&mut self, record: Option<Vec<u8>>, work: &mut WorkBudget) -> (result: Result<
        IndexScanStep,
        RuntimeError,
    >)
        requires
            old(self).wf(),
            !old(self).looking,
            record matches Some(record) ==> records::fits(old(self).layout, record@),
        ensures
            error::failure(result) == scan_failure(*old(self), optional_record(record), *old(work)),
            *final(work) == scan_work(*old(self), optional_record(record), *old(work)),
            final(self).wf(),
            result is Err ==> *final(self) == *old(self),
            result matches Ok(step) ==> match record {
                None => step is Complete && *final(self) == *old(self),
                Some(record) => {
                    &&& final(self).took(*old(self), record@)
                    &&& match step {
                        IndexScanStep::LookUpParent(parent) => records::parent_of(
                            old(self).layout,
                            record@,
                        ) == Some(parent@),
                        IndexScanStep::Next => records::parent_of(old(self).layout, record@) is None,
                        IndexScanStep::Complete => false,
                    }
                },
            },
    {
        match record {
            None => {
                if self.read < self.entries {
                    return Err(protocol("conversation history index ended early"));
                }
                Ok(IndexScanStep::Complete)
            },
            Some(record) => {
                if self.read >= self.entries {
                    return Err(protocol("conversation history index has trailing records"));
                }
                work.add(1)?;
                match &self.prior {
                    Some(prior) => {
                        check_record_id(self.layout, Some(prior), &record)?;
                    },
                    None => {
                        check_record_id(self.layout, None, &record)?;
                    },
                }
                let ghost seen = self.seen@;
                let step = match record_parent(self.layout, &record) {
                    Some(parent) => {
                        self.looking = true;
                        IndexScanStep::LookUpParent(vstd::slice::slice_to_vec(parent))
                    },
                    None => {
                        let ghost checked = ScannedRecord { record: record@, parent: None };
                        self.seen = Ghost(seen.push(checked));
                        proof {
                            lemma_scanned(self.layout, seen, checked);
                        }
                        IndexScanStep::Next
                    },
                };
                self.prior = Some(record);
                self.read = self.read + 1;
                Ok(step)
            },
        }
    }

    /// Takes what looking up the parent of the last record gave: its position in the
    /// history, where it is there.
    pub fn parent_found(&mut self, found: Option<u64>) -> (result: Result<(), RuntimeError>)
        requires
            old(self).wf(),
            old(self).looking,
        ensures
            error::failure(result) == parent_failure(*old(self), found),
            final(self).wf(),
            result is Err ==> *final(self) == *old(self),
            result is Ok ==> final(self).found(*old(self), found->0),
    {
        match &self.prior {
            Some(prior) => {
                check_record_parent(self.layout, prior, found)?;
                let ghost seen = self.seen@;
                let ghost checked = ScannedRecord { record: prior@, parent: Some(found->0 as nat) };
                self.looking = false;
                self.seen = Ghost(seen.push(checked));
                proof {
                    lemma_scanned(self.layout, seen, checked);
                }
            },
            None => {},
        }
        Ok(())
    }
}

proof fn lemma_scanned(layout: IndexLayout, seen: Seq<ScannedRecord>, checked: ScannedRecord)
    requires
        scanned_sound(layout, seen),
        search::record_failure(
            layout,
            id_before(seen, seen.len() as int),
            checked.record,
            checked.parent,
        ) is None,
    ensures
        scanned_sound(layout, seen.push(checked)),
{
    let now = seen.push(checked);
    assert forall|k: int| 0 <= k < now.len() implies search::record_failure(
        layout,
        id_before(now, k),
        (#[trigger] now[k]).record,
        now[k].parent,
    ) is None by {
        assert(id_before(now, k) == id_before(seen, k));
        if k < seen.len() {
            assert(now[k] == seen[k]);
        }
    }
}

/// Whether an entry of a history has its parent before it.
pub open spec fn has_parent_before(entries: Seq<EntryModel>, k: int) -> bool {
    &&& entries[k].parent_entry_id is Some
    &&& exists|j: int|
        0 <= j < k && (#[trigger] entries[j]).entry_id.text
            == entries[k].parent_entry_id->0.text
}

/// Whether the entries of a history make one tree: each has an identifier of its own, and
/// each but the first has a parent among those before it.
pub open spec fn one_tree(entries: Seq<EntryModel>) -> bool {
    &&& forall|i: int, j: int|
        #![trigger entries[i], entries[j]]
        0 <= i < j < entries.len() ==> entries[i].entry_id.text != entries[j].entry_id.text
    &&& entries.len() > 0 ==> entries[0].parent_entry_id is None
    &&& forall|k: int| 0 < k < entries.len() ==> #[trigger] has_parent_before(entries, k)
}

/// Whether the record of an entry stands in a sorted index.
pub open spec fn is_indexed(
    layout: IndexLayout,
    seen: Seq<ScannedRecord>,
    entry: EntryModel,
    position: int,
) -> bool {
    exists|i: int|
        0 <= i < seen.len() && (#[trigger] seen[i]).record == records::index_record(
            layout,
            entry,
            position as u64,
        )
}

/// Whether a record is that of an entry of a history.
pub open spec fn is_of_history(
    layout: IndexLayout,
    entries: Seq<EntryModel>,
    record: Seq<u8>,
) -> bool {
    exists|k: int|
        0 <= k < entries.len() && record == records::index_record(
            layout,
            #[trigger] entries[k],
            k as u64,
        )
}

/// Whether the records of a sorted index are those of the entries of a history, in the
/// order of their identifiers.
pub open spec fn indexes(
    layout: IndexLayout,
    seen: Seq<ScannedRecord>,
    entries: Seq<EntryModel>,
) -> bool {
    &&& forall|i: int, j: int|
        #![trigger seen[i], seen[j]]
        0 <= i < j < seen.len() ==> !order::bytes_before(
            records::leading_id(seen[j].record),
            records::leading_id(seen[i].record),
        )
    &&& forall|k: int|
        0 <= k < entries.len() ==> #[trigger] is_indexed(layout, seen, entries[k], k)
    &&& forall|i: int|
        0 <= i < seen.len() ==> #[trigger] is_of_history(layout, entries, seen[i].record)
}

/// The identifiers of the records that were read of a sorted index.
pub open spec fn scanned_ids(seen: Seq<ScannedRecord>) -> Seq<Seq<u8>> {
    seen.map_values(|scanned: ScannedRecord| records::leading_id(scanned.record))
}

/// Whether a record was read in a sorted index.
pub open spec fn was_scanned(seen: Seq<ScannedRecord>, record: Seq<u8>) -> bool {
    exists|i: int| 0 <= i < seen.len() && (#[trigger] seen[i]).record == record
}

/// The position in the history of the record that halving a sorted index finds.
pub open spec fn searched_ordinal(
    layout: IndexLayout,
    seen: Seq<ScannedRecord>,
    id: Seq<u8>,
) -> Option<nat> {
    match search::search(scanned_ids(seen), id, 0, seen.len() as int).1 {
        Some(position) => Some(records::ordinal_of(layout, seen[position].record)),
        None => None,
    }
}

/// Whether the parent of every record is where halving the index finds it.
pub open spec fn parents_searched(layout: IndexLayout, seen: Seq<ScannedRecord>) -> bool {
    forall|i: int|
        0 <= i < seen.len() ==> ((#[trigger] seen[i]).parent is Some ==> {
            &&& records::parent_of(layout, seen[i].record) matches Some(id)
            &&& seen[i].parent == searched_ordinal(layout, seen, id)
        })
}

/// A parent that halving a sorted index finds is the record with the identifier asked for.
pub proof fn lemma_searched_parents_are_true(layout: IndexLayout, seen: Seq<ScannedRecord>)
    requires
        search::ids_sorted(scanned_ids(seen)),
        parents_searched(layout, seen),
    ensures
        lookups_true(layout, seen),
{
    let ids = scanned_ids(seen);
    assert forall|i: int| 0 <= i < seen.len() implies #[trigger] lookup_true(layout, seen, i) by {
        if seen[i].parent is Some {
            let id = records::parent_of(layout, seen[i].record)->0;
            search::law_search_finds(ids, id, 0, seen.len() as int);
            let position = search::search(ids, id, 0, seen.len() as int).1->0;
            assert(ids[position] == records::leading_id(seen[position].record));
            assert(Some(records::leading_id(seen[position].record)) == records::parent_of(
                layout,
                seen[i].record,
            ));
        }
    }
}

/// Whether looking up the parent of a record found the record with its identifier, where it
/// found one.
pub open spec fn lookup_true(layout: IndexLayout, seen: Seq<ScannedRecord>, i: int) -> bool {
    seen[i].parent matches Some(ordinal) ==> exists|j: int|
        0 <= j < seen.len() && Some(records::leading_id((#[trigger] seen[j]).record))
            == records::parent_of(layout, seen[i].record) && records::ordinal_of(
            layout,
            seen[j].record,
        ) == ordinal
}

/// Whether every look-up of a parent found what it was asked for.
pub open spec fn lookups_true(layout: IndexLayout, seen: Seq<ScannedRecord>) -> bool {
    forall|i: int| 0 <= i < seen.len() ==> #[trigger] lookup_true(layout, seen, i)
}

proof fn lemma_scanned_ids_differ(layout: IndexLayout, seen: Seq<ScannedRecord>, i: int, j: int)
    requires
        scanned_sound(layout, seen),
        forall|i: int, j: int|
            #![trigger seen[i], seen[j]]
            0 <= i < j < seen.len() ==> !order::bytes_before(
                records::leading_id(seen[j].record),
                records::leading_id(seen[i].record),
            ),
        0 <= i < j < seen.len(),
    ensures
        order::bytes_before(records::leading_id(seen[i].record), records::leading_id(seen[j].record)),
    decreases j - i,
{
    let before = records::leading_id(seen[j - 1].record);
    let id = records::leading_id(seen[j].record);
    assert(search::record_failure(layout, id_before(seen, j), seen[j].record, seen[j].parent) is None);
    order::law_bytes_order_total(before, id);
    assert(!order::bytes_before(id, before));
    if i < j - 1 {
        lemma_scanned_ids_differ(layout, seen, i, j - 1);
        order::law_bytes_order_transitive(records::leading_id(seen[i].record), before, id);
    }
}

proof fn lemma_entry_ids_differ(
    layout: IndexLayout,
    seen: Seq<ScannedRecord>,
    entries: Seq<EntryModel>,
    i: int,
    j: int,
)
    requires
        layout.wf(),
        entries.len() <= u64::MAX,
        0 <= i < j < entries.len(),
        records::entry_fits(layout, entries[i]),
        records::entry_fits(layout, entries[j]),
        scanned_sound(layout, seen),
        indexes(layout, seen, entries),
    ensures
        entries[i].entry_id.text != entries[j].entry_id.text,
{
    records::law_record_round_trip(layout, entries[i], i as u64);
    records::law_record_round_trip(layout, entries[j], j as u64);
    let left = records::index_record(layout, entries[i], i as u64);
    let right = records::index_record(layout, entries[j], j as u64);
    assert(is_indexed(layout, seen, entries[i], i));
    assert(is_indexed(layout, seen, entries[j], j));
    let a = choose|a: int| 0 <= a < seen.len() && (#[trigger] seen[a]).record == left;
    let b = choose|b: int| 0 <= b < seen.len() && (#[trigger] seen[b]).record == right;
    let id = records::leading_id(left);
    order::law_bytes_order_total(id, id);
    if a < b {
        lemma_scanned_ids_differ(layout, seen, a, b);
    } else if b < a {
        lemma_scanned_ids_differ(layout, seen, b, a);
    }
}

proof fn lemma_parent_is_before(
    layout: IndexLayout,
    seen: Seq<ScannedRecord>,
    entries: Seq<EntryModel>,
    k: int,
) -> (j: int)
    requires
        layout.wf(),
        entries.len() <= u64::MAX,
        0 < k < entries.len(),
        entries[k].parent_entry_id is Some,
        forall|k: int| 0 <= k < entries.len() ==> records::entry_fits(layout, #[trigger] entries[k]),
        scanned_sound(layout, seen),
        indexes(layout, seen, entries),
        lookups_true(layout, seen),
    ensures
        0 <= j < k,
        entries[j].entry_id.text == entries[k].parent_entry_id->0.text,
{
    let parent = entries[k].parent_entry_id->0;
    let record = records::index_record(layout, entries[k], k as u64);
    records::law_record_round_trip(layout, entries[k], k as u64);
    assert(is_indexed(layout, seen, entries[k], k));
    let a = choose|a: int| 0 <= a < seen.len() && (#[trigger] seen[a]).record == record;
    assert(search::record_failure(layout, id_before(seen, a), seen[a].record, seen[a].parent)
        is None);
    assert(lookup_true(layout, seen, a));
    let b = choose|b: int|
        0 <= b < seen.len() && Some(records::leading_id((#[trigger] seen[b]).record))
            == records::parent_of(layout, record) && records::ordinal_of(layout, seen[b].record)
            == seen[a].parent->0;
    assert(is_of_history(layout, entries, seen[b].record));
    let j = choose|j: int|
        0 <= j < entries.len() && seen[b].record == records::index_record(
            layout,
            #[trigger] entries[j],
            j as u64,
        );
    records::law_record_round_trip(layout, entries[j], j as u64);
    encode_utf8_decode_utf8(parent.text);
    encode_utf8_decode_utf8(entries[j].entry_id.text);
    j
}

/// A history whose sorted index passes the check is one tree: its entries have identifiers
/// of their own, the first is the root, and every other has its parent before it.
pub proof fn law_scanned_history_is_one_tree(
    layout: IndexLayout,
    seen: Seq<ScannedRecord>,
    entries: Seq<EntryModel>,
)
    requires
        layout.wf(),
        entries.len() <= u64::MAX,
        entries_sound(entries),
        forall|k: int| 0 <= k < entries.len() ==> records::entry_fits(layout, #[trigger] entries[k]),
        scanned_sound(layout, seen),
        indexes(layout, seen, entries),
        lookups_true(layout, seen),
    ensures
        one_tree(entries),
{
    assert forall|i: int, j: int|
        #![trigger entries[i], entries[j]]
        0 <= i < j < entries.len() implies entries[i].entry_id.text != entries[j].entry_id.text by {
        lemma_entry_ids_differ(layout, seen, entries, i, j);
    }
    if entries.len() > 0 {
        assert(position_failure(entries[0], 0) is None);
    }
    assert forall|k: int| 0 < k < entries.len() implies #[trigger] has_parent_before(entries, k) by {
        assert(position_failure(entries[k], k as nat) is None);
        let j = lemma_parent_is_before(layout, seen, entries, k);
        assert(entries[j].entry_id.text == entries[k].parent_entry_id->0.text);
    }
}

/// A walk from an entry towards the root.
pub struct AncestryWalk {
    pub entries: u64,
    pub path: Vec<Vec<u8>>,
    pub cursor: Vec<u8>,
}

/// What is wrong with the next step of a walk.
pub open spec fn ancestry_failure(entries: u64, walked: nat, found: bool) -> Option<ErrorModel> {
    if walked >= entries {
        error::protocol_failure("conversation ancestry cycle exceeds history"@)
    } else if !found {
        error::protocol_failure("conversation ancestry has a missing parent"@)
    } else {
        None
    }
}

/// What is wrong with an entry that a walk has passed and that is looked up again.
pub open spec fn revisit_failure(found: bool) -> Option<ErrorModel> {
    if found {
        None
    } else {
        error::protocol_failure("conversation ancestry index lost an existing entry"@)
    }
}

/// Accepts an entry that a walk has passed, where it is still there when it is looked up
/// again on the way from the root.
pub fn revisit_ancestor(found: Option<Vec<u8>>) -> (result: Result<Vec<u8>, RuntimeError>)
    ensures
        error::failure(result) == revisit_failure(found is Some),
        result matches Ok(record) ==> found == Some(record),
{
    match found {
        Some(record) => Ok(record),
        None => Err(protocol("conversation ancestry index lost an existing entry")),
    }
}

impl AncestryWalk {
    /// A walk from a selected entry.
    pub fn for_each_ancestry(entries: u64, selected: &[u8]) -> (walk: AncestryWalk)
        ensures
            walk.entries == entries,
            walk.path@.len() == 0,
            walk.cursor@ == selected@,
    {
        AncestryWalk { entries, path: Vec::new(), cursor: vstd::slice::slice_to_vec(selected) }
    }

    /// Takes what looking up the entry at the cursor gave: the parent that it names,
    /// where the entry is there. True where the walk goes on.
    pub fn step(&mut self, found: Option<Option<Vec<u8>>>) -> (result: Result<bool, RuntimeError>)
        ensures
            error::failure(result) == ancestry_failure(
                old(self).entries,
                old(self).path@.len(),
                found is Some,
            ),
            final(self).entries == old(self).entries,
            result matches Ok(more) ==> {
                &&& walked(*old(self), found, *final(self))
                &&& final(self).path@.len() == old(self).path@.len() + 1
                &&& final(self).path@.last()@ == old(self).cursor@
                &&& final(self).path@.drop_last() == old(self).path@
                &&& more == (found->0 is Some)
                &&& more ==> final(self).cursor@ == found->0->0@
            },
    {
        if self.path.len() as u64 >= self.entries {
            return Err(protocol("conversation ancestry cycle exceeds history"));
        }
        match found {
            None => Err(protocol("conversation ancestry has a missing parent")),
            Some(parent) => {
                let mut id: Vec<u8> = Vec::new();
                std::mem::swap(&mut id, &mut self.cursor);
                self.path.push(id);
                assert(self.path@.drop_last() =~= old(self).path@);
                match parent {
                    Some(parent) => {
                        self.cursor = parent;
                        Ok(true)
                    },
                    None => Ok(false),
                }
            },
        }
    }

    /// The identifiers from the root to the selected entry.
    pub fn finish(self) -> (ancestry: Vec<Vec<u8>>)
        ensures
            ancestry@.len() == self.path@.len(),
            forall|i: int|
                0 <= i < ancestry@.len() ==> (#[trigger] ancestry@[i])@ == self.path@[self.path@.len()
                    - 1 - i]@,
    {
        let mut path = self.path;
        let ghost whole = path@;
        let mut ancestry: Vec<Vec<u8>> = Vec::new();
        while path.len() > 0
            invariant
                path@ == whole.take(path@.len() as int),
                ancestry@.len() + path@.len() == whole.len(),
                forall|i: int|
                    0 <= i < ancestry@.len() ==> (#[trigger] ancestry@[i])@ == whole[whole.len() - 1
                        - i]@,
            decreases path@.len(),
        {
            let ghost before = path@;
            let id = path.pop().unwrap();
            assert(id == whole[before.len() - 1]);
            assert(path@ =~= whole.take(path@.len() as int));
            ancestry.push(id);
        }
        ancestry
    }
}

/// In a history where every parent comes earlier than its child, a walk passes
/// fewer entries than the history has, so it never reports a cycle: the positions
/// along the path go down.
pub proof fn law_ancestry_terminates(ordinals: Seq<nat>, entries: nat)
    requires
        forall|i: int| 0 <= i < ordinals.len() ==> #[trigger] ordinals[i] < entries,
        forall|i: int| #![trigger ordinals[i]] 1 <= i < ordinals.len() ==> ordinals[i] < ordinals[i - 1],
    ensures
        ordinals.len() <= entries,
    decreases ordinals.len(),
{
    if ordinals.len() > 0 {
        lemma_ordinals_fall(ordinals, ordinals.len() - 1);
        assert(ordinals[0] < entries);
    }
}

proof fn lemma_ordinals_fall(ordinals: Seq<nat>, index: int)
    requires
        forall|i: int| #![trigger ordinals[i]] 1 <= i < ordinals.len() ==> ordinals[i] < ordinals[i - 1],
        0 <= index < ordinals.len(),
    ensures
        ordinals[index] + index <= ordinals[0],
    decreases index,
{
    if index > 0 {
        lemma_ordinals_fall(ordinals, index - 1);
        assert(ordinals[index] < ordinals[index - 1]);
    }
}

/// How many entries a stream of segments holds, and how many bytes of the present
/// segment have been read.
#[derive(Clone, Copy, Debug, PartialEq, Eq, Structural)]
pub struct EntryCount {
    pub count: u64,
    pub consumed: u64,
}

/// What is wrong with the framing of a line of a history.
pub open spec fn line_failure(line: Seq<u8>) -> Option<ErrorModel> {
    if line.len() > MAX_CONVERSATION_RECORD_BYTES + 1 {
        error::protocol_failure("conversation record exceeds its byte limit"@)
    } else if line.len() == 0 || line.last() != 10 || (line.len() >= 2 && line[line.len() - 2]
        == 13) {
        error::protocol_failure("conversation JSONL stream must use LF framing"@)
    } else {
        None
    }
}

impl EntryCount {
    /// No entry is counted.
    pub fn history_entry_count() -> (count: EntryCount)
        ensures
            count.count == 0,
            count.consumed == 0,
    {
        EntryCount { count: 0, consumed: 0 }
    }

    /// Begins a segment.
    pub fn begin_segment(&mut self, stored_bytes: u64, segment_limit: u64) -> (result: Result<
        (),
        RuntimeError,
    >)
        ensures
            error::failure(result) == (if stored_bytes > segment_limit {
                error::protocol_failure("conversation stream segment exceeds its byte limit"@)
            } else {
                None
            }),
            *final(self) == (EntryCount { count: old(self).count, consumed: 0 }),
    {
        self.consumed = 0;
        if stored_bytes > segment_limit {
            return Err(protocol("conversation stream segment exceeds its byte limit"));
        }
        Ok(())
    }

    /// Counts a line.
    pub fn line(&mut self, line: &[u8]) -> (result: Result<(), RuntimeError>)
        ensures
            error::failure(result) == error::first_failure(
                line_failure(line@),
                if old(self).count == u64::MAX {
                    error::protocol_failure("conversation history entry count overflow"@)
                } else {
                    None
                },
            ),
            result is Ok ==> final(self).count == old(self).count + 1,
            final(self).consumed == (if old(self).consumed + line@.len() > u64::MAX {
                u64::MAX
            } else {
                (old(self).consumed + line@.len()) as u64
            }),
    {
        self.consumed = self.consumed.saturating_add(line.len() as u64);
        if line.len() > MAX_CONVERSATION_RECORD_BYTES + 1 {
            return Err(protocol("conversation record exceeds its byte limit"));
        }
        if line.len() == 0 || line[line.len() - 1] != 10 || (line.len() >= 2 && line[line.len() - 2]
            == 13) {
            return Err(protocol("conversation JSONL stream must use LF framing"));
        }
        match self.count.checked_add(1) {
            Some(count) => {
                self.count = count;
                Ok(())
            },
            None => Err(protocol("conversation history entry count overflow")),
        }
    }

    /// Ends a segment, every byte of which must have been read.
    pub fn end_segment(&self, stored_bytes: u64, path: &str) -> (result: Result<(), RuntimeError>)
        ensures
            error::failure(result) == (if self.consumed != stored_bytes {
                error::protocol_failure(path@ + " changed while it was scanned"@)
            } else {
                None
            }),
    {
        if self.consumed != stored_bytes {
            let message = join2(path, " changed while it was scanned");
            return Err(protocol(message.as_str()));
        }
        Ok(())
    }
}

/// The selected entry of a history is found wherever an entry has the identifier, the root
/// among them: it is the last entry that has it, and there is none only where no entry has it
/// or nothing is selected.
pub proof fn law_selected_entry_is_found(entries: Seq<EntryModel>, id: Seq<char>)
    ensures
        match last_with_id(entries, Some(id)) {
            Some(entry) => {
                &&& entry.entry_id.text == id
                &&& exists|k: int|
                    #![trigger entries[k]]
                    0 <= k < entries.len() && entries[k] == entry && forall|j: int|
                        k < j < entries.len() ==> (#[trigger] entries[j]).entry_id.text != id
            },
            None => forall|k: int|
                0 <= k < entries.len() ==> (#[trigger] entries[k]).entry_id.text != id,
        },
        last_with_id(entries, None) is None,
    decreases entries.len(),
{
    if entries.len() > 0 {
        let rest = entries.drop_last();
        let last = entries.len() - 1;
        law_selected_entry_is_found(rest, id);
        assert(entries[last] == entries.last());
        if entries.last().entry_id.text != id {
            match last_with_id(rest, Some(id)) {
                Some(entry) => {
                    let k = choose|k: int|
                        #![trigger rest[k]]
                        0 <= k < rest.len() && rest[k] == entry && forall|j: int|
                            k < j < rest.len() ==> (#[trigger] rest[j]).entry_id.text != id;
                    assert(entries[k] == entry);
                    assert forall|j: int| k < j < entries.len() implies (
                    #[trigger] entries[j]).entry_id.text != id by {
                        if j < last {
                            assert(rest[j] == entries[j]);
                        }
                    }
                },
                None => {
                    assert forall|k: int| 0 <= k < entries.len() implies (
                    #[trigger] entries[k]).entry_id.text != id by {
                        if k < last {
                            assert(rest[k] == entries[k]);
                        }
                    }
                },
            }
        }
    }
}

/// What a step of a walk makes of it, by what looking up the entry at the cursor gave.
pub open spec fn walked(
    before: AncestryWalk,
    found: Option<Option<Vec<u8>>>,
    after: AncestryWalk,
) -> bool {
    &&& found is Some
    &&& after.entries == before.entries
    &&& after.path@.len() == before.path@.len() + 1
    &&& after.path@.last()@ == before.cursor@
    &&& after.path@.drop_last() == before.path@
    &&& found->0 is Some ==> after.cursor@ == found->0->0@
}

/// A walk from a selected entry passes the entry, then its parent, then the parent of that,
/// and so on: each entry that it passes is the one that the entry before it names as its
/// parent. The walks are those behind each step, and the answers what the steps looked up.
pub proof fn law_walk_passes_the_ancestors(
    walks: Seq<AncestryWalk>,
    found: Seq<Option<Option<Vec<u8>>>>,
    i: int,
)
    requires
        walks.len() == found.len() + 1,
        walks[0].path@.len() == 0,
        forall|k: int|
            0 <= k < found.len() ==> walked(#[trigger] walks[k], found[k], walks[k + 1]),
        forall|k: int| 0 <= k < found.len() - 1 ==> (#[trigger] found[k])->0 is Some,
        0 <= i < found.len(),
    ensures
        walks.last().path@.len() == found.len(),
        walks.last().path@[0]@ == walks[0].cursor@,
        i + 1 < found.len() ==> found[i]->0 is Some && walks.last().path@[i + 1]@
            == found[i]->0->0@,
    decreases walks.len(),
{
    let n = found.len() as int;
    assert(walked(walks[n - 1], found[n - 1], walks[n]));
    if n > 1 {
        let (fewer, less) = (walks.drop_last(), found.drop_last());
        assert forall|k: int| 0 <= k < less.len() implies walked(
            #[trigger] fewer[k],
            less[k],
            fewer[k + 1],
        ) by {
            assert(walked(walks[k], found[k], walks[k + 1]));
        }
        assert forall|k: int| 0 <= k < less.len() - 1 implies (#[trigger] less[k])->0 is Some by {
            assert(found[k]->0 is Some);
        }
        let j = if i < n - 1 {
            i
        } else {
            0
        };
        law_walk_passes_the_ancestors(fewer, less, j);
        let (before, after) = (walks[n - 1].path@, walks[n].path@);
        assert(after.drop_last() == before);
        assert(after[0] == before[0]);
        if i + 1 < n {
            assert(found[i]->0 is Some);
            if i + 1 < n - 1 {
                assert(after[i + 1] == before[i + 1]);
            } else {
                assert(walked(walks[n - 2], found[n - 2], walks[n - 1]));
                assert(after[i + 1] == after.last());
            }
        }
    }
}

/// A walk goes on exactly where its cursor is found and it has passed fewer entries than the
/// history has; and the first entry is the only one without a parent.
pub proof fn law_walk_goes_on_within_the_history(
    entries: u64,
    passed: nat,
    found: bool,
    entry: EntryModel,
    position: nat,
)
    ensures
        ancestry_failure(entries, passed, found) is None <==> found && passed < entries,
        revisit_failure(found) is None <==> found,
        position_failure(entry, position) is None <==> (entry.parent_entry_id is None <==> position
            == 0),
{
}

} // verus!
