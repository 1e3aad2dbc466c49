//! Finding records by identifier in a sorted index, and checking such an index.

use crate::error::{protocol, ErrorModel, RuntimeError};
use crate::error;
use crate::history::records::{record_id, record_ordinal, record_parent, IndexLayout};
use crate::history::records;
use crate::history::work::WorkBudget;
use crate::history::work;
use crate::order::{compare_bytes, Relation};
use crate::order;
use crate::text::same_bytes;
use vstd::prelude::*;

verus! {

/// The identifiers that some records begin with.
pub open spec fn ids_of(records: Seq<Vec<u8>>) -> Seq<Seq<u8>> {
    records.map_values(|record: Vec<u8>| records::leading_id(record@))
}

/// Whether identifiers stand in order.
pub open spec fn ids_sorted(ids: Seq<Seq<u8>>) -> bool {
    forall|i: int, j: int|
        #![trigger ids[i], ids[j]]
        0 <= i < j < ids.len() ==> !order::bytes_before(ids[j], ids[i])
}

/// Halving a range of identifiers until one is found or none is left: the number
/// of identifiers looked at, and the position of the one found.
pub open spec fn search(ids: Seq<Seq<u8>>, id: Seq<u8>, low: int, high: int) -> (nat, Option<int>)
    decreases high - low,
{
    if low >= high {
        (0, None)
    } else {
        let middle = low + (high - low) / 2;
        match order::bytes_relation(ids[middle], id) {
            Relation::Same => (1, Some(middle)),
            Relation::Before => {
                let rest = search(ids, id, middle + 1, high);
                ((rest.0 + 1) as nat, rest.1)
            },
            Relation::After => {
                let rest = search(ids, id, low, middle);
                ((rest.0 + 1) as nat, rest.1)
            },
        }
    }
}

/// Among sorted identifiers the search finds exactly those that are there.
pub proof fn law_search_finds(ids: Seq<Seq<u8>>, id: Seq<u8>, low: int, high: int)
    requires
        ids_sorted(ids),
        0 <= low <= high <= ids.len(),
    ensures
        match search(ids, id, low, high).1 {
            Some(position) => low <= position < high && ids[position] == id,
            None => forall|i: int| low <= i < high ==> #[trigger] ids[i] != id,
        },
    decreases high - low,
{
    if low < high {
        let middle = low + (high - low) / 2;
        match order::bytes_relation(ids[middle], id) {
            Relation::Same => {},
            Relation::Before => {
                law_search_finds(ids, id, middle + 1, high);
                assert forall|i: int| low <= i <= middle implies #[trigger] ids[i] != id by {
                    if i < middle && ids[i] == id {
                        assert(!order::bytes_before(ids[middle], ids[i]));
                    }
                }
            },
            Relation::After => {
                law_search_finds(ids, id, low, middle);
                order::law_bytes_order_total(ids[middle], id);
                assert forall|i: int| middle <= i < high implies #[trigger] ids[i] != id by {
                    if middle < i && ids[i] == id {
                        assert(!order::bytes_before(ids[i], ids[middle]));
                    }
                }
            },
        }
    }
}

/// The search looks at no more identifiers than the size of the range has binary
/// digits.
pub proof fn law_search_steps(ids: Seq<Seq<u8>>, id: Seq<u8>, low: int, high: int)
    requires
        low <= high,
    ensures
        search(ids, id, low, high).0 <= work::bit_length((high - low) as nat),
    decreases high - low,
{
    if low < high {
        let middle = low + (high - low) / 2;
        law_search_steps(ids, id, middle + 1, high);
        law_search_steps(ids, id, low, middle);
        lemma_bit_length_monotone((high - middle - 1) as nat, ((high - low) / 2) as nat);
        lemma_bit_length_monotone((middle - low) as nat, ((high - low) / 2) as nat);
    }
}

/// A larger number has no fewer binary digits.
pub proof fn lemma_bit_length_monotone(small: nat, large: nat)
    requires
        small <= large,
    ensures
        work::bit_length(small) <= work::bit_length(large),
    decreases large,
{
    if large > 0 && small > 0 {
        lemma_bit_length_monotone(small / 2, large / 2);
    }
}

/// The range that is left of a search.
#[derive(Clone, Copy, Debug, PartialEq, Eq, Structural)]
pub struct IndexSearch {
    pub low: u64,
    pub high: u64,
}

impl IndexSearch {
    /// A search through the first `entries` records.
    pub fn start(entries: u64) -> (search: IndexSearch)
        ensures
            search.low == 0,
            search.high == entries,
    {
        IndexSearch { low: 0, high: entries }
    }

    /// The record to look at next, if any is left.
    pub fn probe(&self) -> (middle: Option<u64>)
        ensures
            match middle {
                Some(middle) => self.low < self.high && middle == self.low + (self.high - self.low)
                    / 2 && self.low <= middle < self.high,
                None => self.low >= self.high,
            },
    {
        if self.low < self.high {
            Some(self.low + (self.high - self.low) / 2)
        } else {
            None
        }
    }

    /// Takes account of how the identifier of the record looked at stands to the
    /// one looked for; true where it is that one.
    pub fn narrow(&mut self, middle: u64, relation: Relation) -> (found: bool)
        requires
            old(self).low <= middle < old(self).high,
        ensures
            found == (relation == Relation::Same),
            *final(self) == (match relation {
                Relation::Same => *old(self),
                Relation::Before => IndexSearch { low: (middle + 1) as u64, high: old(self).high },
                Relation::After => IndexSearch { low: old(self).low, high: middle },
            }),
    {
        match relation {
            Relation::Same => true,
            Relation::Before => {
                self.low = middle + 1;
                false
            },
            Relation::After => {
                self.high = middle;
                false
            },
        }
    }
}

impl IndexSearch {
    /// The record of a stored index to look at next, which is one step of work.
    pub fn next_probe(&self, work: &mut WorkBudget) -> (result: Result<Option<u64>, RuntimeError>)
        ensures
            if self.low < self.high {
                &&& error::failure(result) == work::work_failure(*old(work), 1)
                &&& *final(work) == work::work_after(*old(work), 1)
                &&& result matches Ok(middle) ==> middle == Some(
                    (self.low + (self.high - self.low) / 2) as u64,
                )
            } else {
                result == Ok::<Option<u64>, RuntimeError>(None) && *final(work) == *old(work)
            },
    {
        match self.probe() {
            Some(middle) => {
                work.add(1)?;
                Ok(Some(middle))
            },
            None => Ok(None),
        }
    }

    /// Takes what reading the record to look at gave: the record where it is the one
    /// looked for.
    pub fn find_record_in(&mut self, record: Option<Vec<u8>>, id: &[u8]) -> (result: Result<
        Option<Vec<u8>>,
        RuntimeError,
    >)
        requires
            old(self).low < old(self).high,
            record matches Some(record) ==> records::has_leading_id(record@),
        ensures
            error::failure(result) == (if record is None {
                error::protocol_failure("conversation history index lookup ended early"@)
            } else {
                None
            }),
            result matches Ok(found) ==> {
                let middle = old(self).low + (old(self).high - old(self).low) / 2;
                match order::bytes_relation(records::leading_id(record->0@), id@) {
                    Relation::Same => found == record && *final(self) == *old(self),
                    Relation::Before => found is None && *final(self) == (IndexSearch {
                        low: (middle + 1) as u64,
                        high: old(self).high,
                    }),
                    Relation::After => found is None && *final(self) == (IndexSearch {
                        low: old(self).low,
                        high: middle as u64,
                    }),
                }
            },
    {
        let record = match record {
            Some(record) => record,
            None => {
                return Err(protocol("conversation history index lookup ended early"));
            },
        };
        let relation = compare_bytes(record_id(&record), id);
        let middle: u64 = self.low + (self.high - self.low) / 2;
        if self.narrow(middle, relation) {
            return Ok(Some(record));
        }
        Ok(None)
    }
}

/// Finds the record with an identifier among sorted records.
pub fn find_record_in_memory(records: &Vec<Vec<u8>>, id: &[u8], work: &mut WorkBudget) -> (result:
    Result<Option<usize>, RuntimeError>)
    requires
        forall|i: int| 0 <= i < records@.len() ==> records::has_leading_id(#[trigger] records@[i]@),
        old(work).used <= old(work).limit,
    ensures
        ({
            let outcome = search(ids_of(records@), id@, 0, records@.len() as int);
            &&& error::failure(result) == work::spend_failure(*old(work), outcome.0)
            &&& *final(work) == work::spent(*old(work), outcome.0)
            &&& result matches Ok(Some(position)) ==> outcome.1 == Some(position as int) && position
                < records@.len()
            &&& result matches Ok(None) ==> outcome.1 is None
        }),
{
    let ghost ids = ids_of(records@);
    let ghost total = search(ids, id@, 0, records@.len() as int);
    let ghost mut steps: nat = 0;
    let mut range = IndexSearch::start(records.len() as u64);
    loop
        invariant
            ids == ids_of(records@),
            forall|i: int| 0 <= i < records@.len() ==> records::has_leading_id(#[trigger] records@[i]@),
            range.low <= range.high <= records.len(),
            total == search(ids, id@, 0, records@.len() as int),
            total.0 == steps + search(ids, id@, range.low as int, range.high as int).0,
            total.1 == search(ids, id@, range.low as int, range.high as int).1,
            old(work).used + steps <= old(work).limit,
            work.used == old(work).used + steps,
            work.limit == old(work).limit,
        decreases range.high - range.low,
    {
        match range.probe() {
            None => {
                return Ok(None);
            },
            Some(middle) => {
                work.add(1)?;
                let position: usize = middle as usize;
                assert(ids[position as int] == records::leading_id(records@[position as int]@));
                let relation = compare_bytes(record_id(&records[position]), id);
                if range.narrow(middle, relation) {
                    return Ok(Some(position));
                }
                proof {
                    steps = steps + 1;
                }
            },
        }
    }
}

/// What is wrong with a record of a sorted index, given the identifier of the
/// record before it and the position in the history of its parent, where the
/// index holds one.
pub open spec fn record_failure(
    layout: IndexLayout,
    prior: Option<Seq<u8>>,
    record: Seq<u8>,
    parent_ordinal: Option<nat>,
) -> Option<ErrorModel> {
    match records::parent_of(layout, record) {
        None => record_id_failure(layout, prior, record),
        Some(_) => if record_id_failure(layout, prior, record) is Some {
            record_id_failure(layout, prior, record)
        } else {
            match parent_ordinal {
                Some(ordinal) if ordinal < records::ordinal_of(layout, record) => None,
                _ => error::protocol_failure("conversation parent entry does not precede its child"@),
            }
        },
    }
}

/// What is wrong with the identifier of a record of a sorted index.
pub open spec fn record_id_failure(
    layout: IndexLayout,
    prior: Option<Seq<u8>>,
    record: Seq<u8>,
) -> Option<ErrorModel> {
    if records::leading_id(record).len() > layout.max_id_bytes {
        error::protocol_failure("conversation history index id is oversized"@)
    } else if prior == Some(records::leading_id(record)) {
        error::protocol_failure("conversation entry id is duplicated"@)
    } else {
        None
    }
}

/// Checks the identifier of a record against that of the record before it.
pub fn check_record_id(layout: IndexLayout, prior: Option<&Vec<u8>>, record: &Vec<u8>) -> (result:
    Result<(), RuntimeError>)
    requires
        layout.wf(),
        records::has_leading_id(record@),
        prior matches Some(prior) ==> records::has_leading_id(prior@),
    ensures
        error::failure(result) == record_id_failure(
            layout,
            match prior {
                Some(prior) => Some(records::leading_id(prior@)),
                None => None,
            },
            record@,
        ),
{
    let id = record_id(record);
    if id.len() > layout.max_id_bytes {
        return Err(protocol("conversation history index id is oversized"));
    }
    if let Some(prior) = prior {
        if same_bytes(record_id(prior), id) {
            return Err(protocol("conversation entry id is duplicated"));
        }
    }
    Ok(())
}

/// Checks that a record's parent, where it names one, comes earlier in the
/// history.
pub fn check_record_parent(
    layout: IndexLayout,
    record: &Vec<u8>,
    parent_ordinal: Option<u64>,
) -> (result: Result<(), RuntimeError>)
    requires
        layout.wf(),
        records::fits(layout, record@),
        records::parent_of(layout, record@) is Some,
    ensures
        error::failure(result) == (match parent_ordinal {
            Some(ordinal) if (ordinal as nat) < records::ordinal_of(layout, record@) => None,
            _ => error::protocol_failure("conversation parent entry does not precede its child"@),
        }),
{
    match parent_ordinal {
        Some(ordinal) => {
            if ordinal < record_ordinal(layout, record) {
                Ok(())
            } else {
                Err(protocol("conversation parent entry does not precede its child"))
            }
        },
        None => Err(protocol("conversation parent entry does not precede its child")),
    }
}

/// Checking the records of an index from a position on: the budget that is left
/// and what is wrong.
pub open spec fn check_index(
    layout: IndexLayout,
    records: Seq<Vec<u8>>,
    from: int,
    budget: WorkBudget,
) -> (WorkBudget, Option<ErrorModel>)
    decreases records.len() - from,
{
    if from >= records.len() || from < 0 {
        (budget, None)
    } else if work::spend_failure(budget, 1) is Some {
        (work::spent(budget, 1), work::spend_failure(budget, 1))
    } else {
        let stepped = work::spent(budget, 1);
        let record = records[from]@;
        let prior = if from == 0 {
            None
        } else {
            Some(records::leading_id(records[from - 1]@))
        };
        if record_id_failure(layout, prior, record) is Some {
            (stepped, record_id_failure(layout, prior, record))
        } else {
            match records::parent_of(layout, record) {
                None => check_index(layout, records, from + 1, stepped),
                Some(parent) => {
                    let outcome = search(ids_of(records), parent, 0, records.len() as int);
                    let searched = work::spent(stepped, outcome.0);
                    if work::spend_failure(stepped, outcome.0) is Some {
                        (searched, work::spend_failure(stepped, outcome.0))
                    } else {
                        let ordinal = match outcome.1 {
                            Some(position) => Some(records::ordinal_of(layout, records[position]@)),
                            None => None,
                        };
                        if record_failure(layout, prior, record, ordinal) is Some {
                            (searched, record_failure(layout, prior, record, ordinal))
                        } else {
                            check_index(layout, records, from + 1, searched)
                        }
                    }
                },
            }
        }
    }
}

/// Checks a sorted index that is held in memory: no identifier occurs twice, and
/// every parent is there and comes earlier in the history than its child.
pub fn validate_sorted_index_in_memory(
    layout: IndexLayout,
    records: &Vec<Vec<u8>>,
    work: &mut WorkBudget,
) -> (result: Result<(), RuntimeError>)
    requires
        layout.wf(),
        forall|i: int| 0 <= i < records@.len() ==> records::fits(layout, #[trigger] records@[i]@),
        old(work).used <= old(work).limit,
    ensures
        error::failure(result) == check_index(layout, records@, 0, *old(work)).1,
        *final(work) == check_index(layout, records@, 0, *old(work)).0,
{
    let mut i: usize = 0;
    while i < records.len()
        invariant
            i <= records.len(),
            layout.wf(),
            forall|i: int| 0 <= i < records@.len() ==> records::fits(layout, #[trigger] records@[i]@),
            work.used <= work.limit,
            check_index(layout, records@, 0, *old(work)) == check_index(
                layout,
                records@,
                i as int,
                *work,
            ),
        decreases records.len() - i,
    {
        let ghost before = *work;
        assert(records::fits(layout, records@[i as int]@));
        work.add(1)?;
        if i == 0 {
            check_record_id(layout, None, &records[i])?;
        } else {
            assert(records::fits(layout, records@[i - 1]@));
            check_record_id(layout, Some(&records[i - 1]), &records[i])?;
        }
        match record_parent(layout, &records[i]) {
            None => {},
            Some(parent) => {
                let found = find_record_in_memory(records, parent, work)?;
                let ordinal = match found {
                    Some(position) => {
                        assert(records::fits(layout, records@[position as int]@));
                        Some(record_ordinal(layout, &records[position]))
                    },
                    None => None,
                };
                check_record_parent(layout, &records[i], ordinal)?;
            },
        }
        i = i + 1;
    }
    Ok(())
}

/// In a sorted index that passes the check, every record has an identifier of its
/// own, and every parent is a record that comes earlier in the history.
pub proof fn law_checked_index_is_sound(
    layout: IndexLayout,
    records: Seq<Vec<u8>>,
    budget: WorkBudget,
)
    requires
        layout.wf(),
        ids_sorted(ids_of(records)),
        check_index(layout, records, 0, budget).1 is None,
    ensures
        forall|i: int, j: int|
            #![trigger records[i], records[j]]
            0 <= i < j < records.len() ==> records::leading_id(records[i]@) != records::leading_id(records[j]@),
        forall|i: int|
            #![trigger records[i]]
            0 <= i < records.len() ==> (records::parent_of(layout, records[i]@) matches Some(parent)
                ==> exists|k: int|
                #![trigger records[k]]
                0 <= k < records.len() && records::leading_id(records[k]@) == parent && records::ordinal_of(
                    layout,
                    records[k]@,
                ) < records::ordinal_of(layout, records[i]@)),
{
    lemma_checked_from(layout, records, 0, budget);
    let ids = ids_of(records);
    assert forall|i: int, j: int|
        #![trigger records[i], records[j]]
        0 <= i < j < records.len() implies records::leading_id(records[i]@) != records::leading_id(records[j]@) by {
        lemma_neighbours_differ(ids, i, j);
        assert(ids[i] == records::leading_id(records[i]@) && ids[j] == records::leading_id(records[j]@));
    }
}

proof fn lemma_neighbours_differ(ids: Seq<Seq<u8>>, i: int, j: int)
    requires
        ids_sorted(ids),
        forall|k: int| #![trigger ids[k]] 1 <= k < ids.len() ==> ids[k] != ids[k - 1],
        0 <= i < j < ids.len(),
    ensures
        order::bytes_before(ids[i], ids[j]),
    decreases j - i,
{
    order::law_bytes_order_total(ids[j - 1], ids[j]);
    assert(!order::bytes_before(ids[j], ids[j - 1]));
    if i < j - 1 {
        lemma_neighbours_differ(ids, i, j - 1);
        order::law_bytes_order_transitive(ids[i], ids[j - 1], ids[j]);
    }
}

proof fn lemma_checked_from(
    layout: IndexLayout,
    records: Seq<Vec<u8>>,
    from: int,
    budget: WorkBudget,
)
    requires
        layout.wf(),
        ids_sorted(ids_of(records)),
        0 <= from <= records.len(),
        check_index(layout, records, from, budget).1 is None,
    ensures
        forall|k: int|
            #![trigger ids_of(records)[k]]
            from <= k < records.len() && k >= 1 ==> ids_of(records)[k] != ids_of(records)[k - 1],
        forall|i: int|
            #![trigger records[i]]
            from <= i < records.len() ==> (records::parent_of(layout, records[i]@) matches Some(parent)
                ==> exists|k: int|
                #![trigger records[k]]
                0 <= k < records.len() && records::leading_id(records[k]@) == parent && records::ordinal_of(
                    layout,
                    records[k]@,
                ) < records::ordinal_of(layout, records[i]@)),
    decreases records.len() - from,
{
    if from < records.len() {
        let stepped = work::spent(budget, 1);
        let record = records[from]@;
        let ids = ids_of(records);
        assert(ids[from] == records::leading_id(record));
        if from > 0 {
            assert(ids[from - 1] == records::leading_id(records[from - 1]@));
        }
        match records::parent_of(layout, record) {
            None => {
                lemma_checked_from(layout, records, from + 1, stepped);
            },
            Some(parent) => {
                let outcome = search(ids, parent, 0, records.len() as int);
                law_search_finds(ids, parent, 0, records.len() as int);
                let position = outcome.1->0;
                assert(outcome.1 is Some);
                assert(ids[position] == records::leading_id(records[position]@));
                lemma_checked_from(layout, records, from + 1, work::spent(stepped, outcome.0));
            },
        }
    }
}

} // verus!
