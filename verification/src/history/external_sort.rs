//! Sorting records in runs and merging the runs.

use crate::contract::MAX_CONVERSATION_SCAN_BYTES;
use crate::error::{protocol, RuntimeError};
use crate::error;
use crate::history::records::{record_id, IndexLayout};
use crate::history::records;
use crate::history::search;
use crate::history::work::{WorkBudget, INDEX_MEMORY_LIMIT, INDEX_MERGE_FAN_IN, INDEX_SORT_BYTES};
use crate::history::work;
use crate::order::{compare_bytes, Relation};
use crate::order;
use vstd::arithmetic::power;
use vstd::multiset::Multiset;
use vstd::prelude::*;

verus! {

/// A record that is sorted by a key.
pub trait SortRecord: Sized {
    /// Whether the record holds a whole key.
    spec fn sortable(&self) -> bool;

    /// The key.
    spec fn sort_key(&self) -> Seq<u8>;

    /// How this record's key stands to another's.
    fn relate(&self, other: &Self) -> (relation: Relation)
        requires
            self.sortable(),
            other.sortable(),
        ensures
            relation == order::bytes_relation(self.sort_key(), other.sort_key()),
    ;
}

/// Index records are sorted by entry, event pointer records by run.
impl SortRecord for Vec<u8> {
    open spec fn sortable(&self) -> bool {
        records::has_leading_id(self@)
    }

    open spec fn sort_key(&self) -> Seq<u8> {
        records::leading_id(self@)
    }

    fn relate(&self, other: &Self) -> (relation: Relation) {
        compare_bytes(record_id(self), record_id(other))
    }
}

/// Whether one record may stand before another: its key does not follow the
/// other's in the chosen direction.
pub open spec fn in_order<R: SortRecord>(left: R, right: R, descending: bool) -> bool {
    if descending {
        !order::bytes_before(left.sort_key(), right.sort_key())
    } else {
        !order::bytes_before(right.sort_key(), left.sort_key())
    }
}

/// Whether records stand in order.
pub open spec fn ordered<R: SortRecord>(records: Seq<R>, descending: bool) -> bool {
    forall|i: int, j: int|
        #![trigger records[i], records[j]]
        0 <= i < j < records.len() ==> in_order(records[i], records[j], descending)
}

/// Whether every record holds a whole key.
pub open spec fn all_sortable<R: SortRecord>(records: Seq<R>) -> bool {
    forall|i: int| 0 <= i < records.len() ==> (#[trigger] records[i]).sortable()
}

/// How many comparisons sorting may take at most.
pub open spec fn comparison_bound(count: nat) -> nat {
    if count == 0 {
        0
    } else {
        count * work::bit_length((count - 1) as nat)
    }
}

proof fn lemma_in_order_transitive<R: SortRecord>(first: R, second: R, third: R, descending: bool)
    requires
        in_order(first, second, descending),
        in_order(second, third, descending),
    ensures
        in_order(first, third, descending),
{
    let a = first.sort_key();
    let b = second.sort_key();
    let c = third.sort_key();
    order::law_bytes_order_total(a, b);
    order::law_bytes_order_total(b, c);
    order::law_bytes_order_total(a, c);
    if a != b && b != c {
        if descending {
            order::law_bytes_order_transitive(c, b, a);
        } else {
            order::law_bytes_order_transitive(a, b, c);
        }
    }
}

proof fn lemma_halves(count: nat)
    requires
        count >= 2,
    ensures
        comparison_bound(count / 2) + comparison_bound((count - count / 2) as nat) + (count - 1)
            <= comparison_bound(count),
{
    let small = (count / 2) as nat;
    let large = (count - count / 2) as nat;
    let digits = work::bit_length((count - 1) as nat);
    assert(large - 1 == (count - 1) / 2);
    assert(work::bit_length((large - 1) as nat) == digits - 1);
    search::lemma_bit_length_monotone((small - 1) as nat, (large - 1) as nat);
    let less = work::bit_length((small - 1) as nat);
    assert(small * less <= small * (digits - 1)) by (nonlinear_arith)
        requires
            0 <= less <= digits - 1,
            small >= 0,
    ;
    assert(small * (digits - 1) + large * (digits - 1) == count * (digits - 1)) by (nonlinear_arith)
        requires
            small + large == count,
    ;
    assert(count * (digits - 1) + count == count * digits) by (nonlinear_arith);
}

/// Merges two lists that are both in the order opposite to the chosen one.
fn merge_reversed<R: SortRecord>(
    mut left: Vec<R>,
    mut right: Vec<R>,
    descending: bool,
    comparisons: u64,
) -> (merged: (Vec<R>, u64))
    requires
        all_sortable(left@),
        all_sortable(right@),
        ordered(left@, !descending),
        ordered(right@, !descending),
        left@.len() >= 1,
        right@.len() >= 1,
    ensures
        merged.0@.to_multiset() == left@.to_multiset().add(right@.to_multiset()),
        merged.0@.len() == left@.len() + right@.len(),
        all_sortable(merged.0@),
        ordered(merged.0@, descending),
        merged.1 <= comparisons + left@.len() + right@.len() - 1,
{
    broadcast use vstd::seq_lib::group_to_multiset_ensures;

    let ghost all = left@.to_multiset().add(right@.to_multiset());
    let ghost total = left@.len() + right@.len();
    let mut out: Vec<R> = Vec::new();
    let mut count: u64 = comparisons;
    assert(out@.to_multiset() =~= vstd::multiset::Multiset::empty());
    while left.len() > 0 && right.len() > 0
        invariant
            all_sortable(left@),
            all_sortable(right@),
            all_sortable(out@),
            ordered(left@, !descending),
            ordered(right@, !descending),
            ordered(out@, descending),
            left@.len() + right@.len() >= 1,
            forall|i: int, j: int|
                #![trigger out@[i], left@[j]]
                0 <= i < out@.len() && 0 <= j < left@.len() ==> in_order(
                    out@[i],
                    left@[j],
                    descending,
                ),
            forall|i: int, j: int|
                #![trigger out@[i], right@[j]]
                0 <= i < out@.len() && 0 <= j < right@.len() ==> in_order(
                    out@[i],
                    right@[j],
                    descending,
                ),
            out@.to_multiset().add(left@.to_multiset()).add(right@.to_multiset()) =~= all,
            out@.len() + left@.len() + right@.len() == total,
            count <= comparisons + out@.len(),
        decreases left@.len() + right@.len(),
    {
        broadcast use vstd::seq_lib::group_to_multiset_ensures;

        let ghost l0 = left@;
        let ghost r0 = right@;
        let ghost o0 = out@;
        count = count.saturating_add(1);
        let relation = left[left.len() - 1].relate(&right[right.len() - 1]);
        let take_left = match relation {
            Relation::Before => !descending,
            Relation::Same => true,
            Relation::After => descending,
        };
        proof {
            order::law_bytes_order_total(l0.last().sort_key(), r0.last().sort_key());
        }
        if take_left {
            assert(in_order(l0.last(), r0.last(), descending));
            let record = left.pop().unwrap();
            assert(l0 =~= left@.push(record));
            out.push(record);
            assert forall|i: int, j: int|
                #![trigger out@[i], right@[j]]
                0 <= i < out@.len() && 0 <= j < right@.len() implies in_order(
                out@[i],
                right@[j],
                descending,
            ) by {
                if i == o0.len() {
                    if j < r0.len() - 1 {
                        assert(in_order(r0[j], r0[r0.len() - 1], !descending));
                        lemma_in_order_transitive(record, r0.last(), r0[j], descending);
                    }
                }
            }
            assert forall|i: int, j: int|
                #![trigger out@[i], left@[j]]
                0 <= i < out@.len() && 0 <= j < left@.len() implies in_order(
                out@[i],
                left@[j],
                descending,
            ) by {
                assert(left@[j] == l0[j]);
                if i == o0.len() {
                    assert(in_order(l0[j], l0[l0.len() - 1], !descending));
                }
            }
            assert forall|i: int, j: int|
                #![trigger out@[i], out@[j]]
                0 <= i < j < out@.len() implies in_order(out@[i], out@[j], descending) by {
                if j == o0.len() {
                    assert(in_order(o0[i], l0[l0.len() - 1], descending));
                }
            }
            assert(out@.to_multiset().add(left@.to_multiset()).add(right@.to_multiset()) =~= all);
        } else {
            assert(in_order(r0.last(), l0.last(), descending));
            let record = right.pop().unwrap();
            assert(r0 =~= right@.push(record));
            out.push(record);
            assert forall|i: int, j: int|
                #![trigger out@[i], left@[j]]
                0 <= i < out@.len() && 0 <= j < left@.len() implies in_order(
                out@[i],
                left@[j],
                descending,
            ) by {
                if i == o0.len() {
                    if j < l0.len() - 1 {
                        assert(in_order(l0[j], l0[l0.len() - 1], !descending));
                        lemma_in_order_transitive(record, l0.last(), l0[j], descending);
                    }
                }
            }
            assert forall|i: int, j: int|
                #![trigger out@[i], right@[j]]
                0 <= i < out@.len() && 0 <= j < right@.len() implies in_order(
                out@[i],
                right@[j],
                descending,
            ) by {
                assert(right@[j] == r0[j]);
                if i == o0.len() {
                    assert(in_order(r0[j], r0[r0.len() - 1], !descending));
                }
            }
            assert forall|i: int, j: int|
                #![trigger out@[i], out@[j]]
                0 <= i < j < out@.len() implies in_order(out@[i], out@[j], descending) by {
                if j == o0.len() {
                    assert(in_order(o0[i], r0[r0.len() - 1], descending));
                }
            }
            assert(out@.to_multiset().add(left@.to_multiset()).add(right@.to_multiset()) =~= all);
        }
    }
    assert(left@.len() == 0 ==> left@ =~= Seq::empty());
    assert(right@.len() == 0 ==> right@ =~= Seq::empty());
    let ghost done = count;
    if left.len() > 0 {
        drain_reversed(&mut out, left, descending);
    } else {
        drain_reversed(&mut out, right, descending);
    }
    assert(out@.to_multiset() =~= all);
    (out, count)
}

/// Appends a list that is in the order opposite to the chosen one.
fn drain_reversed<R: SortRecord>(out: &mut Vec<R>, mut rest: Vec<R>, descending: bool)
    requires
        all_sortable(old(out)@),
        all_sortable(rest@),
        ordered(old(out)@, descending),
        ordered(rest@, !descending),
        forall|i: int, j: int|
            #![trigger old(out)@[i], rest@[j]]
            0 <= i < old(out)@.len() && 0 <= j < rest@.len() ==> in_order(
                old(out)@[i],
                rest@[j],
                descending,
            ),
    ensures
        all_sortable(final(out)@),
        ordered(final(out)@, descending),
        final(out)@.to_multiset() == old(out)@.to_multiset().add(rest@.to_multiset()),
        final(out)@.len() == old(out)@.len() + rest@.len(),
{
    broadcast use vstd::seq_lib::group_to_multiset_ensures;

    let ghost all = out@.to_multiset().add(rest@.to_multiset());
    let ghost total = out@.len() + rest@.len();
    while rest.len() > 0
        invariant
            all_sortable(out@),
            all_sortable(rest@),
            ordered(out@, descending),
            ordered(rest@, !descending),
            forall|i: int, j: int|
                #![trigger out@[i], rest@[j]]
                0 <= i < out@.len() && 0 <= j < rest@.len() ==> in_order(
                    out@[i],
                    rest@[j],
                    descending,
                ),
            out@.to_multiset().add(rest@.to_multiset()) =~= all,
            out@.len() + rest@.len() == total,
        decreases rest@.len(),
    {
        broadcast use vstd::seq_lib::group_to_multiset_ensures;

        let ghost r0 = rest@;
        let ghost o0 = out@;
        let record = rest.pop().unwrap();
        assert(r0 =~= rest@.push(record));
        out.push(record);
        assert forall|i: int, j: int|
            #![trigger out@[i], rest@[j]]
            0 <= i < out@.len() && 0 <= j < rest@.len() implies in_order(
            out@[i],
            rest@[j],
            descending,
        ) by {
            assert(rest@[j] == r0[j]);
            if i == o0.len() {
                assert(in_order(r0[j], r0[r0.len() - 1], !descending));
            }
        }
        assert forall|i: int, j: int|
            #![trigger out@[i], out@[j]]
            0 <= i < j < out@.len() implies in_order(out@[i], out@[j], descending) by {
            if j == o0.len() {
                assert(in_order(o0[i], r0[r0.len() - 1], descending));
            }
        }
        assert(out@.to_multiset().add(rest@.to_multiset()) =~= all);
    }
    assert(rest@ =~= Seq::empty());
    assert(out@.to_multiset() =~= all);
}

/// Sorts by halves, and counts the comparisons.
fn merge_sort<R: SortRecord>(mut records: Vec<R>, descending: bool) -> (sorted: (Vec<R>, u64))
    requires
        all_sortable(records@),
    ensures
        sorted.0@.to_multiset() == records@.to_multiset(),
        sorted.0@.len() == records@.len(),
        all_sortable(sorted.0@),
        ordered(sorted.0@, descending),
        sorted.1 <= comparison_bound(records@.len()),
    decreases records@.len(),
{
    if records.len() < 2 {
        return (records, 0);
    }
    let ghost all = records@;
    let middle: usize = records.len() / 2;
    let rest = records.split_off(middle);
    proof {
        assert(all =~= records@ + rest@);
        vstd::seq_lib::lemma_multiset_commutative(records@, rest@);
        assert(all_sortable(records@)) by {
            assert forall|i: int| 0 <= i < records@.len() implies (#[trigger] records@[i]).sortable() by {
                assert(all[i].sortable());
            }
        }
        assert(all_sortable(rest@)) by {
            assert forall|i: int| 0 <= i < rest@.len() implies (#[trigger] rest@[i]).sortable() by {
                assert(all[i + middle].sortable());
            }
        }
    }
    let (left, left_count) = merge_sort(records, !descending);
    let (right, right_count) = merge_sort(rest, !descending);
    let spent_so_far = left_count.saturating_add(right_count);
    proof {
        lemma_halves(all.len());
    }
    merge_reversed(left, right, descending, spent_so_far)
}

/// Sorts a run by key and counts the comparisons against the budget.
pub fn sort_run<R: SortRecord>(chunk: &mut Vec<R>, work: &mut WorkBudget) -> (result: Result<
    (),
    RuntimeError,
>)
    requires
        all_sortable(old(chunk)@),
    ensures
        final(chunk)@.to_multiset() == old(chunk)@.to_multiset(),
        ordered(final(chunk)@, false),
        all_sortable(final(chunk)@),
        exists|comparisons: nat| #[trigger]
            comparisons_fit(comparisons, old(chunk)@.len()) && error::failure(result) == work::work_failure(
                *old(work),
                comparisons,
            ) && *final(work) == work::work_after(*old(work), comparisons),
{
    let mut records: Vec<R> = Vec::new();
    std::mem::swap(&mut records, chunk);
    let (sorted, comparisons) = merge_sort(records, false);
    *chunk = sorted;
    assert(comparisons_fit(comparisons as nat, old(chunk)@.len()));
    work.add(comparisons)
}

/// Whether a number of comparisons is within the bound for sorting.
pub open spec fn comparisons_fit(comparisons: nat, count: nat) -> bool {
    comparisons <= comparison_bound(count)
}

/// How many of the first `upto` runs have a record left.
pub open spec fn present<R>(heads: Seq<Option<R>>, upto: int) -> nat
    decreases upto,
{
    if upto <= 0 {
        0
    } else {
        present(heads, upto - 1) + (if heads[upto - 1] is Some {
            1nat
        } else {
            0nat
        })
    }
}

/// The first of the runs, among the first `upto`, whose record has the least key.
pub open spec fn least<R: SortRecord>(heads: Seq<Option<R>>, upto: int) -> Option<int>
    decreases upto,
{
    if upto <= 0 {
        None
    } else {
        match heads[upto - 1] {
            None => least(heads, upto - 1),
            Some(record) => match least(heads, upto - 1) {
                None => Some(upto - 1),
                Some(prior) => if order::bytes_before(record.sort_key(), heads[prior]->0.sort_key()) {
                    Some(upto - 1)
                } else {
                    Some(prior)
                },
            },
        }
    }
}

/// The least record is a record, and none that is left has a smaller key; of equal
/// ones the first run's is taken.
pub proof fn law_least<R: SortRecord>(heads: Seq<Option<R>>, upto: int)
    requires
        0 <= upto <= heads.len(),
    ensures
        match least(heads, upto) {
            None => forall|i: int| 0 <= i < upto ==> #[trigger] heads[i] is None,
            Some(k) => {
                &&& 0 <= k < upto
                &&& heads[k] is Some
                &&& forall|i: int|
                    0 <= i < upto && #[trigger] heads[i] is Some ==> !order::bytes_before(
                        heads[i]->0.sort_key(),
                        heads[k]->0.sort_key(),
                    )
                &&& forall|i: int|
                    0 <= i < k && #[trigger] heads[i] is Some ==> heads[i]->0.sort_key()
                        != heads[k]->0.sort_key()
            },
        },
    decreases upto,
{
    if upto > 0 {
        law_least(heads, upto - 1);
        if let Some(record) = heads[upto - 1] {
            order::law_bytes_order_total(record.sort_key(), record.sort_key());
            if let Some(prior) = least(heads, upto - 1) {
                let key = record.sort_key();
                let prior_key = heads[prior]->0.sort_key();
                if order::bytes_before(key, prior_key) {
                    assert forall|i: int| 0 <= i < upto && #[trigger] heads[i] is Some implies !order::bytes_before(
                        heads[i]->0.sort_key(),
                        key,
                    ) by {
                        if i < upto - 1 && order::bytes_before(heads[i]->0.sort_key(), key) {
                            order::law_bytes_order_transitive(heads[i]->0.sort_key(), key, prior_key);
                        }
                    }
                    assert forall|i: int| 0 <= i < upto - 1 && #[trigger] heads[i] is Some implies heads[i]->0.sort_key()
                        != key by {
                    }
                }
            }
        }
    }
}

/// Chooses the run whose record is to be written next.
pub fn select_least<R: SortRecord>(heads: &Vec<Option<R>>, work: &mut WorkBudget) -> (result:
    Result<Option<usize>, RuntimeError>)
    requires
        forall|i: int| 0 <= i < heads@.len() ==> (#[trigger] heads@[i] matches Some(record)
            ==> record.sortable()),
        old(work).used <= old(work).limit,
    ensures
        error::failure(result) == work::spend_failure(*old(work), present(heads@, heads@.len() as int)),
        *final(work) == work::spent(*old(work), present(heads@, heads@.len() as int)),
        result matches Ok(Some(index)) ==> least(heads@, heads@.len() as int) == Some(index as int)
            && index < heads@.len(),
        result matches Ok(None) ==> least(heads@, heads@.len() as int) is None,
{
    let mut chosen: Option<usize> = None;
    let mut i: usize = 0;
    while i < heads.len()
        invariant
            i <= heads.len(),
            forall|i: int| 0 <= i < heads@.len() ==> (#[trigger] heads@[i] matches Some(record)
                ==> record.sortable()),
            old(work).used + present(heads@, i as int) <= old(work).limit,
            work.used == old(work).used + present(heads@, i as int),
            work.limit == old(work).limit,
            match chosen {
                Some(k) => least(heads@, i as int) == Some(k as int) && k < i && heads@[k as int] is Some,
                None => least(heads@, i as int) is None,
            },
        decreases heads.len() - i,
    {
        proof {
            lemma_present_monotone(heads@, i + 1, heads@.len() as int);
        }
        if let Some(record) = &heads[i] {
            work.add(1)?;
            match chosen {
                None => {
                    chosen = Some(i);
                },
                Some(k) => {
                    if let Some(prior) = &heads[k] {
                        let relation = record.relate(prior);
                        proof {
                            order::law_bytes_order_total(record.sort_key(), prior.sort_key());
                        }
                        if relation == Relation::Before {
                            chosen = Some(i);
                        }
                    }
                },
            }
        }
        i = i + 1;
    }
    Ok(chosen)
}

proof fn lemma_present_monotone<R>(heads: Seq<Option<R>>, low: int, high: int)
    requires
        low <= high,
    ensures
        present(heads, low) <= present(heads, high),
    decreases high - low,
{
    if low < high {
        lemma_present_monotone(heads, low, high - 1);
    }
}

/// While runs are merged, no record that is left has a smaller key than the last
/// one written.
pub open spec fn merge_in_order<R: SortRecord>(heads: Seq<Option<R>>, last: Option<Seq<u8>>) -> bool {
    last matches Some(key) ==> forall|i: int|
        0 <= i < heads.len() && #[trigger] heads[i] is Some ==> !order::bytes_before(
            heads[i]->0.sort_key(),
            key,
        )
}

/// Writing the least record and reading the next one of its run, which does not
/// come before it, keeps the merge in order: what is written next does not come
/// before what was written last.
pub proof fn law_merge_keeps_order<R: SortRecord>(
    heads: Seq<Option<R>>,
    last: Option<Seq<u8>>,
    replacement: Option<R>,
)
    requires
        merge_in_order(heads, last),
        least(heads, heads.len() as int) matches Some(k) ==> (replacement matches Some(record)
            ==> !order::bytes_before(record.sort_key(), heads[k]->0.sort_key())),
    ensures
        least(heads, heads.len() as int) matches Some(k) ==> {
            &&& last matches Some(key) ==> !order::bytes_before(heads[k]->0.sort_key(), key)
            &&& merge_in_order(heads.update(k, replacement), Some(heads[k]->0.sort_key()))
        },
{
    law_least(heads, heads.len() as int);
    if let Some(k) = least(heads, heads.len() as int) {
        let next = heads.update(k, replacement);
        assert forall|i: int| 0 <= i < next.len() && #[trigger] next[i] is Some implies !order::bytes_before(
            next[i]->0.sort_key(),
            heads[k]->0.sort_key(),
        ) by {
            if i != k {
                assert(next[i] == heads[i]);
            }
        }
    }
}

/// The record of a run that is next, where it has one.
pub open spec fn one_record<R>(head: Option<R>) -> Multiset<R> {
    match head {
        Some(record) => Multiset::singleton(record),
        None => Multiset::empty(),
    }
}

/// The next records of runs.
pub open spec fn head_records<R>(heads: Seq<Option<R>>) -> Multiset<R>
    decreases heads.len(),
{
    if heads.len() == 0 {
        Multiset::empty()
    } else {
        head_records(heads.drop_last()).add(one_record(heads.last()))
    }
}

/// The records of runs.
pub open spec fn run_records<R>(runs: Seq<Seq<R>>) -> Multiset<R>
    decreases runs.len(),
{
    if runs.len() == 0 {
        Multiset::empty()
    } else {
        run_records(runs.drop_last()).add(runs.last().to_multiset())
    }
}

/// What is read of runs when their first records are.
pub open spec fn first_reads<R>(heads: Seq<Option<R>>) -> Seq<Seq<R>> {
    heads.map_values(
        |head: Option<R>|
            match head {
                Some(record) => seq![record],
                None => Seq::empty(),
            },
    )
}

proof fn lemma_first_reads<R>(heads: Seq<Option<R>>)
    ensures
        run_records(first_reads(heads)) == head_records(heads),
    decreases heads.len(),
{
    broadcast use vstd::seq_lib::group_to_multiset_ensures;

    if heads.len() > 0 {
        lemma_first_reads(heads.drop_last());
        let reads = first_reads(heads);
        assert(reads.drop_last() =~= first_reads(heads.drop_last()));
        let none: Seq<R> = Seq::empty();
        match heads.last() {
            Some(record) => {
                assert(none.push(record) =~= seq![record]);
                assert(none.to_multiset() =~= Multiset::empty());
                assert(reads.last().to_multiset() =~= one_record(heads.last()));
            },
            None => {
                assert(reads.last().to_multiset() =~= one_record(heads.last()));
            },
        }
    }
}

proof fn lemma_head_replaced<R>(heads: Seq<Option<R>>, k: int, next: Option<R>)
    requires
        0 <= k < heads.len(),
    ensures
        head_records(heads.update(k, next)).add(one_record(heads[k])) == head_records(heads).add(
            one_record(next),
        ),
    decreases heads.len(),
{
    let now = heads.update(k, next);
    if k < heads.len() - 1 {
        lemma_head_replaced(heads.drop_last(), k, next);
        let shorter = heads.drop_last();
        assert(now.drop_last() =~= shorter.update(k, next));
        assert(now.last() == heads.last());
        let last = one_record(heads.last());
        assert(head_records(now).add(one_record(heads[k])) =~= head_records(
            shorter.update(k, next),
        ).add(one_record(shorter[k])).add(last));
        assert(head_records(shorter).add(one_record(next)).add(last) =~= head_records(heads).add(
            one_record(next),
        ));
    } else {
        assert(now.drop_last() =~= heads.drop_last());
        assert(head_records(now).add(one_record(heads[k])) =~= head_records(heads).add(
            one_record(next),
        ));
    }
}

proof fn lemma_run_grows<R>(runs: Seq<Seq<R>>, k: int, record: R)
    requires
        0 <= k < runs.len(),
    ensures
        run_records(runs.update(k, runs[k].push(record))) == run_records(runs).add(
            one_record(Some(record)),
        ),
    decreases runs.len(),
{
    broadcast use vstd::seq_lib::group_to_multiset_ensures;

    let now = runs.update(k, runs[k].push(record));
    if k < runs.len() - 1 {
        lemma_run_grows(runs.drop_last(), k, record);
        assert(now.drop_last() =~= runs.drop_last().update(k, runs[k].push(record)));
        assert(run_records(now) =~= run_records(runs).add(one_record(Some(record))));
    } else {
        assert(now.drop_last() =~= runs.drop_last());
        assert(run_records(now) =~= run_records(runs).add(one_record(Some(record))));
    }
}

proof fn lemma_no_heads<R>(heads: Seq<Option<R>>)
    requires
        forall|i: int| 0 <= i < heads.len() ==> #[trigger] heads[i] is None,
    ensures
        head_records(heads) == Multiset::<R>::empty(),
    decreases heads.len(),
{
    if heads.len() > 0 {
        assert(heads.last() is None);
        assert forall|i: int| 0 <= i < heads.len() - 1 implies #[trigger] heads.drop_last()[i]
            is None by {
            assert(heads[i] is None);
        }
        lemma_no_heads(heads.drop_last());
        assert(head_records(heads) =~= Multiset::<R>::empty());
    }
}

proof fn lemma_ordered_push<R: SortRecord>(records: Seq<R>, record: R)
    requires
        ordered(records, false),
        records.len() > 0 ==> in_order(records.last(), record, false),
    ensures
        ordered(records.push(record), false),
{
    let now = records.push(record);
    assert forall|i: int, j: int|
        #![trigger now[i], now[j]]
        0 <= i < j < now.len() implies in_order(now[i], now[j], false) by {
        if j == records.len() {
            if i < records.len() - 1 {
                assert(in_order(records[i], records[records.len() - 1], false));
                lemma_in_order_transitive(records[i], records.last(), record, false);
            }
        } else {
            assert(in_order(records[i], records[j], false));
        }
    }
}

/// Runs that are being merged into one: the next record of each, what was read of each,
/// and what was written.
pub struct RecordMerge<R> {
    pub heads: Vec<Option<R>>,
    pub chosen: Option<usize>,
    pub runs: Ghost<Seq<Seq<R>>>,
    pub written: Ghost<Seq<R>>,
}

impl<R: SortRecord> RecordMerge<R> {
    /// Every record can be sorted. What was read is what was written and the records that
    /// are next, and the record that is next in a run is the last that was read of it.
    pub open spec fn wf(self) -> bool {
        &&& forall|i: int|
            0 <= i < self.heads@.len() ==> (#[trigger] self.heads@[i] matches Some(record)
                ==> record.sortable())
        &&& self.runs@.len() == self.heads@.len()
        &&& forall|i: int|
            0 <= i < self.heads@.len() ==> (#[trigger] self.heads@[i] matches Some(record)
                ==> self.runs@[i].len() > 0 && self.runs@[i].last() == record)
        &&& run_records(self.runs@) == self.written@.to_multiset().add(head_records(self.heads@))
        &&& self.chosen matches Some(k) ==> {
            &&& least(self.heads@, self.heads@.len() as int) == Some(k as int)
            &&& k < self.heads@.len()
            &&& self.heads@[k as int] is Some
        }
    }

    /// The key of the last record that was written.
    pub open spec fn last(self) -> Option<Seq<u8>> {
        if self.written@.len() > 0 {
            Some(self.written@.last().sort_key())
        } else {
            None
        }
    }

    /// What was written stands in order, and no record that is left comes before it.
    pub open spec fn in_order(self) -> bool {
        &&& merge_in_order(self.heads@, self.last())
        &&& ordered(self.written@, false)
    }

    /// A merge of runs of which the first records were read.
    pub fn merge_record_run_group(heads: Vec<Option<R>>) -> (merge: RecordMerge<R>)
        requires
            forall|i: int|
                0 <= i < heads@.len() ==> (#[trigger] heads@[i] matches Some(record)
                    ==> record.sortable()),
        ensures
            merge.wf(),
            merge.in_order(),
            merge.heads == heads,
            merge.chosen is None,
            merge.runs@ == first_reads(heads@),
            merge.written@ == Seq::<R>::empty(),
    {
        let ghost none: Seq<R> = Seq::empty();
        let merge = RecordMerge {
            heads,
            chosen: None,
            runs: Ghost(first_reads(heads@)),
            written: Ghost(none),
        };
        proof {
            broadcast use vstd::seq_lib::group_to_multiset_ensures;

            lemma_first_reads(heads@);
            assert(none.to_multiset() =~= Multiset::empty());
            assert(none.to_multiset().add(head_records(heads@)) =~= head_records(heads@));
        }
        merge
    }

    /// Chooses the run whose record is written next; none where every run is at its end.
    /// Each record that is looked at is one step of work. At the end, every record that was
    /// read has been written, as often as it was read.
    pub fn choose_run(&mut self, work: &mut WorkBudget) -> (result: Result<
        Option<usize>,
        RuntimeError,
    >)
        requires
            old(self).wf(),
            old(self).chosen is None,
            old(work).used <= old(work).limit,
        ensures
            error::failure(result) == work::spend_failure(
                *old(work),
                present(old(self).heads@, old(self).heads@.len() as int),
            ),
            *final(work) == work::spent(
                *old(work),
                present(old(self).heads@, old(self).heads@.len() as int),
            ),
            final(self).wf(),
            result is Err ==> *final(self) == *old(self),
            result matches Ok(chosen) ==> {
                &&& *final(self) == (RecordMerge { chosen, ..*old(self) })
                &&& match chosen {
                    None => {
                        &&& least(old(self).heads@, old(self).heads@.len() as int) is None
                        &&& final(self).written@.to_multiset() == run_records(final(self).runs@)
                    },
                    Some(k) => least(old(self).heads@, old(self).heads@.len() as int) == Some(
                        k as int,
                    ),
                }
            },
    {
        let chosen = select_least(&self.heads, work)?;
        let ghost heads = self.heads@;
        proof {
            law_least(heads, heads.len() as int);
            if chosen is None {
                lemma_no_heads(heads);
                assert(self.written@.to_multiset().add(head_records(heads))
                    =~= self.written@.to_multiset());
            }
        }
        self.chosen = chosen;
        Ok(chosen)
    }

    /// Takes what reading the next record of the chosen run gave, once its record was
    /// written. A run that is sorted has no record there that comes before it, and the
    /// merge stays in order.
    pub fn replace_head(&mut self, next: Option<R>)
        requires
            old(self).wf(),
            old(self).chosen is Some,
            next matches Some(record) ==> record.sortable(),
        ensures
            final(self).wf(),
            ({
                let k = old(self).chosen->0 as int;
                let record = old(self).heads@[k]->0;
                &&& final(self).chosen is None
                &&& final(self).heads@ == old(self).heads@.update(k, next)
                &&& final(self).written@ == old(self).written@.push(record)
                &&& final(self).runs@ == (match next {
                    Some(next) => old(self).runs@.update(k, old(self).runs@[k].push(next)),
                    None => old(self).runs@,
                })
                &&& (old(self).in_order() && (next matches Some(next) ==> in_order(
                    record,
                    next,
                    false,
                ))) ==> final(self).in_order()
            }),
    {
        let ghost before = self.heads@;
        let ghost runs = self.runs@;
        let ghost written = self.written@;
        let ghost was = *self;
        match self.chosen {
            Some(k) => {
                let ghost record = before[k as int]->0;
                let ghost following = next;
                proof {
                    broadcast use vstd::seq_lib::group_to_multiset_ensures;

                    law_least(before, before.len() as int);
                    lemma_head_replaced(before, k as int, next);
                    self.written@ = written.push(record);
                    if next is Some {
                        lemma_run_grows(runs, k as int, next->0);
                        self.runs@ = runs.update(k as int, runs[k as int].push(next->0));
                    }
                    let now = before.update(k as int, next);
                    let after = one_record(next);
                    assert(run_records(self.runs@) =~= run_records(runs).add(after));
                    assert(self.written@.to_multiset() =~= written.to_multiset().insert(record));
                    assert(written.to_multiset().add(head_records(before)).add(after)
                        =~= written.to_multiset().add(head_records(before).add(after)));
                    assert(written.to_multiset().add(head_records(now).add(one_record(Some(record))))
                        =~= self.written@.to_multiset().add(head_records(now)));
                }
                self.heads.set(k, next);
                assert(self.heads@ =~= before.update(k as int, next));
                assert forall|i: int|
                    0 <= i < self.heads@.len() && i != k implies #[trigger] self.heads@[i]
                    == before[i] by {}
                self.chosen = None;
                proof {
                    if was.in_order() && (following is Some ==> in_order(
                        record,
                        following->0,
                        false,
                    )) {
                        if written.len() > 0 {
                            assert(before[k as int] is Some);
                            assert(in_order(written.last(), record, false));
                        }
                        lemma_ordered_push(written, record);
                    }
                }
            },
            None => {},
        }
    }
}

/// Merging sorted runs makes one sorted run of the same records: when every run has come to
/// its end, what was written stands in order and holds every record of every run, as often
/// as the runs hold it.
pub proof fn law_merged_run_holds_every_record<R: SortRecord>(merge: RecordMerge<R>)
    requires
        merge.wf(),
        merge.in_order(),
        least(merge.heads@, merge.heads@.len() as int) is None,
    ensures
        merge.written@.to_multiset() == run_records(merge.runs@),
        ordered(merge.written@, false),
{
    law_least(merge.heads@, merge.heads@.len() as int);
    lemma_no_heads(merge.heads@);
    assert(merge.written@.to_multiset().add(head_records(merge.heads@))
        =~= merge.written@.to_multiset());
}

/// One merge of neighbouring runs into a run of the next generation.
#[derive(Clone, Copy, Debug, PartialEq, Eq, Structural)]
pub struct MergeGroup {
    pub generation: u32,
    pub first: u64,
    pub length: u64,
    pub next_generation: u32,
    pub output: u64,
}

/// Where merging the runs of each generation stands.
#[derive(Clone, Copy, Debug, PartialEq, Eq, Structural)]
pub struct MergeSchedule {
    pub generation: u32,
    pub count: u64,
    pub first: u64,
    pub output: u64,
}

/// How many runs remain when groups of runs have been merged.
pub open spec fn merged_count(count: nat) -> nat {
    (count + INDEX_MERGE_FAN_IN - 1) as nat / INDEX_MERGE_FAN_IN as nat
}

/// What merging generation behind generation comes to: the generation of what is left and
/// how many runs that is, nothing where the generations run out.
pub open spec fn merge_result(generation: nat, count: nat) -> Option<(nat, nat)>
    decreases count,
{
    if count <= 1 {
        Some((generation, count))
    } else if generation >= u32::MAX {
        None
    } else {
        merge_result(generation + 1, merged_count(count))
    }
}

impl MergeSchedule {
    /// What merging comes to.
    pub open spec fn result(self) -> Option<(nat, nat)> {
        merge_result(self.generation as nat, self.count as nat)
    }

    /// The runs before `first` are merged into `output` runs, full groups but for
    /// the last.
    pub open spec fn wf(self) -> bool {
        &&& self.output == merged_count(self.first as nat)
        &&& self.first < self.count || (self.first == 0 && self.count == 0)
        &&& self.first % INDEX_MERGE_FAN_IN == 0
    }

    /// Merging starts with the runs of generation zero.
    pub fn merge_all_record_runs(count: u64) -> (schedule: MergeSchedule)
        ensures
            schedule.wf(),
            schedule.count == count,
            schedule.generation == 0,
            schedule.first == 0,
            schedule.output == 0,
    {
        MergeSchedule { generation: 0, count, first: 0, output: 0 }
    }

    /// The next group of runs to merge; none where at most one run is left.
    pub fn next_group(&mut self, overflow: &str) -> (result: Result<
        Option<MergeGroup>,
        RuntimeError,
    >)
        requires
            old(self).wf(),
        ensures
            final(self).wf(),
            error::failure(result) == (if old(self).count > 1 && old(self).generation == u32::MAX {
                error::protocol_failure(overflow@)
            } else {
                None
            }),
            final(self).result() == old(self).result(),
            result is Err ==> old(self).result() is None,
            result matches Ok(None) ==> {
                &&& old(self).count <= 1
                &&& *final(self) == *old(self)
                &&& old(self).result() == Some(
                    (old(self).generation as nat, old(self).count as nat),
                )
            },
            result matches Ok(Some(group)) ==> {
                &&& old(self).count > 1
                &&& group.generation == old(self).generation
                &&& group.next_generation == old(self).generation + 1
                &&& group.first == old(self).first
                &&& group.output == old(self).output
                &&& group.length == (if old(self).count - old(self).first < INDEX_MERGE_FAN_IN {
                    old(self).count - old(self).first
                } else {
                    INDEX_MERGE_FAN_IN as int
                })
                &&& if old(self).first + group.length < old(self).count {
                    &&& final(self).generation == old(self).generation
                    &&& final(self).count == old(self).count
                    &&& final(self).first == old(self).first + group.length
                    &&& final(self).output == old(self).output + 1
                } else {
                    &&& final(self).generation == old(self).generation + 1
                    &&& final(self).count == merged_count(old(self).count as nat)
                    &&& final(self).count == old(self).output + 1
                    &&& final(self).first == 0
                }
            },
            result is Err ==> *final(self) == *old(self),
    {
        if self.count <= 1 {
            return Ok(None);
        }
        match self.generation.checked_add(1) {
            None => Err(protocol(overflow)),
            Some(next_generation) => {
                let left: u64 = self.count - self.first;
                let length: u64 = if left < INDEX_MERGE_FAN_IN { left } else { INDEX_MERGE_FAN_IN };
                let group = MergeGroup {
                    generation: self.generation,
                    first: self.first,
                    length,
                    next_generation,
                    output: self.output,
                };
                assert(merged_count((self.first + length) as nat) == self.output + 1);
                let reached: u64 = self.first + length;
                if reached < self.count {
                    self.first = reached;
                    self.output = self.output + 1;
                } else {
                    self.generation = next_generation;
                    self.count = self.output + 1;
                    self.first = 0;
                    self.output = 0;
                }
                Ok(Some(group))
            },
        }
    }
}

/// Each generation of merging leaves fewer runs, and at least one.
pub proof fn law_merging_shrinks(count: nat)
    requires
        count > 1,
    ensures
        1 <= merged_count(count) < count,
{
}

/// Merging leaves one run where there was any, and none where there was none.
pub proof fn law_one_run_is_left(generation: nat, count: nat)
    ensures
        merge_result(generation, count) matches Some((last, left)) ==> {
            &&& left == (if count == 0 {
                0nat
            } else {
                1
            })
            &&& last >= generation
        },
    decreases count,
{
    if count > 1 && generation < u32::MAX {
        law_merging_shrinks(count);
        law_one_run_is_left(generation + 1, merged_count(count));
    }
}

/// Merging takes as many generations as the logarithm of the count to the base of the
/// fan-in, rounded up.
pub proof fn law_generations_are_logarithmic(generation: nat, count: nat)
    requires
        count >= 1,
    ensures
        merge_result(generation, count) matches Some((last, left)) ==> {
            let taken = (last - generation) as nat;
            &&& last >= generation
            &&& count <= power::pow(INDEX_MERGE_FAN_IN as int, taken)
            &&& taken > 0 ==> power::pow(INDEX_MERGE_FAN_IN as int, (taken - 1) as nat) < count
        },
    decreases count,
{
    reveal(power::pow);
    let base = INDEX_MERGE_FAN_IN as int;
    if count > 1 && generation < u32::MAX {
        law_merging_shrinks(count);
        let fewer = merged_count(count);
        law_generations_are_logarithmic(generation + 1, fewer);
        law_one_run_is_left(generation + 1, fewer);
        if let Some((last, left)) = merge_result(generation + 1, fewer) {
            let taken = (last - generation) as nat;
            assert(power::pow(base, taken) == base * power::pow(base, (taken - 1) as nat));
            assert(count <= base * fewer);
            if taken == 1 {
                assert(power::pow(base, 0) == 1);
            } else {
                assert(power::pow(base, (taken - 1) as nat) == base * power::pow(base, (taken - 2) as nat));
            }
        }
    } else if count == 1 {
        assert(power::pow(base, 0) == 1);
    }
}

/// All records of runs that are given by the records that each holds.
pub open spec fn total_records<R>(runs: Seq<Multiset<R>>) -> Multiset<R>
    decreases runs.len(),
{
    if runs.len() == 0 {
        Multiset::empty()
    } else {
        total_records(runs.drop_last()).add(runs.last())
    }
}

/// The runs of the next generation, as far as the runs before `first` are merged: each
/// holds the records of a group of neighbouring runs.
pub open spec fn next_generation<R>(runs: Seq<Multiset<R>>, first: int) -> Seq<Multiset<R>>
    decreases first,
{
    if first <= 0 {
        Seq::empty()
    } else {
        let before = if first % INDEX_MERGE_FAN_IN as int == 0 {
            first - INDEX_MERGE_FAN_IN
        } else {
            first - first % INDEX_MERGE_FAN_IN as int
        };
        next_generation(runs, before).push(total_records(runs.subrange(before, first)))
    }
}

proof fn lemma_total_of_parts<R>(left: Seq<Multiset<R>>, right: Seq<Multiset<R>>)
    ensures
        total_records(left + right) == total_records(left).add(total_records(right)),
    decreases right.len(),
{
    if right.len() == 0 {
        assert(left + right =~= left);
        assert(total_records(left).add(total_records(right)) =~= total_records(left));
    } else {
        lemma_total_of_parts(left, right.drop_last());
        assert((left + right).drop_last() =~= left + right.drop_last());
        assert(total_records(left + right) =~= total_records(left).add(total_records(right)));
    }
}

/// A generation of merging keeps every record: the runs of the next generation together
/// hold what the merged runs hold, and are as many as the schedule says.
pub proof fn law_generation_keeps_every_record<R>(runs: Seq<Multiset<R>>, first: int)
    requires
        0 <= first <= runs.len(),
    ensures
        total_records(next_generation(runs, first)) == total_records(runs.take(first)),
        next_generation(runs, first).len() == merged_count(first as nat),
    decreases first,
{
    if first == 0 {
        assert(runs.take(0) =~= Seq::<Multiset<R>>::empty());
    } else {
        let before = if first % INDEX_MERGE_FAN_IN as int == 0 {
            first - INDEX_MERGE_FAN_IN
        } else {
            first - first % INDEX_MERGE_FAN_IN as int
        };
        law_generation_keeps_every_record(runs, before);
        let group = runs.subrange(before, first);
        let merged = next_generation(runs, first);
        assert(merged.drop_last() =~= next_generation(runs, before));
        assert(runs.take(first) =~= runs.take(before) + group);
        lemma_total_of_parts(runs.take(before), group);
    }
}

/// How many records of an index are sorted at a time.
pub fn index_sort_record_limit(layout: IndexLayout) -> (limit: usize)
    requires
        layout.wf(),
    ensures
        limit as int == INDEX_SORT_BYTES as int / layout.record_bytes(),
{
    INDEX_SORT_BYTES / (3 * (layout.max_id_bytes + 1) + 16)
}

/// How many event pointers are sorted at a time.
pub fn event_pointer_sort_record_limit(layout: IndexLayout) -> (limit: usize)
    requires
        layout.wf(),
    ensures
        limit as int == INDEX_SORT_BYTES as int / layout.pointer_bytes(),
{
    INDEX_SORT_BYTES / (layout.max_id_bytes + 9)
}

/// What validating a history keeps in memory at a time: a quantum of entries, a chunk that
/// is sorted, and one record of each run that is merged.
pub open spec fn index_memory_bound(layout: IndexLayout) -> int {
    MAX_CONVERSATION_SCAN_BYTES + INDEX_SORT_BYTES + 2 * 1024 * 1024 + INDEX_MERGE_FAN_IN
        * layout.record_bytes()
}

/// Validating a history never keeps more in memory than it may, however long the history
/// is.
pub proof fn law_index_memory_is_bounded(layout: IndexLayout)
    requires
        layout.wf(),
    ensures
        index_memory_bound(layout) <= INDEX_MEMORY_LIMIT,
{
}

} // verus!
