//! What a directory lists, and the checks that listings go through.

use crate::error::{protocol, ErrorModel, RuntimeError};
use crate::error;
use crate::names::SortedNames;
use crate::names;
use crate::runs::storage::holds_text;
use crate::text::same_text;
use crate::text;
use vstd::prelude::*;

verus! {

/// The items from the last to the first.
pub fn reversed<T>(items: Vec<T>) -> (turned: Vec<T>)
    ensures
        turned@.len() == items@.len(),
        forall|k: int|
            0 <= k < turned@.len() ==> #[trigger] turned@[k] == items@[items@.len() - 1 - k],
{
    let ghost all = items@;
    let mut turned: Vec<T> = Vec::new();
    let mut rest = items;
    while rest.len() > 0
        invariant
            turned@.len() + rest@.len() == all.len(),
            rest@ == all.take(rest@.len() as int),
            forall|k: int|
                0 <= k < turned@.len() ==> #[trigger] turned@[k] == all[all.len() - 1 - k],
        decreases rest@.len(),
    {
        let ghost before = rest@;
        match rest.pop() {
            Some(item) => {
                assert(item == all[before.len() - 1]);
                turned.push(item);
                assert(rest@ =~= all.take(rest@.len() as int));
            },
            None => {},
        }
    }
    turned
}

/// A name as a directory lists it.
pub enum ListedName {
    Name(String),
    /// It is not valid UTF-8.
    NotText,
    /// The directory could not be read on.
    Failed(RuntimeError),
}

/// The names among what a directory lists.
pub open spec fn names_of(listed: Seq<ListedName>) -> Set<Seq<char>>
    decreases listed.len(),
{
    if listed.len() == 0 {
        Set::empty()
    } else {
        match listed.last() {
            ListedName::Name(name) => names_of(listed.drop_last()).insert(name@),
            _ => names_of(listed.drop_last()),
        }
    }
}

/// What is wrong with what a directory lists: a name that is not text, for which there
/// is a message, or too many names, for which there is another.
pub open spec fn listing_failure(
    listed: Seq<ListedName>,
    maximum: usize,
    not_text: Seq<char>,
    too_many: Seq<char>,
) -> Option<ErrorModel>
    decreases listed.len(),
{
    if listed.len() == 0 {
        None
    } else {
        error::first_failure(
            listing_failure(listed.drop_last(), maximum, not_text, too_many),
            match listed.last() {
                ListedName::Failed(error) => Some(error@),
                ListedName::NotText => error::protocol_failure(not_text),
                ListedName::Name(_) => if names_of(listed).len() > maximum {
                    error::protocol_failure(too_many)
                } else {
                    None
                },
            },
        )
    }
}

proof fn lemma_listing_fails_early(
    listed: Seq<ListedName>,
    maximum: usize,
    not_text: Seq<char>,
    too_many: Seq<char>,
    i: int,
)
    requires
        0 <= i <= listed.len(),
        listing_failure(listed.take(i), maximum, not_text, too_many) is Some,
    ensures
        listing_failure(listed, maximum, not_text, too_many) == listing_failure(listed.take(i), maximum, not_text, too_many),
    decreases listed.len(),
{
    if i == listed.len() {
        assert(listed.take(i) =~= listed);
    } else {
        assert(listed.drop_last().take(i) =~= listed.take(i));
        lemma_listing_fails_early(listed.drop_last(), maximum, not_text, too_many, i);
    }
}

/// The names that a directory lists, in order; no more than so many.
pub fn bounded_names(
    listed: Vec<ListedName>,
    max_entries: usize,
    not_text: &str,
    too_many: &str,
) -> (result: Result<SortedNames, RuntimeError>)
    ensures
        error::failure(result) == listing_failure(listed@, max_entries, not_text@, too_many@),
        result matches Ok(names) ==> names.wf() && names@.to_set() == names_of(listed@),
{
    let ghost all = listed@;
    let mut names = SortedNames::new();
    let mut pending = reversed(listed);
    assert(all.take(0) =~= Seq::<ListedName>::empty());
    assert(names@.to_set() =~= Set::<Seq<char>>::empty());
    while pending.len() > 0
        invariant
            pending@.len() <= all.len(),
            all == listed@,
            names.wf(),
            names@.to_set() == names_of(all.take(all.len() - pending@.len())),
            listing_failure(
                all.take(all.len() - pending@.len()),
                max_entries,
                not_text@,
                too_many@,
            ) is None,
            forall|k: int|
                0 <= k < pending@.len() ==> #[trigger] pending@[k] == all[all.len() - 1 - k],
        decreases pending@.len(),
    {
        let ghost seen = all.len() - pending@.len();
        let ghost prior = names@;
        proof {
            assert(all.take(seen + 1).drop_last() =~= all.take(seen));
            assert(all.take(seen + 1).last() == all[seen]);
        }
        match pending.pop() {
            None => {},
            Some(entry) => {
                assert(entry == all[seen]);
                match entry {
                    ListedName::Failed(error) => {
                        proof {
                            lemma_listing_fails_early(
                                all,
                                max_entries,
                                not_text@,
                                too_many@,
                                seen + 1,
                            );
                        }
                        return Err(error);
                    },
                    ListedName::NotText => {
                        proof {
                            lemma_listing_fails_early(
                                all,
                                max_entries,
                                not_text@,
                                too_many@,
                                seen + 1,
                            );
                        }
                        return Err(protocol(not_text));
                    },
                    ListedName::Name(name) => {
                        names.insert(name);
                        proof {
                            names::lemma_inserted_set(prior, name@, names@);
                            names::lemma_order_counts(names@);
                        }
                        if names.len() > max_entries {
                            proof {
                                lemma_listing_fails_early(
                                all,
                                max_entries,
                                not_text@,
                                too_many@,
                                seen + 1,
                            );
                            }
                            return Err(protocol(too_many));
                        }
                    },
                }
            },
        }
    }
    assert(all.take(all.len() as int) =~= all);
    Ok(names)
}

/// Whether names are all among others.
pub fn all_among(names: &SortedNames, others: &Vec<String>) -> (among: bool)
    ensures
        among == names@.to_set().subset_of(text::texts_view(others@).to_set()),
{
    let ghost all = names@;
    let ghost allowed = text::texts_view(others@);
    let mut i: usize = 0;
    while i < names.names.len()
        invariant
            i <= names.names.len(),
            all == names@,
            allowed == text::texts_view(others@),
            forall|k: int| 0 <= k < i ==> allowed.contains(#[trigger] all[k]),
        decreases names.names.len() - i,
    {
        assert(all[i as int] == names.names@[i as int]@);
        if !holds_text(others, names.names[i].as_str()) {
            assert(all.to_set().contains(all[i as int]));
            assert(!allowed.to_set().contains(all[i as int]));
            return false;
        }
        i = i + 1;
    }
    assert forall|name: Seq<char>| all.to_set().contains(name) implies allowed.to_set().contains(
        name,
    ) by {
        let k = choose|k: int| 0 <= k < all.len() && all[k] == name;
        assert(allowed.contains(all[k]));
    }
    true
}

/// Whether all of some names are there.
pub fn holds_all(names: &SortedNames, wanted: &Vec<String>) -> (holds: bool)
    ensures
        holds == text::texts_view(wanted@).to_set().subset_of(names@.to_set()),
{
    let ghost all = names@;
    let ghost needed = text::texts_view(wanted@);
    let mut i: usize = 0;
    while i < wanted.len()
        invariant
            i <= wanted.len(),
            all == names@,
            needed == text::texts_view(wanted@),
            forall|k: int| 0 <= k < i ==> all.contains(#[trigger] needed[k]),
        decreases wanted.len() - i,
    {
        assert(needed[i as int] == wanted@[i as int]@);
        if !names.contains(wanted[i].as_str()) {
            assert(needed.to_set().contains(needed[i as int]));
            assert(!all.to_set().contains(needed[i as int]));
            return false;
        }
        i = i + 1;
    }
    assert forall|name: Seq<char>| needed.to_set().contains(name) implies all.to_set().contains(
        name,
    ) by {
        let k = choose|k: int| 0 <= k < needed.len() && needed[k] == name;
        assert(all.contains(needed[k]));
    }
    true
}

/// The names but two, in order.
pub open spec fn names_without(
    names: Seq<Seq<char>>,
    first: Seq<char>,
    second: Seq<char>,
) -> Seq<Seq<char>>
    decreases names.len(),
{
    if names.len() == 0 {
        Seq::empty()
    } else if names.last() == first || names.last() == second {
        names_without(names.drop_last(), first, second)
    } else {
        names_without(names.drop_last(), first, second).push(names.last())
    }
}

/// The names but two, in order.
pub fn leaves_without(names: &SortedNames, first: &str, second: &str) -> (leaves: Vec<String>)
    ensures
        text::texts_view(leaves@) == names_without(names@, first@, second@),
{
    let ghost all = names@;
    let mut leaves: Vec<String> = Vec::new();
    let mut i: usize = 0;
    proof {
        assert(all.take(0) =~= Seq::<Seq<char>>::empty());
        assert(text::texts_view(leaves@) =~= names_without(all.take(0), first@, second@));
    }
    while i < names.names.len()
        invariant
            i <= names.names.len(),
            all == names@,
            text::texts_view(leaves@) == names_without(all.take(i as int), first@, second@),
        decreases names.names.len() - i,
    {
        let ghost before = text::texts_view(leaves@);
        proof {
            assert(all.take(i + 1).drop_last() =~= all.take(i as int));
            assert(all.take(i + 1).last() == names.names@[i as int]@);
        }
        if !same_text(names.names[i].as_str(), first) && !same_text(
            names.names[i].as_str(),
            second,
        ) {
            leaves.push(names.names[i].clone());
            assert(text::texts_view(leaves@) =~= before.push(names.names@[i as int]@));
        }
        i = i + 1;
    }
    assert(all.take(i as int) =~= all);
    leaves
}

/// Exactly the names but two are left.
pub proof fn lemma_names_without(
    names: Seq<Seq<char>>,
    first: Seq<char>,
    second: Seq<char>,
    name: Seq<char>,
)
    ensures
        names_without(names, first, second).contains(name) <==> names.contains(name) && name
            != first && name != second,
    decreases names.len(),
{
    if names.len() > 0 {
        let rest = names.drop_last();
        let left = names_without(rest, first, second);
        lemma_names_without(rest, first, second, name);
        assert(names.contains(name) <==> rest.contains(name) || name == names.last()) by {
            if names.contains(name) {
                let k = choose|k: int| 0 <= k < names.len() && names[k] == name;
                if k < names.len() - 1 {
                    assert(rest[k] == name);
                }
            }
            if rest.contains(name) {
                let k = choose|k: int| 0 <= k < rest.len() && rest[k] == name;
                assert(names[k] == name);
            }
        }
        let pushed = left.push(names.last());
        assert(pushed.contains(name) <==> left.contains(name) || name == names.last()) by {
            assert(pushed[left.len() as int] == names.last());
            if pushed.contains(name) {
                let k = choose|k: int| 0 <= k < pushed.len() && pushed[k] == name;
                if k < left.len() {
                    assert(left[k] == name);
                }
            }
            if left.contains(name) {
                let k = choose|k: int| 0 <= k < left.len() && left[k] == name;
                assert(pushed[k] == name);
            }
        }
    }
}

/// The names of a listing are exactly those that are text.
pub proof fn law_names_are_those_listed(listed: Seq<ListedName>, name: Seq<char>)
    ensures
        names_of(listed).contains(name) <==> exists|k: int|
            0 <= k < listed.len() && (#[trigger] listed[k]) is Name && listed[k]->Name_0@ == name,
    decreases listed.len(),
{
    if listed.len() > 0 {
        let rest = listed.drop_last();
        law_names_are_those_listed(rest, name);
        assert(listed[listed.len() - 1] == listed.last());
        if names_of(rest).contains(name) {
            let k = choose|k: int|
                0 <= k < rest.len() && (#[trigger] rest[k]) is Name && rest[k]->Name_0@ == name;
            assert(listed[k] == rest[k]);
        }
        if exists|k: int|
            0 <= k < listed.len() && (#[trigger] listed[k]) is Name && listed[k]->Name_0@ == name {
            let k = choose|k: int|
                0 <= k < listed.len() && (#[trigger] listed[k]) is Name && listed[k]->Name_0@
                    == name;
            if k < rest.len() {
                assert(rest[k] == listed[k]);
            }
        }
    }
}

/// A listing that is accepted holds only names that are text, and no more than it may.
pub proof fn law_accepted_listing_is_all_names(
    listed: Seq<ListedName>,
    maximum: usize,
    not_text: Seq<char>,
    too_many: Seq<char>,
)
    requires
        listing_failure(listed, maximum, not_text, too_many) is None,
    ensures
        forall|k: int| 0 <= k < listed.len() ==> (#[trigger] listed[k]) is Name,
        listed.len() > 0 ==> names_of(listed).len() <= maximum,
    decreases listed.len(),
{
    if listed.len() > 0 {
        let rest = listed.drop_last();
        law_accepted_listing_is_all_names(rest, maximum, not_text, too_many);
        assert forall|k: int| 0 <= k < listed.len() implies (#[trigger] listed[k]) is Name by {
            if k < rest.len() {
                assert(rest[k] == listed[k]);
            }
        }
    }
}

proof fn lemma_without_of_parts(
    left: Seq<Seq<char>>,
    right: Seq<Seq<char>>,
    first: Seq<char>,
    second: Seq<char>,
)
    ensures
        names_without(left + right, first, second) == names_without(left, first, second)
            + names_without(right, first, second),
    decreases right.len(),
{
    if right.len() == 0 {
        assert(left + right =~= left);
        assert(names_without(left, first, second) + names_without(right, first, second)
            =~= names_without(left, first, second));
    } else {
        lemma_without_of_parts(left, right.drop_last(), first, second);
        assert((left + right).drop_last() =~= left + right.drop_last());
        assert((left + right).last() == right.last());
        assert(names_without(left + right, first, second) =~= names_without(left, first, second)
            + names_without(right, first, second));
    }
}

/// Two names are left out of a list and everything else stays, in its order.
pub proof fn law_only_two_names_are_left_out(
    names: Seq<Seq<char>>,
    first: Seq<char>,
    second: Seq<char>,
    k: int,
)
    requires
        0 <= k < names.len(),
    ensures
        names_without(names, first, second) == names_without(names.take(k), first, second) + (
        if names[k] == first || names[k] == second {
            Seq::empty()
        } else {
            seq![names[k]]
        }) + names_without(names.skip(k + 1), first, second),
        names_without(Seq::empty(), first, second) == Seq::<Seq<char>>::empty(),
{
    let (head, one, tail) = (names.take(k), seq![names[k]], names.skip(k + 1));
    assert(names =~= (head + one) + tail);
    lemma_without_of_parts(head + one, tail, first, second);
    lemma_without_of_parts(head, one, first, second);
    assert(one.drop_last() =~= Seq::<Seq<char>>::empty());
    assert(names_without(one.drop_last(), first, second) =~= Seq::<Seq<char>>::empty());
    assert(one.last() == names[k]);
    assert(names_without(one, first, second) =~= (if names[k] == first || names[k] == second {
        Seq::empty()
    } else {
        seq![names[k]]
    }));
}

} // verus!
