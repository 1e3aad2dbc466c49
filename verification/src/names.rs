//! Names in order: each once, sorted by their bytes.

use crate::order::{compare_bytes, Relation};
use crate::order;
use crate::text::same_text;
use crate::text;
use vstd::prelude::*;
use vstd::utf8::*;

verus! {

/// Names, each once, in the order of their bytes.
pub struct SortedNames {
    pub names: Vec<String>,
}

/// Whether a name comes before another.
pub open spec fn name_before(left: Seq<char>, right: Seq<char>) -> bool {
    order::bytes_before(encode_utf8(left), encode_utf8(right))
}

/// Whether names stand in order, each once.
pub open spec fn in_order(names: Seq<Seq<char>>) -> bool {
    forall|i: int, j: int|
        0 <= i < j < names.len() ==> name_before(#[trigger] names[i], #[trigger] names[j])
}

/// Two names that are told apart stand in one order or the other.
pub proof fn lemma_names_ordered(left: Seq<char>, right: Seq<char>)
    ensures
        left == right ==> !name_before(left, right),
        left != right ==> (name_before(left, right) <==> !name_before(right, left)),
{
    order::law_bytes_order_total(encode_utf8(left), encode_utf8(right));
    encode_utf8_decode_utf8(left);
    encode_utf8_decode_utf8(right);
}

/// The order of names is transitive.
pub proof fn lemma_names_transitive(first: Seq<char>, second: Seq<char>, third: Seq<char>)
    requires
        name_before(first, second),
        name_before(second, third),
    ensures
        name_before(first, third),
{
    order::law_bytes_order_transitive(encode_utf8(first), encode_utf8(second), encode_utf8(third));
}

/// Whether a name comes before another.
pub fn comes_before(left: &str, right: &str) -> (before: bool)
    ensures
        before == name_before(left@, right@),
{
    proof {
        order::law_bytes_order_total(encode_utf8(left@), encode_utf8(right@));
    }
    match compare_bytes(left.as_bytes(), right.as_bytes()) {
        Relation::Before => true,
        _ => false,
    }
}

impl View for SortedNames {
    type V = Seq<Seq<char>>;

    open spec fn view(&self) -> Seq<Seq<char>> {
        text::texts_view(self.names@)
    }
}

impl SortedNames {
    /// The names stand in order.
    pub open spec fn wf(self) -> bool {
        in_order(self@)
    }

    /// No names.
    pub fn new() -> (names: SortedNames)
        ensures
            names.wf(),
            names@ == Seq::<Seq<char>>::empty(),
    {
        let names = SortedNames { names: Vec::new() };
        assert(names@ =~= Seq::<Seq<char>>::empty());
        names
    }

    /// How many names there are.
    pub fn len(&self) -> (length: usize)
        ensures
            length == self@.len(),
    {
        self.names.len()
    }

    /// Whether a name is there.
    pub fn contains(&self, name: &str) -> (found: bool)
        ensures
            found == self@.contains(name@),
    {
        let ghost all = self@;
        let mut i: usize = 0;
        while i < self.names.len()
            invariant
                i <= self.names.len(),
                all == self@,
                forall|k: int| 0 <= k < i ==> #[trigger] all[k] != name@,
            decreases self.names.len() - i,
        {
            assert(all[i as int] == self.names@[i as int]@);
            if same_text(self.names[i].as_str(), name) {
                return true;
            }
            i = i + 1;
        }
        false
    }

    /// Puts a name where it belongs, unless it is there.
    pub fn insert(&mut self, name: String)
        requires
            old(self).wf(),
        ensures
            final(self).wf(),
            inserted(old(self)@, name@, final(self)@),
    {
        let ghost before = self@;
        let ghost wanted = name@;
        let mut at: usize = 0;
        while at < self.names.len() && comes_before(self.names[at].as_str(), name.as_str())
            invariant
                at <= self.names.len(),
                before == self@,
                wanted == name@,
                forall|k: int| 0 <= k < at ==> name_before(#[trigger] before[k], wanted),
            decreases self.names.len() - at,
        {
            assert(before[at as int] == self.names@[at as int]@);
            at = at + 1;
        }
        if at < self.names.len() {
            assert(before[at as int] == self.names@[at as int]@);
            if same_text(self.names[at].as_str(), name.as_str()) {
                return ;
            }
        }
        self.names.insert(at, name);
        proof {
            let after = self@;
            assert(after =~= before.insert(at as int, wanted));
            if at < before.len() {
                lemma_names_ordered(before[at as int], wanted);
            }
            assert forall|k: int| 0 <= k < before.len() implies #[trigger] before[k] != wanted by {
                lemma_names_ordered(before[k], wanted);
                if k > at {
                    assert(name_before(before[at as int], before[k]));
                    lemma_names_ordered(before[at as int], before[k]);
                }
            }
            assert forall|i: int, j: int| 0 <= i < j < after.len() implies name_before(
                #[trigger] after[i],
                #[trigger] after[j],
            ) by {
                let p = if i < at { i } else { i - 1 };
                let q = if j < at { j } else { j - 1 };
                if i == at {
                    if q > at {
                        lemma_names_transitive(wanted, before[at as int], before[q]);
                    }
                } else if j != at {
                    assert(name_before(before[p], before[q]));
                }
            }
            assert(inserted(before, wanted, after)) by {
                assert(after == before.insert(at as int, wanted));
            }
        }
    }

    /// Takes away the last name.
    pub fn pop_last(&mut self) -> (name: Option<String>)
        requires
            old(self).wf(),
        ensures
            final(self).wf(),
            match name {
                Some(name) => old(self)@.len() > 0 && name@ == old(self)@.last() && final(self)@
                    == old(self)@.drop_last(),
                None => old(self)@.len() == 0 && final(self)@ == old(self)@,
            },
    {
        let ghost before = self@;
        match self.names.pop() {
            Some(name) => {
                assert(self@ =~= before.drop_last());
                Some(name)
            },
            None => {
                assert(self@ =~= before);
                None
            },
        }
    }
}

/// Whether names are others with one more among them; the same where it was there.
pub open spec fn inserted(before: Seq<Seq<char>>, name: Seq<char>, after: Seq<Seq<char>>) -> bool {
    if before.contains(name) {
        after == before
    } else {
        exists|at: int| 0 <= at <= before.len() && after == #[trigger] before.insert(at, name)
    }
}

/// What is among names after one more was put there.
pub proof fn lemma_inserted(
    before: Seq<Seq<char>>,
    name: Seq<char>,
    after: Seq<Seq<char>>,
    other: Seq<char>,
)
    requires
        inserted(before, name, after),
    ensures
        after.contains(other) <==> before.contains(other) || other == name,
        after.len() == before.len() + (if before.contains(name) {
            0int
        } else {
            1int
        }),
{
    if !before.contains(name) {
        let at = choose|at: int| 0 <= at <= before.len() && after == #[trigger] before.insert(at, name);
        assert(after[at] == name);
        if before.contains(other) {
            let k = choose|k: int| 0 <= k < before.len() && before[k] == other;
            if k < at {
                assert(after[k] == other);
            } else {
                assert(after[k + 1] == other);
            }
        }
        if after.contains(other) && other != name {
            let k = choose|k: int| 0 <= k < after.len() && after[k] == other;
            if k < at {
                assert(before[k] == other);
            } else {
                assert(before[k - 1] == other);
            }
        }
    }
}

/// Names in order are as many as the set of them.
pub proof fn lemma_order_counts(names: Seq<Seq<char>>)
    requires
        in_order(names),
    ensures
        names.no_duplicates(),
        names.to_set().len() == names.len(),
        names.to_set().finite(),
{
    assert forall|i: int, j: int| 0 <= i < names.len() && 0 <= j < names.len() && i != j implies names[i]
        != names[j] by {
        if i < j {
            lemma_names_ordered(names[i], names[j]);
        } else {
            lemma_names_ordered(names[j], names[i]);
        }
    }
    names.unique_seq_to_set();
}

/// The set of names after one more was put among them.
pub proof fn lemma_inserted_set(before: Seq<Seq<char>>, name: Seq<char>, after: Seq<Seq<char>>)
    requires
        inserted(before, name, after),
    ensures
        after.to_set() == before.to_set().insert(name),
{
    assert forall|other: Seq<char>| after.to_set().contains(other) <==> before.to_set().insert(
        name,
    ).contains(other) by {
        lemma_inserted(before, name, after, other);
    }
    assert(after.to_set() =~= before.to_set().insert(name));
}

/// Names in order with the same members are the same.
pub proof fn lemma_order_unique(left: Seq<Seq<char>>, right: Seq<Seq<char>>)
    requires
        in_order(left),
        in_order(right),
        forall|name: Seq<char>| left.contains(name) <==> right.contains(name),
    ensures
        left == right,
    decreases left.len(),
{
    if left.len() == 0 {
        if right.len() > 0 {
            assert(right.contains(right[0]));
        }
        assert(left =~= right);
    } else if right.len() == 0 {
        assert(left.contains(left[0]));
    } else {
        let l = left.last();
        let r = right.last();
        assert(left.contains(l));
        assert(right.contains(r));
        lemma_last_is_greatest(left, r);
        lemma_last_is_greatest(right, l);
        lemma_names_ordered(l, r);
        assert(l == r);
        let left_rest = left.drop_last();
        let right_rest = right.drop_last();
        assert forall|name: Seq<char>| left_rest.contains(name) <==> right_rest.contains(name) by {
            lemma_without_last(left, name);
            lemma_without_last(right, name);
        }
        lemma_order_unique(left_rest, right_rest);
        assert(left =~= left_rest.push(l));
        assert(right =~= right_rest.push(r));
    }
}

/// No name in order comes behind the last.
pub proof fn lemma_last_is_greatest(names: Seq<Seq<char>>, name: Seq<char>)
    requires
        in_order(names),
        names.contains(name),
    ensures
        name == names.last() || name_before(name, names.last()),
{
    let k = choose|k: int| 0 <= k < names.len() && names[k] == name;
    if k < names.len() - 1 {
        assert(name_before(names[k], names[names.len() - 1]));
    }
}

proof fn lemma_without_last(names: Seq<Seq<char>>, name: Seq<char>)
    requires
        in_order(names),
        names.len() > 0,
    ensures
        names.drop_last().contains(name) <==> names.contains(name) && name != names.last(),
{
    let rest = names.drop_last();
    if rest.contains(name) {
        let k = choose|k: int| 0 <= k < rest.len() && rest[k] == name;
        assert(names[k] == name);
        assert(name_before(names[k], names[names.len() - 1]));
        lemma_names_ordered(name, names.last());
    }
    if names.contains(name) && name != names.last() {
        let k = choose|k: int| 0 <= k < names.len() && names[k] == name;
        assert(rest[k] == name);
    }
}

} // verus!
