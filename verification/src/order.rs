//! The order of byte strings: the first differing byte decides, and a proper
//! prefix comes first.

use vstd::prelude::*;

verus! {

/// How one value stands to another in their order.
#[derive(Clone, Copy, Debug, PartialEq, Eq, Structural)]
pub enum Relation {
    Before,
    Same,
    After,
}

/// Whether one byte string comes before another.
pub open spec fn bytes_before(left: Seq<u8>, right: Seq<u8>) -> bool
    decreases left.len(),
{
    if right.len() == 0 {
        false
    } else if left.len() == 0 {
        true
    } else if left[0] != right[0] {
        left[0] < right[0]
    } else {
        bytes_before(left.skip(1), right.skip(1))
    }
}

/// How one byte string stands to another.
pub open spec fn bytes_relation(left: Seq<u8>, right: Seq<u8>) -> Relation {
    if left == right {
        Relation::Same
    } else if bytes_before(left, right) {
        Relation::Before
    } else {
        Relation::After
    }
}

/// What lies behind a common prefix decides the order.
pub proof fn lemma_common_prefix(left: Seq<u8>, right: Seq<u8>, count: int)
    requires
        0 <= count <= left.len(),
        count <= right.len(),
        forall|i: int| 0 <= i < count ==> left[i] == right[i],
    ensures
        bytes_before(left, right) == bytes_before(left.skip(count), right.skip(count)),
    decreases count,
{
    if count > 0 {
        assert forall|i: int| 0 <= i < count - 1 implies left.skip(1)[i] == right.skip(1)[i] by {
            assert(left[i + 1] == right[i + 1]);
        }
        lemma_common_prefix(left.skip(1), right.skip(1), count - 1);
        assert(left.skip(1).skip(count - 1) =~= left.skip(count));
        assert(right.skip(1).skip(count - 1) =~= right.skip(count));
    } else {
        assert(left.skip(0) =~= left);
        assert(right.skip(0) =~= right);
    }
}

/// Nothing comes before itself, and of two different byte strings exactly one
/// comes before the other.
pub proof fn law_bytes_order_total(left: Seq<u8>, right: Seq<u8>)
    ensures
        left == right ==> !bytes_before(left, right),
        left != right ==> (bytes_before(left, right) <==> !bytes_before(right, left)),
    decreases left.len(),
{
    if left.len() > 0 && right.len() > 0 {
        law_bytes_order_total(left.skip(1), right.skip(1));
        if left[0] == right[0] && left.skip(1) == right.skip(1) {
            assert forall|i: int| 0 <= i < left.len() implies left[i] == right[i] by {
                if i > 0 {
                    assert(left.skip(1)[i - 1] == right.skip(1)[i - 1]);
                }
            }
            assert(left.len() == left.skip(1).len() + 1);
            assert(right.len() == right.skip(1).len() + 1);
            assert(left =~= right);
        }
    } else if left.len() == 0 && right.len() == 0 {
        assert(left =~= right);
    }
}

/// What comes before a byte string comes before everything that follows it.
pub proof fn law_bytes_order_transitive(first: Seq<u8>, second: Seq<u8>, third: Seq<u8>)
    requires
        bytes_before(first, second),
        bytes_before(second, third),
    ensures
        bytes_before(first, third),
    decreases first.len(),
{
    if first.len() > 0 && second.len() > 0 && third.len() > 0 {
        if first[0] == second[0] && second[0] == third[0] {
            law_bytes_order_transitive(first.skip(1), second.skip(1), third.skip(1));
        }
    }
}

/// Compares two byte strings.
pub fn compare_bytes(left: &[u8], right: &[u8]) -> (relation: Relation)
    ensures
        relation == bytes_relation(left@, right@),
{
    let mut i: usize = 0;
    while i < left.len() && i < right.len()
        invariant
            i <= left.len(),
            i <= right.len(),
            forall|j: int| 0 <= j < i ==> left@[j] == right@[j],
        decreases left.len() - i,
    {
        if left[i] != right[i] {
            proof {
                lemma_common_prefix(left@, right@, i as int);
                assert(left@.skip(i as int)[0] == left@[i as int]);
                assert(right@.skip(i as int)[0] == right@[i as int]);
            }
            return if left[i] < right[i] {
                Relation::Before
            } else {
                Relation::After
            };
        }
        i = i + 1;
    }
    proof {
        lemma_common_prefix(left@, right@, i as int);
    }
    if left.len() == right.len() {
        assert(left@ =~= right@);
        Relation::Same
    } else if i == left.len() {
        Relation::Before
    } else {
        Relation::After
    }
}

} // verus!
