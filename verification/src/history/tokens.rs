//! Tokens for the identifiers of an event stream: equal identifiers get equal
//! tokens, different ones different tokens.

use crate::error::{protocol, ErrorModel, RuntimeError};
use crate::error;
use crate::history::external_sort::{sort_run, SortRecord};
use crate::history::external_sort;
use crate::history::identifiers::{identifier_kind_byte, identifier_namespace, same_event_identifier_primary, EventIdentifierRecord, EventStateIdentifierKind};
use crate::history::identifiers;
use crate::history::search::IndexSearch;
use crate::history::search;
use crate::history::work::WorkBudget;
use crate::history::work;
use crate::order::{compare_bytes, Relation};
use crate::order;
use crate::text::{hex_text, join2, same_bytes};
use crate::text;
use crate::wire::u64_be_bytes;
use crate::wire;
use vstd::prelude::*;
use vstd::utf8::*;

verus! {

/// The token of the identifier of a kind that the event at an offset holds.
#[derive(Clone, Copy, Debug, PartialEq, Eq, Structural)]
pub struct IdentifierTokenLocation {
    pub offset: u32,
    pub token: u32,
    pub kind: EventStateIdentifierKind,
}

/// The number by which locations are ordered: the offset, then the kind.
pub open spec fn location_key(offset: nat, kind: EventStateIdentifierKind) -> nat {
    offset * 16 + identifiers::kind_byte(kind) as nat
}

impl SortRecord for IdentifierTokenLocation {
    open spec fn sortable(&self) -> bool {
        true
    }

    open spec fn sort_key(&self) -> Seq<u8> {
        wire::be_bytes(location_key(self.offset as nat, self.kind))
    }

    fn relate(&self, other: &Self) -> (relation: Relation) {
        let left = u64_be_bytes(location_number(self.offset, self.kind));
        let right = u64_be_bytes(location_number(other.offset, other.kind));
        compare_bytes(left.as_slice(), right.as_slice())
    }
}

fn location_number(offset: u32, kind: EventStateIdentifierKind) -> (key: u64)
    ensures
        key == location_key(offset as nat, kind),
{
    offset as u64 * 16 + identifier_kind_byte(kind) as u64
}

/// What is wrong with an offset that a location is to hold.
pub open spec fn location_failure(offset: u64) -> Option<ErrorModel> {
    if offset > u32::MAX {
        error::protocol_failure("event identifier mapping offset overflow"@)
    } else {
        None
    }
}

impl IdentifierTokenLocation {
    /// A location with its token.
    pub fn new(offset: u64, kind: EventStateIdentifierKind, token: u32) -> (result: Result<
        IdentifierTokenLocation,
        RuntimeError,
    >)
        ensures
            error::failure(result) == location_failure(offset),
            result matches Ok(location) ==> location.offset == offset && location.kind == kind
                && location.token == token,
    {
        if offset > u32::MAX as u64 {
            return Err(protocol("event identifier mapping offset overflow"));
        }
        Ok(IdentifierTokenLocation { offset: offset as u32, token, kind })
    }
}

/// Locations with one key are at one offset and of one kind.
pub proof fn law_location_keys(
    left: IdentifierTokenLocation,
    right: IdentifierTokenLocation,
)
    requires
        left.sort_key() == right.sort_key(),
    ensures
        left.offset == right.offset,
        left.kind == right.kind,
{
    let a = location_key(left.offset as nat, left.kind);
    let b = location_key(right.offset as nat, right.kind);
    wire::law_le_round_trip(a as u64);
    wire::law_le_round_trip(b as u64);
    assert(wire::le_bytes(a) == wire::le_bytes(b));
    assert(a == b);
}

/// The keys of some locations.
pub open spec fn location_keys(tokens: Seq<IdentifierTokenLocation>) -> Seq<Seq<u8>> {
    tokens.map_values(|location: IdentifierTokenLocation| location.sort_key())
}

/// What is wrong with looking up the token of an identifier.
pub open spec fn token_failure(
    tokens: Seq<IdentifierTokenLocation>,
    offset: u64,
    kind: EventStateIdentifierKind,
) -> Option<ErrorModel> {
    if offset > u32::MAX {
        location_failure(offset)
    } else if token_position(tokens, offset, kind) is None {
        error::protocol_failure("event identifier token mapping is incomplete"@)
    } else {
        None
    }
}

/// Where the location of an identifier stands among sorted ones.
pub open spec fn token_position(
    tokens: Seq<IdentifierTokenLocation>,
    offset: u64,
    kind: EventStateIdentifierKind,
) -> Option<int> {
    search::search(
        location_keys(tokens),
        wire::be_bytes(location_key(offset as nat, kind)),
        0,
        tokens.len() as int,
    ).1
}

/// The text that stands for an identifier of the event at an offset.
pub fn event_identifier_token(
    tokens: &Vec<IdentifierTokenLocation>,
    offset: u64,
    kind: EventStateIdentifierKind,
) -> (result: Result<String, RuntimeError>)
    ensures
        error::failure(result) == token_failure(tokens@, offset, kind),
        result matches Ok(text) ==> token_position(tokens@, offset, kind) matches Some(position)
            && 0 <= position < tokens@.len() && text@ == "i"@ + text::positional(
            tokens@[position].token as nat,
            16,
        ),
{
    let wanted = IdentifierTokenLocation::new(offset, kind, 0)?;
    let key = u64_be_bytes(location_number(wanted.offset, kind));
    let ghost keys = location_keys(tokens@);
    let mut range = IndexSearch::start(tokens.len() as u64);
    loop
        invariant
            keys == location_keys(tokens@),
            key@ == wire::be_bytes(location_key(offset as nat, kind)),
            offset <= u32::MAX,
            range.low <= range.high <= tokens.len(),
            token_position(tokens@, offset, kind) == search::search(
                keys,
                key@,
                range.low as int,
                range.high as int,
            ).1,
        decreases range.high - range.low,
    {
        match range.probe() {
            None => {
                return Err(protocol("event identifier token mapping is incomplete"));
            },
            Some(middle) => {
                let position: usize = middle as usize;
                assert(keys[position as int] == tokens@[position as int].sort_key());
                let found = u64_be_bytes(
                    location_number(tokens[position].offset, tokens[position].kind),
                );
                let relation = compare_bytes(found.as_slice(), key.as_slice());
                if range.narrow(middle, relation) {
                    let token = hex_text(tokens[position].token as u64);
                    return Ok(join2("i", token.as_str()));
                }
            },
        }
    }
}

/// Among sorted locations every identifier that has one gets its token.
pub proof fn law_token_lookup(tokens: Seq<IdentifierTokenLocation>, index: int)
    requires
        external_sort::ordered(tokens, false),
        0 <= index < tokens.len(),
        forall|i: int, j: int|
            #![trigger tokens[i], tokens[j]]
            0 <= i < j < tokens.len() ==> tokens[i].sort_key() != tokens[j].sort_key(),
    ensures
        token_failure(tokens, tokens[index].offset as u64, tokens[index].kind) is None,
        token_position(tokens, tokens[index].offset as u64, tokens[index].kind) == Some(index),
{
    let keys = location_keys(tokens);
    let key = tokens[index].sort_key();
    assert(keys[index] == key);
    assert(search::ids_sorted(keys)) by {
        assert forall|i: int, j: int|
            #![trigger keys[i], keys[j]]
            0 <= i < j < keys.len() implies !order::bytes_before(keys[j], keys[i]) by {
            assert(external_sort::in_order(tokens[i], tokens[j], false));
        }
    }
    search::law_search_finds(keys, key, 0, keys.len() as int);
    let position = token_position(tokens, tokens[index].offset as u64, tokens[index].kind)->0;
    assert(keys[position] == tokens[position].sort_key());
}

/// A record of a group and the token it gets.
#[derive(Clone, Copy, Debug, PartialEq, Eq, Structural)]
pub struct GroupToken {
    pub position: usize,
    pub token: u32,
}

/// The bytes of some texts.
pub open spec fn text_bytes(values: Seq<String>) -> Seq<Seq<u8>> {
    values.map_values(|value: String| encode_utf8(value@))
}

/// Whether some byte strings are all different.
pub open spec fn all_different(values: Seq<Seq<u8>>) -> bool {
    forall|i: int, j: int|
        #![trigger values[i], values[j]]
        0 <= i < j < values.len() ==> values[i] != values[j]
}

/// The tokens of a group: every record gets one, records are listed by value, and
/// the token goes up by one wherever the value changes.
pub open spec fn group_assignment(
    values: Seq<Seq<u8>>,
    assigned: Seq<GroupToken>,
    first: u32,
) -> bool {
    &&& assigned.len() == values.len()
    &&& forall|k: int| 0 <= k < assigned.len() ==> (#[trigger] assigned[k]).position < values.len()
    &&& forall|i: int, j: int|
        #![trigger assigned[i], assigned[j]]
        0 <= i < j < assigned.len() ==> assigned[i].position != assigned[j].position
    &&& assigned.len() > 0 ==> assigned[0].token == first
    &&& forall|k: int|
        #![trigger assigned[k]]
        1 <= k < assigned.len() ==> {
            let before = values[assigned[k - 1].position as int];
            let value = values[assigned[k].position as int];
            &&& !order::bytes_before(value, before)
            &&& assigned[k].token == assigned[k - 1].token + (if before == value {
                0int
            } else {
                1int
            })
        }
}

/// A value and where it stands in its group.
struct ValueAt {
    value: Vec<u8>,
    position: usize,
}

impl SortRecord for ValueAt {
    closed spec fn sortable(&self) -> bool {
        true
    }

    closed spec fn sort_key(&self) -> Seq<u8> {
        self.value@
    }

    fn relate(&self, other: &Self) -> (relation: Relation) {
        compare_bytes(self.value.as_slice(), other.value.as_slice())
    }
}

fn values_with_positions(values: &Vec<String>) -> (items: Vec<ValueAt>)
    ensures
        items@.len() == values@.len(),
        forall|i: int|
            0 <= i < items@.len() ==> (#[trigger] items@[i]).position == i && items@[i].value@
                == encode_utf8(values@[i]@),
{
    let mut items: Vec<ValueAt> = Vec::new();
    let mut i: usize = 0;
    while i < values.len()
        invariant
            i <= values.len(),
            items@.len() == i,
            forall|k: int|
                0 <= k < items@.len() ==> (#[trigger] items@[k]).position == k && items@[k].value@
                    == encode_utf8(values@[k]@),
        decreases values.len() - i,
    {
        let value = vstd::slice::slice_to_vec(values[i].as_str().as_bytes());
        items.push(ValueAt { value, position: i });
        i = i + 1;
    }
    items
}

/// Gives the records of a group, which share a namespace and a digest, their
/// tokens. With `unique` the group must not hold a value twice.
pub fn assign_event_identifier_group(
    values: &Vec<String>,
    unique: bool,
    next_token: &mut u32,
    work: &mut WorkBudget,
) -> (result: Result<Vec<GroupToken>, RuntimeError>)
    requires
        values@.len() > 0,
    ensures
        result matches Ok(assigned) ==> {
            &&& group_assignment(text_bytes(values@), assigned@, *old(next_token))
            &&& *final(next_token) == assigned@.last().token + 1
            &&& unique ==> all_different(text_bytes(values@))
        },
        (unique ==> all_different(text_bytes(values@))) && *old(next_token) + values@.len()
            <= u32::MAX && old(work).used + 2 * values@.len() + external_sort::comparison_bound(values@.len())
            <= old(work).limit ==> result is Ok,
        result matches Err(error) ==> {
            ||| unique && !all_different(text_bytes(values@)) && error@ == ErrorModel::Protocol(
                "event stream must use unique event_id values"@,
            )
            ||| *old(next_token) + values@.len() > u32::MAX && error@ == ErrorModel::Protocol(
                "event identifier token overflow"@,
            )
            ||| old(work).used + 2 * values@.len() + external_sort::comparison_bound(values@.len())
                > old(work).limit && (error@ == ErrorModel::Protocol(
                "conversation history work count overflow"@,
            ) || error@ == ErrorModel::Protocol(
                "conversation history exceeds its O(n log n) work budget"@,
            ))
        },
        final(work).limit == old(work).limit,
        old(work).used <= final(work).used <= old(work).used + 2 * values@.len()
            + external_sort::comparison_bound(values@.len()),
{
    let ghost bytes = text_bytes(values@);
    let mut collision = false;
    let mut i: usize = 1;
    while i < values.len() && !collision
        invariant
            1 <= i <= values.len(),
            bytes == text_bytes(values@),
            bytes.len() == values@.len(),
            work.limit == old(work).limit,
            old(work).used <= work.used <= old(work).used + (i - 1),
            !collision ==> forall|k: int| 0 <= k < i ==> #[trigger] bytes[k] == bytes[0],
            *next_token == *old(next_token),
        decreases values.len() - i,
    {
        work.add(1)?;
        if !same_bytes(values[i].as_str().as_bytes(), values[0].as_str().as_bytes()) {
            collision = true;
        } else {
            assert(bytes[i as int] == encode_utf8(values@[i as int]@));
            assert(bytes[0] == encode_utf8(values@[0]@));
        }
        i = i + 1;
    }
    let ghost checked = *work;
    if !collision {
        if values.len() > 1 && unique {
            assert(bytes[0] == bytes[1]);
            return Err(protocol("event stream must use unique event_id values"));
        }
        let token = *next_token;
        match next_token.checked_add(1) {
            None => {
                return Err(protocol("event identifier token overflow"));
            },
            Some(next) => {
                *next_token = next;
            },
        }
        let mut assigned: Vec<GroupToken> = Vec::new();
        let mut k: usize = 0;
        while k < values.len()
            invariant
                k <= values.len(),
                assigned@.len() == k,
                forall|j: int|
                    0 <= j < k ==> (#[trigger] assigned@[j]).position == j && assigned@[j].token
                        == token,
            decreases values.len() - k,
        {
            assigned.push(GroupToken { position: k, token });
            k = k + 1;
        }
        proof {
            assert forall|j: int|
                #![trigger assigned@[j]]
                1 <= j < assigned@.len() implies {
                let before = bytes[assigned@[j - 1].position as int];
                let value = bytes[assigned@[j].position as int];
                &&& !order::bytes_before(value, before)
                &&& assigned@[j].token == assigned@[j - 1].token + (if before == value {
                    0int
                } else {
                    1int
                })
            } by {
                assert(bytes[j] == bytes[0] && bytes[j - 1] == bytes[0]);
                order::law_bytes_order_total(bytes[0], bytes[0]);
            }
        }
        return Ok(assigned);
    }
    let mut items = values_with_positions(values);
    let ghost start = items@;
    sort_run(&mut items, work)?;
    let ghost sorted = items@;
    proof {
        lemma_sorted_items(start, sorted, bytes);
    }
    let mut assigned: Vec<GroupToken> = Vec::new();
    let mut token: u32 = 0;
    let mut k: usize = 0;
    let ghost after_sort = *work;
    while k < items.len()
        invariant
            k <= items.len(),
            items@ == sorted,
            sorted.len() == values@.len(),
            bytes == text_bytes(values@),
            sorted.len() == bytes.len(),
            external_sort::ordered(sorted, false),
            forall|j: int|
                0 <= j < sorted.len() ==> (#[trigger] sorted[j]).position < bytes.len()
                    && sorted[j].value@ == bytes[sorted[j].position as int],
            forall|a: int, b: int|
                #![trigger sorted[a], sorted[b]]
                0 <= a < b < sorted.len() ==> sorted[a].position != sorted[b].position,
            assigned@.len() == k,
            forall|j: int|
                0 <= j < k ==> (#[trigger] assigned@[j]).position == sorted[j].position,
            k > 0 ==> assigned@[0].token == *old(next_token) && assigned@[k - 1].token == token
                && *next_token == token + 1,
            k == 0 ==> *next_token == *old(next_token),
            forall|j: int|
                #![trigger assigned@[j]]
                1 <= j < k ==> {
                    let before = bytes[assigned@[j - 1].position as int];
                    let value = bytes[assigned@[j].position as int];
                    &&& !order::bytes_before(value, before)
                    &&& assigned@[j].token == assigned@[j - 1].token + (if before == value {
                        0int
                    } else {
                        1int
                    })
                },
            *next_token <= *old(next_token) + k,
            unique ==> forall|j: int|
                #![trigger sorted[j]]
                1 <= j < k ==> sorted[j].value@ != sorted[j - 1].value@,
            work.limit == old(work).limit,
            old(work).used <= work.used <= old(work).used + (values@.len() - 1) + external_sort::comparison_bound(
                values@.len(),
            ) + k,
        decreases items.len() - k,
    {
        let mut equal = false;
        if k > 0 {
            work.add(1)?;
            assert(external_sort::in_order(sorted[k - 1], sorted[k as int], false));
            equal = same_bytes(items[k - 1].value.as_slice(), items[k].value.as_slice());
        }
        if !equal {
            token = *next_token;
            match next_token.checked_add(1) {
                None => {
                    return Err(protocol("event identifier token overflow"));
                },
                Some(next) => {
                    *next_token = next;
                },
            }
        } else if unique {
            proof {
                let a = sorted[k - 1].position as int;
                let b = sorted[k as int].position as int;
                assert(bytes[a] == bytes[b]);
            }
            return Err(protocol("event stream must use unique event_id values"));
        }
        assert(sorted[k as int].position < bytes.len());
        assigned.push(GroupToken { position: items[k].position, token });
        k = k + 1;
    }
    proof {
        if unique {
            lemma_sorted_all_different(sorted, bytes);
        }
    }
    Ok(assigned)
}

proof fn lemma_sorted_items(start: Seq<ValueAt>, sorted: Seq<ValueAt>, bytes: Seq<Seq<u8>>)
    requires
        start.to_multiset() == sorted.to_multiset(),
        start.len() == bytes.len(),
        forall|i: int|
            0 <= i < start.len() ==> (#[trigger] start[i]).position == i && start[i].value@
                == bytes[i],
    ensures
        sorted.len() == bytes.len(),
        forall|j: int|
            0 <= j < sorted.len() ==> (#[trigger] sorted[j]).position < bytes.len()
                && sorted[j].value@ == bytes[sorted[j].position as int],
        forall|a: int, b: int|
            #![trigger sorted[a], sorted[b]]
            0 <= a < b < sorted.len() ==> sorted[a].position != sorted[b].position,
{
    broadcast use vstd::seq_lib::group_to_multiset_ensures;

    assert(start.len() == start.to_multiset().len());
    assert(sorted.len() == sorted.to_multiset().len());
    assert forall|j: int| 0 <= j < sorted.len() implies (#[trigger] sorted[j]).position < bytes.len()
        && sorted[j].value@ == bytes[sorted[j].position as int] && start.contains(sorted[j]) by {
        assert(sorted.contains(sorted[j]));
        assert(sorted.to_multiset().count(sorted[j]) > 0);
        assert(start.contains(sorted[j]));
        let i = choose|i: int| 0 <= i < start.len() && start[i] == sorted[j];
        assert(start[i].position == i);
    }
    assert(start.no_duplicates()) by {
        assert forall|i: int, j: int|
            0 <= i < start.len() && 0 <= j < start.len() && i != j implies start[i] != start[j] by {
            assert(start[i].position == i && start[j].position == j);
        }
    }
    start.lemma_multiset_has_no_duplicates();
    sorted.lemma_multiset_has_no_duplicates_conv();
    assert forall|a: int, b: int|
        #![trigger sorted[a], sorted[b]]
        0 <= a < b < sorted.len() implies sorted[a].position != sorted[b].position by {
        let i = choose|i: int| 0 <= i < start.len() && start[i] == sorted[a];
        let j = choose|j: int| 0 <= j < start.len() && start[j] == sorted[b];
        assert(start[i].position == i && start[j].position == j);
        if i == j {
            assert(sorted[a] == sorted[b]);
        }
    }
}

proof fn lemma_sorted_all_different(sorted: Seq<ValueAt>, bytes: Seq<Seq<u8>>)
    requires
        external_sort::ordered(sorted, false),
        sorted.len() == bytes.len(),
        forall|j: int|
            #![trigger sorted[j]]
            1 <= j < sorted.len() ==> sorted[j].value@ != sorted[j - 1].value@,
        forall|j: int|
            0 <= j < sorted.len() ==> (#[trigger] sorted[j]).position < bytes.len()
                && sorted[j].value@ == bytes[sorted[j].position as int],
        forall|a: int, b: int|
            #![trigger sorted[a], sorted[b]]
            0 <= a < b < sorted.len() ==> sorted[a].position != sorted[b].position,
    ensures
        all_different(bytes),
{
    assert forall|i: int, j: int|
        #![trigger bytes[i], bytes[j]]
        0 <= i < j < bytes.len() implies bytes[i] != bytes[j] by {
        lemma_position_occurs(sorted, bytes.len() as int, i);
        lemma_position_occurs(sorted, bytes.len() as int, j);
        let a = choose|a: int| 0 <= a < sorted.len() && (#[trigger] sorted[a]).position == i;
        let b = choose|b: int| 0 <= b < sorted.len() && (#[trigger] sorted[b]).position == j;
        if a < b {
            lemma_values_rise(sorted, a, b);
        } else {
            lemma_values_rise(sorted, b, a);
        }
        order::law_bytes_order_total(sorted[a].value@, sorted[b].value@);
    }
}

proof fn lemma_values_rise(sorted: Seq<ValueAt>, a: int, b: int)
    requires
        external_sort::ordered(sorted, false),
        forall|j: int|
            #![trigger sorted[j]]
            1 <= j < sorted.len() ==> sorted[j].value@ != sorted[j - 1].value@,
        0 <= a < b < sorted.len(),
    ensures
        order::bytes_before(sorted[a].value@, sorted[b].value@),
    decreases b - a,
{
    assert(external_sort::in_order(sorted[b - 1], sorted[b], false));
    order::law_bytes_order_total(sorted[b - 1].value@, sorted[b].value@);
    if a < b - 1 {
        lemma_values_rise(sorted, a, b - 1);
        order::law_bytes_order_transitive(sorted[a].value@, sorted[b - 1].value@, sorted[b].value@);
    }
}

/// As many different positions as there are positions: each of them occurs.
proof fn lemma_position_occurs(sorted: Seq<ValueAt>, count: int, position: int)
    requires
        sorted.len() == count,
        forall|j: int| 0 <= j < sorted.len() ==> (#[trigger] sorted[j]).position < count,
        forall|a: int, b: int|
            #![trigger sorted[a], sorted[b]]
            0 <= a < b < sorted.len() ==> sorted[a].position != sorted[b].position,
        0 <= position < count,
    ensures
        exists|a: int| 0 <= a < sorted.len() && (#[trigger] sorted[a]).position == position,
{
    let positions = Seq::new(sorted.len(), |i: int| sorted[i].position as int);
    assert(positions.no_duplicates());
    positions.unique_seq_to_set();
    let all = vstd::set_lib::set_int_range(0, count);
    vstd::set_lib::lemma_int_range(0, count);
    assert(positions.to_set().subset_of(all));
    if !positions.to_set().contains(position) {
        assert(positions.to_set().subset_of(all.remove(position)));
        vstd::set_lib::lemma_len_subset(positions.to_set(), all.remove(position));
        assert(false);
    }
    let a = choose|a: int| 0 <= a < positions.len() && positions[a] == position;
    assert(sorted[a].position == position);
}

/// Records that are read in order, gathered while they share a namespace and a digest.
pub struct IdentifierGroups {
    pub group: Vec<EventIdentifierRecord>,
}

impl IdentifierGroups {
    /// Whether the records that are gathered share a namespace and a digest.
    pub open spec fn wf(self) -> bool {
        forall|i: int|
            0 <= i < self.group@.len() ==> (#[trigger] self.group@[i]).sort_key()
                == self.group@[0].sort_key()
    }

    /// No record is gathered.
    pub fn new() -> (groups: IdentifierGroups)
        ensures
            groups.wf(),
            groups.group@.len() == 0,
    {
        IdentifierGroups { group: Vec::new() }
    }

    /// Takes the next record. Gives the group that it ends, where it belongs to another.
    pub fn observe(&mut self, record: EventIdentifierRecord) -> (finished: Option<
        Vec<EventIdentifierRecord>,
    >)
        requires
            old(self).wf(),
        ensures
            final(self).wf(),
            old(self).group@.len() == 0 || old(self).group@[0].sort_key() == record.sort_key()
                ==> finished is None && final(self).group@ == old(self).group@.push(record),
            old(self).group@.len() > 0 && old(self).group@[0].sort_key() != record.sort_key()
                ==> {
                &&& finished is Some
                &&& finished->0@ == old(self).group@
                &&& final(self).group@ == seq![record]
            },
    {
        if self.group.len() > 0 && !same_event_identifier_primary(&self.group[0], &record) {
            let mut ended: Vec<EventIdentifierRecord> = Vec::new();
            ended.push(record);
            std::mem::swap(&mut ended, &mut self.group);
            assert(self.group@ =~= seq![record]);
            return Some(ended);
        }
        self.group.push(record);
        None
    }

    /// The last group, where a record was read.
    pub fn finish(self) -> (finished: Option<Vec<EventIdentifierRecord>>)
        ensures
            finished is Some <==> self.group@.len() > 0,
            finished matches Some(group) ==> group@ == self.group@,
    {
        if self.group.len() > 0 {
            Some(self.group)
        } else {
            None
        }
    }
}

/// The locations that the tokens of a group are for.
pub open spec fn located(
    group: Seq<EventIdentifierRecord>,
    assigned: Seq<GroupToken>,
) -> Seq<IdentifierTokenLocation> {
    Seq::new(
        assigned.len(),
        |k: int|
            IdentifierTokenLocation {
                offset: group[assigned[k].position as int].offset as u32,
                token: assigned[k].token,
                kind: group[assigned[k].position as int].kind,
            },
    )
}

/// Whether a group is of identifiers that no two events share.
pub open spec fn of_events(group: Seq<EventIdentifierRecord>) -> bool {
    identifiers::kind_namespace(group[0].kind) == identifiers::kind_namespace(
        EventStateIdentifierKind::Event,
    )
}

/// Adds the locations of a group with their tokens. `values` are the identifiers that the
/// records of the group stand for.
pub fn assign_event_identifier_tokens(
    group: &Vec<EventIdentifierRecord>,
    values: &Vec<String>,
    tokens: &mut Vec<IdentifierTokenLocation>,
    next_token: &mut u32,
    work: &mut WorkBudget,
) -> (result: Result<(), RuntimeError>)
    requires
        group@.len() == values@.len(),
        group@.len() > 0,
    ensures
        result is Ok ==> {
            &&& of_events(group@) ==> all_different(text_bytes(values@))
            &&& forall|k: int|
                0 <= k < group@.len() ==> location_failure((#[trigger] group@[k]).offset) is None
            &&& exists|assigned: Seq<GroupToken>|
                {
                    &&& #[trigger] group_assignment(
                        text_bytes(values@),
                        assigned,
                        *old(next_token),
                    )
                    &&& final(tokens)@ == old(tokens)@ + located(group@, assigned)
                    &&& *final(next_token) == assigned.last().token + 1
                }
        },
        (of_events(group@) ==> all_different(text_bytes(values@))) && *old(next_token)
            + values@.len() <= u32::MAX && old(work).used + 2 * values@.len()
            + external_sort::comparison_bound(values@.len()) <= old(work).limit && (forall|k: int|
            0 <= k < group@.len() ==> location_failure((#[trigger] group@[k]).offset) is None)
            ==> result is Ok,
        result matches Err(error) ==> {
            ||| of_events(group@) && !all_different(text_bytes(values@)) && error@
                == ErrorModel::Protocol("event stream must use unique event_id values"@)
            ||| *old(next_token) + values@.len() > u32::MAX && error@ == ErrorModel::Protocol(
                "event identifier token overflow"@,
            )
            ||| old(work).used + 2 * values@.len() + external_sort::comparison_bound(values@.len())
                > old(work).limit && (error@ == ErrorModel::Protocol(
                "conversation history work count overflow"@,
            ) || error@ == ErrorModel::Protocol(
                "conversation history exceeds its O(n log n) work budget"@,
            ))
            ||| exists|k: int|
                0 <= k < group@.len() && location_failure((#[trigger] group@[k]).offset) == Some(
                    error@,
                )
        },
        final(work).limit == old(work).limit,
        old(work).used <= final(work).used <= old(work).used + 2 * values@.len()
            + external_sort::comparison_bound(values@.len()),
{
    let unique = identifier_namespace(group[0].kind) == identifier_namespace(
        EventStateIdentifierKind::Event,
    );
    let assigned = assign_event_identifier_group(values, unique, next_token, work)?;
    let ghost before = tokens@;
    let ghost bytes = text_bytes(values@);
    let mut k: usize = 0;
    while k < assigned.len()
        invariant
            k <= assigned.len(),
            group@.len() == values@.len(),
            bytes == text_bytes(values@),
            group_assignment(bytes, assigned@, *old(next_token)),
            tokens@ == before + located(group@, assigned@).take(k as int),
            before == old(tokens)@,
            forall|j: int|
                0 <= j < k ==> location_failure(
                    group@[(#[trigger] assigned@[j]).position as int].offset,
                ) is None,
            work.limit == old(work).limit,
            old(work).used <= work.used <= old(work).used + 2 * values@.len()
                + external_sort::comparison_bound(values@.len()),
        decreases assigned.len() - k,
    {
        let position = assigned[k].position;
        assert(position < bytes.len());
        let record = group[position];
        match IdentifierTokenLocation::new(record.offset, record.kind, assigned[k].token) {
            Ok(location) => {
                tokens.push(location);
                assert(located(group@, assigned@).take(k + 1) =~= located(group@, assigned@).take(
                    k as int,
                ).push(location));
            },
            Err(error) => {
                assert(location_failure(group@[position as int].offset) == Some(error@));
                return Err(error);
            },
        }
        k = k + 1;
    }
    proof {
        assert(located(group@, assigned@).take(k as int) =~= located(group@, assigned@));
        assert forall|i: int| 0 <= i < group@.len() implies location_failure(
            (#[trigger] group@[i]).offset,
        ) is None by {
            lemma_every_position_assigned(assigned@, bytes, *old(next_token), i);
            let j = choose|j: int| 0 <= j < assigned@.len() && (#[trigger] assigned@[j]).position
                == i;
            assert(location_failure(group@[assigned@[j].position as int].offset) is None);
        }
        assert(group_assignment(text_bytes(values@), assigned@, *old(next_token)));
    }
    Ok(())
}

proof fn lemma_every_position_assigned(
    assigned: Seq<GroupToken>,
    values: Seq<Seq<u8>>,
    first: u32,
    position: int,
)
    requires
        group_assignment(values, assigned, first),
        0 <= position < values.len(),
    ensures
        exists|a: int| 0 <= a < assigned.len() && (#[trigger] assigned[a]).position == position,
{
    let count = values.len() as int;
    let positions = Seq::new(assigned.len(), |i: int| assigned[i].position as int);
    assert forall|i: int, j: int| 0 <= i < positions.len() && 0 <= j < positions.len() && i
        != j implies positions[i] != positions[j] by {
        if i < j {
            assert(assigned[i].position != assigned[j].position);
        } else {
            assert(assigned[j].position != assigned[i].position);
        }
    }
    assert(positions.no_duplicates());
    positions.unique_seq_to_set();
    let all = vstd::set_lib::set_int_range(0, count);
    vstd::set_lib::lemma_int_range(0, count);
    assert(positions.to_set().subset_of(all));
    if !positions.to_set().contains(position) {
        assert(positions.to_set().subset_of(all.remove(position)));
        vstd::set_lib::lemma_len_subset(positions.to_set(), all.remove(position));
        assert(false);
    }
    let a = choose|a: int| 0 <= a < positions.len() && positions[a] == position;
    assert(assigned[a].position == position);
}

} // verus!
