//! The identifiers of an event stream: how they are recorded, how equal ones get
//! equal tokens, and how event pointers are checked against the stream.

use crate::digest::sha256_digest;
use crate::digest;
use crate::error::{protocol, RuntimeError};
use crate::error;
use crate::history::external_sort::SortRecord;
use crate::history::records;
use crate::order::{compare_bytes, Relation};
use crate::wire::{read_u64_le, u64_le_bytes};
use crate::wire;
use vstd::array::*;
use vstd::prelude::*;
use vstd::slice::*;
use vstd::utf8::*;

verus! {

pub const EVENT_IDENTIFIER_RECORD_BYTES: usize = 48;

/// What an identifier of an event names.
#[derive(Clone, Copy, Debug, PartialEq, Eq, Structural)]
pub enum EventStateIdentifierKind {
    Event,
    Flow,
    ParentFlow,
    FlowDefinition,
    PhaseExecution,
    Phase,
    Tool,
    Message,
    Attempt,
}

/// The byte that stands for a kind.
pub open spec fn kind_byte(kind: EventStateIdentifierKind) -> u8 {
    match kind {
        EventStateIdentifierKind::Event => 0,
        EventStateIdentifierKind::Flow => 1,
        EventStateIdentifierKind::ParentFlow => 2,
        EventStateIdentifierKind::FlowDefinition => 3,
        EventStateIdentifierKind::PhaseExecution => 4,
        EventStateIdentifierKind::Phase => 5,
        EventStateIdentifierKind::Tool => 6,
        EventStateIdentifierKind::Message => 7,
        EventStateIdentifierKind::Attempt => 8,
    }
}

/// The namespace within which identifiers of a kind are compared: a flow and the
/// parent of a flow share one.
pub open spec fn kind_namespace(kind: EventStateIdentifierKind) -> u8 {
    match kind {
        EventStateIdentifierKind::Event => 0,
        EventStateIdentifierKind::Flow | EventStateIdentifierKind::ParentFlow => 1,
        EventStateIdentifierKind::FlowDefinition => 2,
        EventStateIdentifierKind::PhaseExecution => 3,
        EventStateIdentifierKind::Phase => 4,
        EventStateIdentifierKind::Tool => 5,
        EventStateIdentifierKind::Message => 6,
        EventStateIdentifierKind::Attempt => 7,
    }
}

/// The pass over the stream in which identifiers of a kind are sorted.
pub open spec fn kind_pass(kind: EventStateIdentifierKind) -> u8 {
    match kind {
        EventStateIdentifierKind::Event => 0,
        EventStateIdentifierKind::Flow | EventStateIdentifierKind::ParentFlow => 1,
        _ => 2,
    }
}

/// The byte that stands for a kind.
pub fn identifier_kind_byte(kind: EventStateIdentifierKind) -> (byte: u8)
    ensures
        byte == kind_byte(kind),
        byte <= 8,
{
    match kind {
        EventStateIdentifierKind::Event => 0,
        EventStateIdentifierKind::Flow => 1,
        EventStateIdentifierKind::ParentFlow => 2,
        EventStateIdentifierKind::FlowDefinition => 3,
        EventStateIdentifierKind::PhaseExecution => 4,
        EventStateIdentifierKind::Phase => 5,
        EventStateIdentifierKind::Tool => 6,
        EventStateIdentifierKind::Message => 7,
        EventStateIdentifierKind::Attempt => 8,
    }
}

/// The kind that a byte stands for, if any.
pub fn identifier_kind_from_byte(value: u8) -> (result: Result<
    EventStateIdentifierKind,
    RuntimeError,
>)
    ensures
        error::failure(result) == (if value <= 8 {
            None
        } else {
            error::protocol_failure("event identifier index has an invalid kind"@)
        }),
        result matches Ok(kind) ==> kind_byte(kind) == value,
{
    if value == 0 {
        Ok(EventStateIdentifierKind::Event)
    } else if value == 1 {
        Ok(EventStateIdentifierKind::Flow)
    } else if value == 2 {
        Ok(EventStateIdentifierKind::ParentFlow)
    } else if value == 3 {
        Ok(EventStateIdentifierKind::FlowDefinition)
    } else if value == 4 {
        Ok(EventStateIdentifierKind::PhaseExecution)
    } else if value == 5 {
        Ok(EventStateIdentifierKind::Phase)
    } else if value == 6 {
        Ok(EventStateIdentifierKind::Tool)
    } else if value == 7 {
        Ok(EventStateIdentifierKind::Message)
    } else if value == 8 {
        Ok(EventStateIdentifierKind::Attempt)
    } else {
        Err(protocol("event identifier index has an invalid kind"))
    }
}

/// The namespace of a kind.
pub fn identifier_namespace(kind: EventStateIdentifierKind) -> (namespace: u8)
    ensures
        namespace == kind_namespace(kind),
{
    match kind {
        EventStateIdentifierKind::Event => 0,
        EventStateIdentifierKind::Flow | EventStateIdentifierKind::ParentFlow => 1,
        EventStateIdentifierKind::FlowDefinition => 2,
        EventStateIdentifierKind::PhaseExecution => 3,
        EventStateIdentifierKind::Phase => 4,
        EventStateIdentifierKind::Tool => 5,
        EventStateIdentifierKind::Message => 6,
        EventStateIdentifierKind::Attempt => 7,
    }
}

/// The pass of a kind.
pub fn identifier_pass(kind: EventStateIdentifierKind) -> (pass: u8)
    ensures
        pass == kind_pass(kind),
        pass <= 2,
{
    match kind {
        EventStateIdentifierKind::Event => 0,
        EventStateIdentifierKind::Flow | EventStateIdentifierKind::ParentFlow => 1,
        _ => 2,
    }
}

/// Different kinds have different bytes, and kinds of one namespace are sorted in
/// one pass.
pub proof fn law_kinds(left: EventStateIdentifierKind, right: EventStateIdentifierKind)
    ensures
        kind_byte(left) == kind_byte(right) ==> left == right,
        kind_namespace(left) == kind_namespace(right) ==> kind_pass(left) == kind_pass(right),
{
}

/// Where an identifier stands in the stream, and the digest of its text.
#[derive(Clone, Copy)]
pub struct EventIdentifierRecord {
    pub kind: EventStateIdentifierKind,
    pub digest: [u8; 32],
    pub offset: u64,
}

/// The record of an identifier on disk.
pub open spec fn identifier_bytes(record: EventIdentifierRecord) -> Seq<u8> {
    seq![kind_namespace(record.kind), kind_byte(record.kind), 0u8, 0u8, 0u8, 0u8, 0u8, 0u8]
        + record.digest@ + wire::le_bytes(record.offset as nat)
}

impl SortRecord for EventIdentifierRecord {
    open spec fn sortable(&self) -> bool {
        true
    }

    open spec fn sort_key(&self) -> Seq<u8> {
        seq![kind_namespace(self.kind)] + self.digest@
    }

    fn relate(&self, other: &Self) -> (relation: Relation) {
        let left = identifier_namespace(self.kind);
        let right = identifier_namespace(other.kind);
        proof {
            let a = self.sort_key();
            let b = other.sort_key();
            assert(a[0] == left && b[0] == right);
            assert(a.skip(1) =~= self.digest@);
            assert(b.skip(1) =~= other.digest@);
            if left == right && self.digest@ == other.digest@ {
                assert(a =~= b);
            }
            if a == b {
                assert(a.skip(1) == b.skip(1));
            }
        }
        if left < right {
            Relation::Before
        } else if left > right {
            Relation::After
        } else {
            compare_bytes(array_as_slice(&self.digest), array_as_slice(&other.digest))
        }
    }
}

/// Makes the record of an identifier.
pub fn event_identifier_record(
    kind: EventStateIdentifierKind,
    value: &str,
    offset: u64,
) -> (record: EventIdentifierRecord)
    ensures
        record.kind == kind,
        record.digest@ == digest::sha256(encode_utf8(value@)),
        record.offset == offset,
{
    EventIdentifierRecord { kind, digest: sha256_digest(value.as_bytes()), offset }
}

/// Writes a record.
pub fn encode_event_identifier_record(record: &EventIdentifierRecord) -> (bytes: Vec<u8>)
    ensures
        bytes@ == identifier_bytes(*record),
        bytes@.len() == EVENT_IDENTIFIER_RECORD_BYTES,
{
    let mut bytes: Vec<u8> = Vec::new();
    bytes.push(identifier_namespace(record.kind));
    bytes.push(identifier_kind_byte(record.kind));
    let mut pad: usize = 0;
    while pad < 6
        invariant
            pad <= 6,
            bytes@ =~= seq![kind_namespace(record.kind), kind_byte(record.kind)] + Seq::new(
                pad as nat,
                |k: int| 0u8,
            ),
        decreases 6 - pad,
    {
        bytes.push(0);
        pad = pad + 1;
    }
    let ghost head = seq![
        kind_namespace(record.kind),
        kind_byte(record.kind),
        0u8,
        0u8,
        0u8,
        0u8,
        0u8,
        0u8,
    ];
    assert(bytes@ =~= head);
    let mut i: usize = 0;
    while i < 32
        invariant
            i <= 32,
            bytes@ =~= head + record.digest@.take(i as int),
        decreases 32 - i,
    {
        bytes.push(record.digest[i]);
        i = i + 1;
    }
    let mut offset = u64_le_bytes(record.offset);
    proof {
        wire::law_le_round_trip(record.offset);
    }
    bytes.append(&mut offset);
    assert(bytes@ =~= identifier_bytes(*record));
    bytes
}

/// Reads a record back.
pub fn decode_event_identifier_record(bytes: &Vec<u8>) -> (result: Result<
    EventIdentifierRecord,
    RuntimeError,
>)
    requires
        bytes@.len() == EVENT_IDENTIFIER_RECORD_BYTES,
    ensures
        error::failure(result) == (if bytes@[1] <= 8 {
            None
        } else {
            error::protocol_failure("event identifier index has an invalid kind"@)
        }),
        result matches Ok(record) ==> kind_byte(record.kind) == bytes@[1] && record.digest@
            == bytes@.subrange(8, 40) && record.offset == wire::le_value(bytes@.subrange(40, 48)),
{
    assert(bytes.len() == 48);
    let kind = identifier_kind_from_byte(bytes[1])?;
    let mut digest: [u8; 32] = [0u8; 32];
    let mut i: usize = 0;
    while i < 32
        invariant
            i <= 32,
            bytes.len() == 48,
            forall|j: int| 0 <= j < i ==> #[trigger] digest@[j] == bytes@[8 + j],
        decreases 32 - i,
    {
        digest[i] = bytes[8 + i];
        i = i + 1;
    }
    assert(digest@ =~= bytes@.subrange(8, 40));
    Ok(EventIdentifierRecord { kind, digest, offset: read_u64_le(bytes, 40) })
}

/// Reading a record gives back what was written.
pub proof fn law_identifier_record_round_trip(record: EventIdentifierRecord)
    ensures
        identifier_bytes(record).len() == EVENT_IDENTIFIER_RECORD_BYTES,
        identifier_bytes(record)[0] == kind_namespace(record.kind),
        identifier_bytes(record)[1] == kind_byte(record.kind),
        identifier_bytes(record).subrange(8, 40) == record.digest@,
        wire::le_value(identifier_bytes(record).subrange(40, 48)) == record.offset,
{
    wire::law_le_round_trip(record.offset);
    let bytes = identifier_bytes(record);
    assert(bytes.subrange(8, 40) =~= record.digest@);
    assert(bytes.subrange(40, 48) =~= wire::le_bytes(record.offset as nat));
}

/// Whether two records name identifiers of one namespace with one digest.
pub fn same_event_identifier_primary(
    left: &EventIdentifierRecord,
    right: &EventIdentifierRecord,
) -> (same: bool)
    ensures
        same == (left.sort_key() == right.sort_key()),
{
    left.relate(right) == Relation::Same
}

/// An identifier as an event holds it.
pub struct IdentifierValue {
    pub kind: EventStateIdentifierKind,
    pub value: String,
}

/// The records that one event adds in a pass.
pub open spec fn pass_records(
    identifiers: Seq<IdentifierValue>,
    pass: u8,
    offset: u64,
) -> Seq<(EventStateIdentifierKind, Seq<u8>, u64)>
    decreases identifiers.len(),
{
    if identifiers.len() == 0 {
        Seq::empty()
    } else {
        let rest = pass_records(identifiers.drop_last(), pass, offset);
        let last = identifiers.last();
        if kind_pass(last.kind) == pass {
            rest.push((last.kind, digest::sha256(encode_utf8(last.value@)), offset))
        } else {
            rest
        }
    }
}

/// The contents of some records.
pub open spec fn records_view(records: Seq<EventIdentifierRecord>) -> Seq<
    (EventStateIdentifierKind, Seq<u8>, u64),
> {
    records.map_values(|record: EventIdentifierRecord| (record.kind, record.digest@, record.offset))
}

/// Adds the identifiers that an event at an offset has in a pass.
pub fn collect_identifiers(
    identifiers: &Vec<IdentifierValue>,
    pass: u8,
    offset: u64,
    maximum: u64,
    chunk: &mut Vec<EventIdentifierRecord>,
) -> (result: Result<(), RuntimeError>)
    requires
        old(chunk)@.len() <= maximum,
    ensures
        error::failure(result) == (if pass > 2 {
            error::protocol_failure("event identifier sort has an invalid pass"@)
        } else if old(chunk)@.len() + pass_records(identifiers@, pass, offset).len() > maximum {
            error::protocol_failure("event identifier sort record budget exceeded"@)
        } else {
            None
        }),
        result is Ok ==> records_view(final(chunk)@) == records_view(old(chunk)@) + pass_records(
            identifiers@,
            pass,
            offset,
        ),
{
    if pass > 2 {
        return Err(protocol("event identifier sort has an invalid pass"));
    }
    let mut i: usize = 0;
    assert(identifiers@.take(0) =~= Seq::empty());
    assert(records_view(chunk@) =~= records_view(old(chunk)@) + pass_records(
        identifiers@.take(0),
        pass,
        offset,
    ));
    while i < identifiers.len()
        invariant
            i <= identifiers.len(),
            pass <= 2,
            records_view(chunk@) == records_view(old(chunk)@) + pass_records(
                identifiers@.take(i as int),
                pass,
                offset,
            ),
            chunk@.len() <= maximum,
        decreases identifiers.len() - i,
    {
        let ghost taken = identifiers@.take(i + 1);
        assert(taken.drop_last() =~= identifiers@.take(i as int));
        assert(taken.last() == identifiers@[i as int]);
        proof {
            lemma_pass_records_monotone(identifiers@, i + 1, pass, offset);
        }
        assert(chunk@.len() == records_view(chunk@).len());
        assert(old(chunk)@.len() == records_view(old(chunk)@).len());
        if identifier_pass(identifiers[i].kind) == pass {
            if chunk.len() as u64 >= maximum {
                return Err(protocol("event identifier sort record budget exceeded"));
            }
            let record = event_identifier_record(
                identifiers[i].kind,
                identifiers[i].value.as_str(),
                offset,
            );
            let ghost before = chunk@;
            chunk.push(record);
            let ghost added = (record.kind, record.digest@, record.offset);
            assert(records_view(chunk@) =~= records_view(before).push(added));
            assert(pass_records(taken, pass, offset) == pass_records(
                identifiers@.take(i as int),
                pass,
                offset,
            ).push(added));
            assert(records_view(chunk@) =~= records_view(old(chunk)@) + pass_records(
                taken,
                pass,
                offset,
            ));
        }
        i = i + 1;
    }
    assert(identifiers@.take(i as int) =~= identifiers@);
    assert(chunk@.len() == records_view(chunk@).len());
    assert(old(chunk)@.len() == records_view(old(chunk)@).len());
    Ok(())
}

proof fn lemma_pass_records_monotone(
    identifiers: Seq<IdentifierValue>,
    count: int,
    pass: u8,
    offset: u64,
)
    requires
        0 <= count <= identifiers.len(),
    ensures
        pass_records(identifiers.take(count), pass, offset).len() <= pass_records(
            identifiers,
            pass,
            offset,
        ).len(),
    decreases identifiers.len() - count,
{
    if count < identifiers.len() {
        let next = identifiers.take(count + 1);
        assert(next.drop_last() =~= identifiers.take(count));
        lemma_pass_records_monotone(identifiers, count + 1, pass, offset);
    } else {
        assert(identifiers.take(count) =~= identifiers);
    }
}

/// Two kinds share their identifiers exactly where they are the same, or are both those of
/// flows; events are looked at in the first pass, flows in the second, all others in the third.
pub proof fn law_which_kinds_share_identifiers(
    left: EventStateIdentifierKind,
    right: EventStateIdentifierKind,
)
    ensures
        ({
            let of_flow = |kind: EventStateIdentifierKind| kind == EventStateIdentifierKind::Flow
                || kind == EventStateIdentifierKind::ParentFlow;
            &&& kind_namespace(left) == kind_namespace(right) <==> left == right || of_flow(left)
                && of_flow(right)
            &&& kind_pass(left) == 0 <==> left == EventStateIdentifierKind::Event
            &&& kind_pass(left) == 1 <==> of_flow(left)
            &&& kind_pass(left) <= 2
        }),
{
}

/// A pass takes of the identifiers of an event those of its kinds, in their order, each with
/// its digest and the place of the event, and no other.
pub proof fn law_pass_takes_its_own_identifiers(
    identifiers: Seq<IdentifierValue>,
    identifier: IdentifierValue,
    pass: u8,
    offset: u64,
)
    ensures
        kind_pass(identifier.kind) == pass ==> {
            let taken = pass_records(identifiers.push(identifier), pass, offset);
            &&& taken.drop_last() == pass_records(identifiers, pass, offset)
            &&& taken.last() == (
                identifier.kind,
                digest::sha256(encode_utf8(identifier.value@)),
                offset,
            )
        },
        kind_pass(identifier.kind) != pass ==> pass_records(
            identifiers.push(identifier),
            pass,
            offset,
        ) == pass_records(identifiers, pass, offset),
        pass_records(Seq::empty(), pass, offset).len() == 0,
{
    assert(identifiers.push(identifier).drop_last() =~= identifiers);
    assert(kind_pass(identifier.kind) == pass ==> pass_records(
        identifiers.push(identifier),
        pass,
        offset,
    ).drop_last() =~= pass_records(identifiers, pass, offset));
}

} // verus!
