//! The fixed-width records of the history index: how an entry is laid out, how
//! a record is found among sorted ones, and when a sorted index is sound.

use crate::error::{protocol, RuntimeError};
use crate::error;
use crate::history::model::{ConversationEntry, EntryModel};
use crate::wire::{read_u64_le, u64_le_bytes};
use crate::wire;
use vstd::prelude::*;
use vstd::slice::*;
use vstd::utf8::*;

verus! {

/// The width of the identifier fields, from which every offset of a record
/// follows. A length byte of all ones stands for a missing parent.
#[derive(Clone, Copy, Debug, PartialEq, Eq, Structural)]
pub struct IndexLayout {
    pub max_id_bytes: usize,
}

impl IndexLayout {
    /// A length byte can tell every length of an identifier from a missing one.
    pub open spec fn wf(self) -> bool {
        self.max_id_bytes <= 254
    }

    /// The bytes of an identifier field: its length, then the identifier.
    pub open spec fn field_bytes(self) -> int {
        self.max_id_bytes + 1
    }

    pub open spec fn parent_offset(self) -> int {
        self.field_bytes()
    }

    pub open spec fn run_offset(self) -> int {
        2 * self.field_bytes()
    }

    pub open spec fn ordinal_offset(self) -> int {
        3 * self.field_bytes()
    }

    pub open spec fn sequence_offset(self) -> int {
        self.ordinal_offset() + 8
    }

    /// The bytes of an index record.
    pub open spec fn record_bytes(self) -> int {
        self.sequence_offset() + 8
    }

    /// The bytes of an event pointer record.
    pub open spec fn pointer_bytes(self) -> int {
        self.field_bytes() + 8
    }
}

/// An identifier field: the length, the identifier, and zeros up to the width.
pub open spec fn id_field(layout: IndexLayout, id: Seq<u8>) -> Seq<u8> {
    seq![id.len() as u8] + id + Seq::new((layout.max_id_bytes - id.len()) as nat, |i: int| 0u8)
}

/// The field of a missing parent.
pub open spec fn absent_field(layout: IndexLayout) -> Seq<u8> {
    seq![255u8] + Seq::new(layout.max_id_bytes as nat, |i: int| 0u8)
}

/// The record of an entry at a position of the history.
pub open spec fn index_record(layout: IndexLayout, entry: EntryModel, ordinal: u64) -> Seq<u8> {
    id_field(layout, encode_utf8(entry.entry_id.text)) + (match entry.parent_entry_id {
        Some(parent) => id_field(layout, encode_utf8(parent.text)),
        None => absent_field(layout),
    }) + id_field(layout, encode_utf8(entry.run_session_id.text)) + wire::le_bytes(ordinal as nat)
        + wire::le_bytes(entry.event_sequence as nat)
}

/// Whether every identifier of an entry fits into its field.
pub open spec fn entry_fits(layout: IndexLayout, entry: EntryModel) -> bool {
    &&& encode_utf8(entry.entry_id.text).len() <= layout.max_id_bytes
    &&& entry.parent_entry_id matches Some(parent) ==> encode_utf8(parent.text).len()
        <= layout.max_id_bytes
    &&& encode_utf8(entry.run_session_id.text).len() <= layout.max_id_bytes
}

fn push_field(layout: IndexLayout, record: &mut Vec<u8>, value: &[u8]) -> (result: Result<
    (),
    RuntimeError,
>)
    requires
        layout.wf(),
    ensures
        error::failure(result) == (if value@.len() <= layout.max_id_bytes {
            None
        } else {
            error::protocol_failure("conversation history index id is oversized"@)
        }),
        result is Ok ==> final(record)@ == old(record)@ + id_field(layout, value@),
{
    if value.len() > layout.max_id_bytes {
        return Err(protocol("conversation history index id is oversized"));
    }
    record.push(value.len() as u8);
    let mut i: usize = 0;
    while i < value.len()
        invariant
            i <= value.len() <= layout.max_id_bytes,
            record@ =~= old(record)@ + seq![value@.len() as u8] + value@.take(i as int),
        decreases value.len() - i,
    {
        record.push(value[i]);
        i = i + 1;
    }
    push_zeros(record, layout.max_id_bytes - value.len());
    assert(record@ =~= old(record)@ + id_field(layout, value@));
    Ok(())
}

fn push_zeros(record: &mut Vec<u8>, count: usize)
    ensures
        final(record)@ == old(record)@ + Seq::new(count as nat, |i: int| 0u8),
{
    let mut i: usize = 0;
    while i < count
        invariant
            i <= count,
            record@ =~= old(record)@ + Seq::new(i as nat, |k: int| 0u8),
        decreases count - i,
    {
        record.push(0);
        i = i + 1;
    }
}

fn push_bytes(record: &mut Vec<u8>, bytes: &Vec<u8>)
    ensures
        final(record)@ == old(record)@ + bytes@,
{
    let mut i: usize = 0;
    while i < bytes.len()
        invariant
            i <= bytes.len(),
            record@ =~= old(record)@ + bytes@.take(i as int),
        decreases bytes.len() - i,
    {
        record.push(bytes[i]);
        i = i + 1;
    }
    assert(bytes@.take(i as int) =~= bytes@);
}

/// Lays out the record of an entry.
pub fn encode_record(layout: IndexLayout, entry: &ConversationEntry, ordinal: u64) -> (result:
    Result<Vec<u8>, RuntimeError>)
    requires
        layout.wf(),
    ensures
        error::failure(result) == (if entry_fits(layout, entry@) {
            None
        } else {
            error::protocol_failure("conversation history index id is oversized"@)
        }),
        result matches Ok(record) ==> record@ == index_record(layout, entry@, ordinal),
{
    let mut record: Vec<u8> = Vec::new();
    push_field(layout, &mut record, entry.entry_id.text.as_str().as_bytes())?;
    match &entry.parent_entry_id {
        Some(parent) => {
            push_field(layout, &mut record, parent.text.as_str().as_bytes())?;
        },
        None => {
            record.push(255);
            push_zeros(&mut record, layout.max_id_bytes);
        },
    }
    push_field(layout, &mut record, entry.run_session_id.text.as_str().as_bytes())?;
    let ordinal_bytes = u64_le_bytes(ordinal);
    push_bytes(&mut record, &ordinal_bytes);
    let sequence_bytes = u64_le_bytes(entry.event_sequence);
    push_bytes(&mut record, &sequence_bytes);
    assert(record@ =~= index_record(layout, entry@, ordinal));
    Ok(record)
}

/// The identifier that a record begins with.
pub open spec fn leading_id(record: Seq<u8>) -> Seq<u8> {
    record.subrange(1, 1 + record[0] as int)
}

/// Whether a record holds the whole identifier that it begins with.
pub open spec fn has_leading_id(record: Seq<u8>) -> bool {
    record.len() >= 1 && 1 + record[0] as int <= record.len()
}

/// Whether a record has the right length and its length bytes stay inside it.
pub open spec fn fits(layout: IndexLayout, record: Seq<u8>) -> bool {
    &&& record.len() == layout.record_bytes()
    &&& has_leading_id(record)
    &&& record[layout.parent_offset()] == 255 || layout.parent_offset() + 1
        + record[layout.parent_offset()] as int <= record.len()
}

/// The parent that a record names.
pub open spec fn parent_of(layout: IndexLayout, record: Seq<u8>) -> Option<Seq<u8>> {
    let at = layout.parent_offset();
    if record[at] == 255 {
        None
    } else {
        Some(record.subrange(at + 1, at + 1 + record[at] as int))
    }
}

/// The position of a record's entry in the history.
pub open spec fn ordinal_of(layout: IndexLayout, record: Seq<u8>) -> nat {
    wire::le_value(record.subrange(layout.ordinal_offset(), layout.ordinal_offset() + 8))
}

/// The run identifier field and the sequence number of a record.
pub open spec fn pointer_record(layout: IndexLayout, record: Seq<u8>) -> Seq<u8> {
    record.subrange(layout.run_offset(), layout.ordinal_offset()) + record.subrange(
        layout.sequence_offset(),
        layout.record_bytes(),
    )
}

/// The sequence number of an event pointer record.
pub open spec fn pointer_sequence(layout: IndexLayout, pointer: Seq<u8>) -> nat {
    wire::le_value(pointer.subrange(layout.field_bytes(), layout.field_bytes() + 8))
}

/// Tests that a record has the right length and stays inside itself.
pub fn record_fits(layout: IndexLayout, record: &Vec<u8>) -> (fit: bool)
    requires
        layout.wf(),
    ensures
        fit == fits(layout, record@),
{
    if record.len() != 3 * (layout.max_id_bytes + 1) + 16 {
        return false;
    }
    let at: usize = layout.max_id_bytes + 1;
    1 + record[0] as usize <= record.len() && (record[at] == 255 || at + 1 + record[at] as usize
        <= record.len())
}

/// The identifier that a record begins with: an index record's entry, an event
/// pointer record's run.
pub fn record_id(record: &Vec<u8>) -> (id: &[u8])
    requires
        has_leading_id(record@),
    ensures
        id@ == leading_id(record@),
{
    let length: usize = record[0] as usize;
    slice_subrange(record.as_slice(), 1, 1 + length)
}

/// The parent that a record names, if any.
pub fn record_parent(layout: IndexLayout, record: &Vec<u8>) -> (parent: Option<&[u8]>)
    requires
        layout.wf(),
        fits(layout, record@),
    ensures
        match parent {
            Some(parent) => parent_of(layout, record@) == Some(parent@),
            None => parent_of(layout, record@) is None,
        },
{
    let at: usize = layout.max_id_bytes + 1;
    if record[at] == 255 {
        return None;
    }
    let length: usize = record[at] as usize;
    Some(slice_subrange(record.as_slice(), at + 1, at + 1 + length))
}

/// The position of a record's entry in the history.
pub fn record_ordinal(layout: IndexLayout, record: &Vec<u8>) -> (ordinal: u64)
    requires
        layout.wf(),
        fits(layout, record@),
    ensures
        ordinal == ordinal_of(layout, record@),
{
    read_u64_le(record, 3 * (layout.max_id_bytes + 1))
}

/// Lays out the event pointer of an index record.
pub fn encode_event_pointer_record(layout: IndexLayout, record: &Vec<u8>) -> (pointer: Vec<u8>)
    requires
        layout.wf(),
        record@.len() == layout.record_bytes(),
    ensures
        pointer@ == pointer_record(layout, record@),
{
    let mut pointer: Vec<u8> = Vec::new();
    let field: usize = layout.max_id_bytes + 1;
    let mut i: usize = 2 * field;
    while i < 3 * field
        invariant
            field == layout.field_bytes(),
            layout.wf(),
            record@.len() == layout.record_bytes(),
            2 * field <= i <= 3 * field,
            pointer@ =~= record@.subrange(2 * field, i as int),
        decreases 3 * field - i,
    {
        pointer.push(record[i]);
        i = i + 1;
    }
    let mut k: usize = 3 * field + 8;
    while k < record.len()
        invariant
            field == layout.field_bytes(),
            layout.wf(),
            record@.len() == layout.record_bytes(),
            3 * field + 8 <= k <= record.len(),
            pointer@ =~= record@.subrange(2 * field, 3 * field) + record@.subrange(
                3 * field + 8,
                k as int,
            ),
        decreases record.len() - k,
    {
        pointer.push(record[k]);
        k = k + 1;
    }
    pointer
}

/// The sequence number of an event pointer record.
pub fn event_pointer_sequence(layout: IndexLayout, pointer: &Vec<u8>) -> (sequence: u64)
    requires
        layout.wf(),
        pointer@.len() == layout.pointer_bytes(),
    ensures
        sequence == pointer_sequence(layout, pointer@),
{
    assert(pointer.len() == layout.pointer_bytes());
    read_u64_le(pointer, layout.max_id_bytes + 1)
}

/// An identifier field holds the identifier behind its length.
proof fn lemma_id_field(layout: IndexLayout, id: Seq<u8>, rest: Seq<u8>)
    requires
        layout.wf(),
        id.len() <= layout.max_id_bytes,
    ensures
        id_field(layout, id).len() == layout.field_bytes(),
        (id_field(layout, id) + rest)[0] == id.len(),
        leading_id(id_field(layout, id) + rest) == id,
{
    let whole = id_field(layout, id) + rest;
    assert(leading_id(whole) =~= id);
}

/// Reading the record of an entry gives back its identifiers, its position and
/// its sequence number.
pub proof fn law_record_round_trip(layout: IndexLayout, entry: EntryModel, ordinal: u64)
    requires
        layout.wf(),
        entry_fits(layout, entry),
    ensures
        fits(layout, index_record(layout, entry, ordinal)),
        leading_id(index_record(layout, entry, ordinal)) == encode_utf8(entry.entry_id.text),
        parent_of(layout, index_record(layout, entry, ordinal)) == (match entry.parent_entry_id {
            Some(parent) => Some(encode_utf8(parent.text)),
            None => None,
        }),
        ordinal_of(layout, index_record(layout, entry, ordinal)) == ordinal,
        ({
            let pointer = pointer_record(layout, index_record(layout, entry, ordinal));
            &&& pointer.len() == layout.pointer_bytes()
            &&& has_leading_id(pointer)
            &&& leading_id(pointer) == encode_utf8(entry.run_session_id.text)
            &&& pointer_sequence(layout, pointer) == entry.event_sequence
        }),
{
    let record = index_record(layout, entry, ordinal);
    let first = id_field(layout, encode_utf8(entry.entry_id.text));
    let second = match entry.parent_entry_id {
        Some(parent) => id_field(layout, encode_utf8(parent.text)),
        None => absent_field(layout),
    };
    let third = id_field(layout, encode_utf8(entry.run_session_id.text));
    let tail = wire::le_bytes(ordinal as nat) + wire::le_bytes(entry.event_sequence as nat);
    wire::law_le_round_trip(ordinal);
    wire::law_le_round_trip(entry.event_sequence);
    let empty = Seq::<u8>::empty();
    lemma_id_field(layout, encode_utf8(entry.entry_id.text), second + third + tail);
    lemma_id_field(layout, encode_utf8(entry.run_session_id.text), wire::le_bytes(entry.event_sequence as nat));
    if let Some(parent) = entry.parent_entry_id {
        lemma_id_field(layout, encode_utf8(parent.text), empty);
        assert(second + empty =~= second);
    }
    assert(record =~= first + (second + third + tail));
    assert(second.len() == layout.field_bytes());
    assert(record.len() == layout.record_bytes());
    let at = layout.parent_offset();
    assert(record[at] == second[0]);
    if let Some(parent) = entry.parent_entry_id {
        let length = encode_utf8(parent.text).len() as int;
        assert(record.subrange(at + 1, at + 1 + length) =~= encode_utf8(parent.text)) by {
            assert(leading_id(second) =~= encode_utf8(parent.text));
            assert(record.subrange(at, at + layout.field_bytes()) =~= second);
            assert(record.subrange(at + 1, at + 1 + length) =~= second.subrange(1, 1 + length));
        }
    }
    let oo = layout.ordinal_offset();
    assert(record.subrange(oo, oo + 8) =~= wire::le_bytes(ordinal as nat));
    let pointer = pointer_record(layout, record);
    assert(record.subrange(layout.run_offset(), oo) =~= third);
    assert(record.subrange(layout.sequence_offset(), layout.record_bytes()) =~= wire::le_bytes(
        entry.event_sequence as nat,
    ));
    assert(pointer =~= third + wire::le_bytes(entry.event_sequence as nat));
    assert(pointer.subrange(layout.field_bytes(), layout.field_bytes() + 8) =~= wire::le_bytes(
        entry.event_sequence as nat,
    ));
}

} // verus!
