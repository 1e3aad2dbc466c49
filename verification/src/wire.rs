//! Fixed-width integers as bytes.

use vstd::prelude::*;

verus! {

/// The eight bytes of a number, the most significant one first.
pub open spec fn be_bytes(value: nat) -> Seq<u8> {
    seq![
        (value / 0x100_0000_0000_0000 % 256) as u8,
        (value / 0x1_0000_0000_0000 % 256) as u8,
        (value / 0x100_0000_0000 % 256) as u8,
        (value / 0x1_0000_0000 % 256) as u8,
        (value / 0x100_0000 % 256) as u8,
        (value / 0x1_0000 % 256) as u8,
        (value / 0x100 % 256) as u8,
        (value % 256) as u8,
    ]
}

/// The eight bytes of a number, the least significant one first.
pub open spec fn le_bytes(value: nat) -> Seq<u8> {
    be_bytes(value).reverse()
}

/// The number that eight bytes stand for, the least significant one first.
pub open spec fn le_value(bytes: Seq<u8>) -> nat {
    bytes[0] as nat + 0x100 * bytes[1] as nat + 0x1_0000 * bytes[2] as nat + 0x100_0000
        * bytes[3] as nat + 0x1_0000_0000 * bytes[4] as nat + 0x100_0000_0000 * bytes[5] as nat
        + 0x1_0000_0000_0000 * bytes[6] as nat + 0x100_0000_0000_0000 * bytes[7] as nat
}

/// Writes a number as eight bytes, the most significant one first.
pub fn u64_be_bytes(value: u64) -> (bytes: Vec<u8>)
    ensures
        bytes@ == be_bytes(value as nat),
{
    let mut bytes: Vec<u8> = Vec::new();
    bytes.push((value / 0x100_0000_0000_0000 % 256) as u8);
    bytes.push((value / 0x1_0000_0000_0000 % 256) as u8);
    bytes.push((value / 0x100_0000_0000 % 256) as u8);
    bytes.push((value / 0x1_0000_0000 % 256) as u8);
    bytes.push((value / 0x100_0000 % 256) as u8);
    bytes.push((value / 0x1_0000 % 256) as u8);
    bytes.push((value / 0x100 % 256) as u8);
    bytes.push((value % 256) as u8);
    assert(bytes@ =~= be_bytes(value as nat));
    bytes
}

/// Writes a number as eight bytes, the least significant one first.
pub fn u64_le_bytes(value: u64) -> (bytes: Vec<u8>)
    ensures
        bytes@ == le_bytes(value as nat),
{
    let mut bytes: Vec<u8> = Vec::new();
    bytes.push((value % 256) as u8);
    bytes.push((value / 0x100 % 256) as u8);
    bytes.push((value / 0x1_0000 % 256) as u8);
    bytes.push((value / 0x100_0000 % 256) as u8);
    bytes.push((value / 0x1_0000_0000 % 256) as u8);
    bytes.push((value / 0x100_0000_0000 % 256) as u8);
    bytes.push((value / 0x1_0000_0000_0000 % 256) as u8);
    bytes.push((value / 0x100_0000_0000_0000 % 256) as u8);
    assert(bytes@ =~= le_bytes(value as nat));
    bytes
}

/// Reads a number from the eight bytes at an offset, the least significant one
/// first.
pub fn read_u64_le(bytes: &Vec<u8>, offset: usize) -> (value: u64)
    requires
        offset + 8 <= bytes.len(),
    ensures
        value == le_value(bytes@.subrange(offset as int, offset + 8)),
{
    let low: u64 = bytes[offset] as u64 + 0x100 * bytes[offset + 1] as u64 + 0x1_0000
        * bytes[offset + 2] as u64 + 0x100_0000 * bytes[offset + 3] as u64;
    let high: u64 = bytes[offset + 4] as u64 + 0x100 * bytes[offset + 5] as u64 + 0x1_0000
        * bytes[offset + 6] as u64 + 0x100_0000 * bytes[offset + 7] as u64;
    low + 0x1_0000_0000 * high
}

/// Reading gives back the number that was written.
pub proof fn law_le_round_trip(value: u64)
    ensures
        le_value(le_bytes(value as nat)) == value,
        le_bytes(value as nat).len() == 8,
{
    let v = value as nat;
    let bytes = le_bytes(v);
    assert(bytes[0] == v % 256 && bytes[1] == v / 0x100 % 256 && bytes[2] == v / 0x1_0000 % 256
        && bytes[3] == v / 0x100_0000 % 256 && bytes[4] == v / 0x1_0000_0000 % 256 && bytes[5] == v
        / 0x100_0000_0000 % 256 && bytes[6] == v / 0x1_0000_0000_0000 % 256 && bytes[7] == v
        / 0x100_0000_0000_0000 % 256);
    let q1 = v / 0x100;
    let q2 = v / 0x1_0000;
    let q3 = v / 0x100_0000;
    let q4 = v / 0x1_0000_0000;
    let q5 = v / 0x100_0000_0000;
    let q6 = v / 0x1_0000_0000_0000;
    let q7 = v / 0x100_0000_0000_0000;
    assert(q2 == q1 / 256);
    assert(q3 == q2 / 256);
    assert(q4 == q3 / 256);
    assert(q5 == q4 / 256);
    assert(q6 == q5 / 256);
    assert(q7 == q6 / 256);
    assert(q7 < 256);
}

} // verus!
