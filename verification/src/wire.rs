//! Little-endian integers in byte records.

use vstd::prelude::*;

verus! {

/// The number that two bytes hold, lowest byte first.
pub open spec fn u16_le(bytes: Seq<u8>) -> nat
    recommends
        bytes.len() == 2,
{
    (bytes[0] + 0x100 * bytes[1]) as nat
}

/// The signed number that two bytes hold in two's complement, lowest byte first.
pub open spec fn i16_le(bytes: Seq<u8>) -> int
    recommends
        bytes.len() == 2,
{
    if u16_le(bytes) >= 0x8000 {
        u16_le(bytes) - 0x1_0000
    } else {
        u16_le(bytes) as int
    }
}

/// The number that eight bytes hold, lowest byte first.
pub open spec fn u64_le(bytes: Seq<u8>) -> nat
    recommends
        bytes.len() == 8,
{
    (bytes[0] + 0x100 * bytes[1] + 0x1_0000 * bytes[2] + 0x100_0000 * bytes[3] + 0x1_0000_0000
        * bytes[4] + 0x100_0000_0000 * bytes[5] + 0x1_0000_0000_0000 * bytes[6]
        + 0x100_0000_0000_0000 * bytes[7]) as nat
}

/// The four bytes that hold `value`, lowest byte first.
pub open spec fn u32_le_bytes(value: u32) -> Seq<u8> {
    seq![
        (value % 0x100) as u8,
        (value / 0x100 % 0x100) as u8,
        (value / 0x1_0000 % 0x100) as u8,
        (value / 0x100_0000 % 0x100) as u8,
    ]
}

/// The eight bytes that hold `value`, lowest byte first.
pub open spec fn u64_le_bytes(value: u64) -> Seq<u8> {
    seq![
        (value % 0x100) as u8,
        (value / 0x100 % 0x100) as u8,
        (value / 0x1_0000 % 0x100) as u8,
        (value / 0x100_0000 % 0x100) as u8,
        (value / 0x1_0000_0000 % 0x100) as u8,
        (value / 0x100_0000_0000 % 0x100) as u8,
        (value / 0x1_0000_0000_0000 % 0x100) as u8,
        (value / 0x100_0000_0000_0000 % 0x100) as u8,
    ]
}

/// Reads the number held by the eight bytes from `offset` on.
pub fn read_u64_le(bytes: &[u8], offset: usize) -> (value: u64)
    requires
        offset + 8 <= bytes@.len(),
    ensures
        value == u64_le(bytes@.subrange(offset as int, offset + 8)),
{
    let b0: u64 = bytes[offset] as u64;
    let b1: u64 = bytes[offset + 1] as u64;
    let b2: u64 = bytes[offset + 2] as u64;
    let b3: u64 = bytes[offset + 3] as u64;
    let b4: u64 = bytes[offset + 4] as u64;
    let b5: u64 = bytes[offset + 5] as u64;
    let b6: u64 = bytes[offset + 6] as u64;
    let b7: u64 = bytes[offset + 7] as u64;
    b0 + 0x100 * b1 + 0x1_0000 * b2 + 0x100_0000 * b3 + 0x1_0000_0000 * b4 + 0x100_0000_0000 * b5
        + 0x1_0000_0000_0000 * b6 + 0x100_0000_0000_0000 * b7
}

/// Reads the signed number held by the two bytes from `offset` on.
pub fn read_i16_le(bytes: &[u8], offset: usize) -> (value: i16)
    requires
        offset + 2 <= bytes@.len(),
    ensures
        value == i16_le(bytes@.subrange(offset as int, offset + 2)),
{
    let low: i32 = bytes[offset] as i32;
    let high: i32 = bytes[offset + 1] as i32;
    let unsigned: i32 = low + 0x100 * high;
    if unsigned >= 0x8000 {
        (unsigned - 0x1_0000) as i16
    } else {
        unsigned as i16
    }
}

/// The four bytes that hold `value`, lowest byte first.
pub fn write_u32_le(value: u32) -> (bytes: [u8; 4])
    ensures
        bytes@ == u32_le_bytes(value),
{
    let bytes: [u8; 4] = [
        (value % 0x100) as u8,
        (value / 0x100 % 0x100) as u8,
        (value / 0x1_0000 % 0x100) as u8,
        (value / 0x100_0000 % 0x100) as u8,
    ];
    assert(bytes@ =~= u32_le_bytes(value));
    bytes
}

/// The eight bytes that hold `value`, lowest byte first.
pub fn write_u64_le(value: u64) -> (bytes: [u8; 8])
    ensures
        bytes@ == u64_le_bytes(value),
{
    let bytes: [u8; 8] = [
        (value % 0x100) as u8,
        (value / 0x100 % 0x100) as u8,
        (value / 0x1_0000 % 0x100) as u8,
        (value / 0x100_0000 % 0x100) as u8,
        (value / 0x1_0000_0000 % 0x100) as u8,
        (value / 0x100_0000_0000 % 0x100) as u8,
        (value / 0x1_0000_0000_0000 % 0x100) as u8,
        (value / 0x100_0000_0000_0000 % 0x100) as u8,
    ];
    assert(bytes@ =~= u64_le_bytes(value));
    bytes
}

} // verus!
