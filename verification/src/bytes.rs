//! Little-endian integers inside byte sequences.
//!
//! Wasm linear memory is little-endian; these are the only two widths that
//! the layout of a grammar uses, besides single bytes.

use vstd::prelude::*;

verus! {

/// The 16-bit integer stored at `at`.
pub open spec fn le_u16(bytes: Seq<u8>, at: int) -> u16 {
    (bytes[at] + 0x100 * bytes[at + 1]) as u16
}

/// The 32-bit integer stored at `at`.
pub open spec fn le_u32(bytes: Seq<u8>, at: int) -> u32 {
    (bytes[at] + 0x100 * bytes[at + 1] + 0x1_0000 * bytes[at + 2] + 0x100_0000 * bytes[at
        + 3]) as u32
}

/// The 32-bit integer stored at `at`, read as two's complement.
pub open spec fn le_i32(bytes: Seq<u8>, at: int) -> i32 {
    le_u32(bytes, at) as i32
}

/// The four bytes of `value`, least significant first.
pub open spec fn le_bytes(value: u32) -> Seq<u8> {
    seq![
        (value % 0x100) as u8,
        (value / 0x100 % 0x100) as u8,
        (value / 0x1_0000 % 0x100) as u8,
        (value / 0x100_0000) as u8,
    ]
}

/// Reads the 16-bit integer at `at`.
pub fn get_u16(bytes: &[u8], at: usize) -> (value: u16)
    requires
        at + 2 <= bytes@.len(),
    ensures
        value == le_u16(bytes@, at as int),
{
    bytes[at] as u16 + 0x100 * (bytes[at + 1] as u16)
}

/// Reads the 32-bit integer at `at`.
pub fn get_u32(bytes: &[u8], at: usize) -> (value: u32)
    requires
        at + 4 <= bytes@.len(),
    ensures
        value == le_u32(bytes@, at as int),
{
    bytes[at] as u32 + 0x100 * (bytes[at + 1] as u32) + 0x1_0000 * (bytes[at + 2] as u32)
        + 0x100_0000 * (bytes[at + 3] as u32)
}

/// Reads the two's complement 32-bit integer at `at`.
pub fn get_i32(bytes: &[u8], at: usize) -> (value: i32)
    requires
        at + 4 <= bytes@.len(),
    ensures
        value == le_i32(bytes@, at as int),
{
    get_u32(bytes, at) as i32
}

/// Splits `value` into its four bytes, least significant first.
pub fn put_u32(value: u32) -> (bytes: [u8; 4])
    ensures
        bytes@ == le_bytes(value),
{
    [
        (value % 0x100) as u8,
        (value / 0x100 % 0x100) as u8,
        (value / 0x1_0000 % 0x100) as u8,
        (value / 0x100_0000) as u8,
    ]
}

/// Reading the bytes of an integer gives the integer back.
pub proof fn le_round_trip(value: u32)
    ensures
        le_u32(le_bytes(value), 0) == value,
{
}

/// An integer is determined by its four bytes, wherever they stand.
pub proof fn le_u32_of_subrange(bytes: Seq<u8>, at: int)
    requires
        0 <= at,
        at + 4 <= bytes.len(),
    ensures
        le_u32(bytes.subrange(at, at + 4), 0) == le_u32(bytes, at),
        le_bytes(le_u32(bytes, at)) == bytes.subrange(at, at + 4),
{
}

} // verus!
