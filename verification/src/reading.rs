//! What stands in bytes, spelled out: numbers, regions and strings. The laws
//! are stated in these words.

use vstd::prelude::*;

use crate::bytes::{le_i32, le_u16, le_u32};

verus! {

/// The number in two bytes, the low one first.
pub open spec fn half(bytes: Seq<u8>, at: int) -> int {
    bytes[at] + 256 * bytes[at + 1]
}

/// The number in four bytes, the low one first.
pub open spec fn word(bytes: Seq<u8>, at: int) -> int {
    bytes[at] + 256 * bytes[at + 1] + 65536 * bytes[at + 2] + 16777216 * bytes[at + 3]
}

/// A number of 32 bits as two's complement has it.
pub open spec fn signed(number: int) -> int {
    if number >= 2147483648 {
        number - 4294967296
    } else {
        number
    }
}

/// The address in four bytes.
pub open spec fn pointer(bytes: Seq<u8>, at: int) -> int {
    signed(word(bytes, at))
}

/// Whether `size` bytes at `at` lie inside; none always do.
pub open spec fn lies_in(bytes: Seq<u8>, at: int, size: int) -> bool {
    size == 0 || (0 <= at && 0 < size && at + size <= bytes.len())
}

/// Whether `part` stands at `at`, byte by byte.
pub open spec fn stands_at(bytes: Seq<u8>, at: int, part: Seq<u8>) -> bool {
    &&& 0 <= at
    &&& at + part.len() <= bytes.len()
    &&& forall|i: int| 0 <= i < part.len() ==> #[trigger] part[i] == bytes[at + i]
}

/// Whether `array` holds the `size` bytes that stand at `at`; it is missing where
/// there are none.
pub open spec fn holds(array: Option<Vec<u8>>, bytes: Seq<u8>, at: int, size: int) -> bool {
    match array {
        Some(part) => size > 0 && part@.len() == size && stands_at(bytes, at, part@),
        None => size == 0,
    }
}

/// Whether the string at `at` has `length` bytes, and a NUL behind them.
pub open spec fn c_string(bytes: Seq<u8>, at: int, length: int) -> bool {
    &&& 0 <= at
    &&& 0 <= length
    &&& at + length < bytes.len()
    &&& bytes[at + length] == 0
    &&& forall|i: int| 0 <= i < length ==> bytes[#[trigger] (at + i)] != 0
}

/// A number of 32 bits that is cast to a signed one is what two's complement
/// says.
pub proof fn cast_is_signed(number: u32)
    ensures
        (number as i32) as int == signed(number as int),
{
    assert(number < 0x8000_0000u32 ==> number as i32 == number) by (bit_vector);
    assert(number >= 0x8000_0000u32 ==> number as i32 == number - 0x1_0000_0000) by (bit_vector);
}

/// A signed number of 32 bits and its cast stand for each other.
pub proof fn cast_back_is_signed(number: i32)
    ensures
        signed((number as u32) as int) == number,
{
    assert(number >= 0i32 ==> number as u32 == number) by (bit_vector);
    assert(number < 0i32 ==> number as u32 == number + 0x1_0000_0000) by (bit_vector);
}

/// What is read out of bytes is what stands there.
pub proof fn reads_what_stands(bytes: Seq<u8>, at: int)
    ensures
        le_u16(bytes, at) == half(bytes, at),
        le_u32(bytes, at) == word(bytes, at),
        le_i32(bytes, at) == pointer(bytes, at),
{
    cast_is_signed(le_u32(bytes, at));
}

} // verus!
