//! Copies of static data out of Wasm linear memory: sized arrays, arrays whose
//! end is inferred, strings, and tables of strings.

use vstd::prelude::*;

use crate::bytes::{get_i32, le_i32};
use crate::memory::{first_nul, first_nul_is_nearest, in_memory, WasmMemoryView};

verus! {

/// The contents of an array, where there is one.
pub open spec fn contents(array: Option<Vec<u8>>) -> Option<Seq<u8>> {
    match array {
        Some(bytes) => Some(bytes@),
        None => None,
    }
}

/// Whether an array of `size` bytes at `address` can be copied. An empty one
/// always can.
pub open spec fn sized_ok(memory: Seq<u8>, address: int, size: int) -> bool {
    size == 0 || in_memory(memory, address, size)
}

/// The array of `size` bytes at `address`. An empty one has no copy.
pub open spec fn sized_copy(memory: Seq<u8>, address: int, size: int) -> Option<Seq<u8>> {
    if size == 0 {
        None
    } else {
        Some(memory.subrange(address, address + size))
    }
}

/// Copies a sized array out of Wasm memory. Does nothing, and does not fail,
/// once `ok` is false or where the size is zero.
pub fn copy(view: &WasmMemoryView, address: i32, size: u128, ok: &mut bool) -> (array: Option<
    Vec<u8>,
>)
    ensures
        *final(ok) == (*old(ok) && sized_ok(view@, address as int, size as int)),
        contents(array) == if *final(ok) {
            sized_copy(view@, address as int, size as int)
        } else {
            None
        },
{
    if !*ok || size == 0 {
        return None;
    }
    if size > view.data.len() as u128 || !view.contains(address, size as usize) {
        *ok = false;
        return None;
    }
    let start = address as usize;
    let array = vstd::slice::slice_to_vec(
        vstd::slice::slice_subrange(view.data, start, start + size as usize),
    );
    Some(array)
}

/// The least of `addresses` that is greater than `start`.
pub open spec fn least_above(addresses: Seq<i32>, start: i32) -> Option<i32>
    decreases addresses.len(),
{
    if addresses.len() == 0 {
        None
    } else {
        let rest = least_above(addresses.drop_last(), start);
        let last = addresses.last();
        match rest {
            Some(least) => if start < last < least {
                Some(last)
            } else {
                rest
            },
            None => if start < last {
                Some(last)
            } else {
                None
            },
        }
    }
}

/// `least_above` is one of the addresses, lies above the start, and has no
/// other address above the start in front of it; it is missing only where no
/// address lies above the start.
pub proof fn least_above_is_least(addresses: Seq<i32>, start: i32)
    ensures
        match least_above(addresses, start) {
            Some(least) => {
                &&& addresses.contains(least)
                &&& start < least
                &&& forall|i: int|
                    0 <= i < addresses.len() && start < #[trigger] addresses[i] ==> least
                        <= addresses[i]
            },
            None => forall|i: int| 0 <= i < addresses.len() ==> #[trigger] addresses[i] <= start,
        },
    decreases addresses.len(),
{
    if addresses.len() > 0 {
        let front = addresses.drop_last();
        least_above_is_least(front, start);
        let last = addresses.len() - 1;
        assert(addresses[last] == addresses.last());
        assert forall|i: int| 0 <= i < last implies #[trigger] addresses[i] == front[i] by {}
        if let Some(least) = least_above(front, start) {
            let k = choose|k: int| 0 <= k < front.len() && front[k] == least;
            assert(addresses[k] == least);
        }
    }
}

/// Whether an array that begins at `start`, and ends where the next of
/// `addresses` begins, can be copied.
pub open spec fn unsized_ok(memory: Seq<u8>, start: i32, addresses: Seq<i32>) -> bool {
    start == 0 || (start > 0 && match least_above(addresses, start) {
        Some(end) => in_memory(memory, start as int, end - start),
        None => true,
    })
}

/// The array that begins at `start`, and ends where the next of `addresses`
/// begins. There is none at address zero, nor where no address follows.
pub open spec fn unsized_copy(memory: Seq<u8>, start: i32, addresses: Seq<i32>) -> Option<
    Seq<u8>,
> {
    match least_above(addresses, start) {
        Some(end) => if start == 0 {
            None
        } else {
            Some(memory.subrange(start as int, end as int))
        },
        None => None,
    }
}

/// Copies an array whose length is not recorded in the language object: the
/// end is inferred as the next-highest address among `addresses`.
pub fn copy_unsized_static_array(
    view: &WasmMemoryView,
    start_address: i32,
    addresses: &[i32],
    ok: &mut bool,
) -> (array: Option<Vec<u8>>)
    ensures
        *final(ok) == (*old(ok) && unsized_ok(view@, start_address, addresses@)),
        contents(array) == if *final(ok) {
            unsized_copy(view@, start_address, addresses@)
        } else {
            None
        },
{
    if !*ok || start_address == 0 {
        return None;
    }
    if start_address < 0 {
        *ok = false;
        return None;
    }
    let mut end_address: i32 = 0;
    let mut i: usize = 0;
    while i < addresses.len()
        invariant
            i <= addresses@.len(),
            start_address > 0,
            end_address == 0 || end_address > start_address,
            least_above(addresses@.take(i as int), start_address) == if end_address == 0 {
                None
            } else {
                Some(end_address)
            },
        decreases addresses@.len() - i,
    {
        let address = addresses[i];
        if address > start_address && (end_address == 0 || address < end_address) {
            end_address = address;
        }
        assert(addresses@.take(i + 1).drop_last() == addresses@.take(i as int));
        i += 1;
    }
    assert(addresses@.take(i as int) == addresses@);
    if end_address == 0 {
        return None;
    }
    copy(view, start_address, (end_address - start_address) as u128, ok)
}

/// The NUL-terminated string at `address`, with its terminator.
pub open spec fn string_copy(memory: Seq<u8>, address: int) -> Seq<u8> {
    memory.subrange(address, address + first_nul(memory, address)->0 + 1)
}

/// Copies a NUL-terminated string, including the terminator.
pub fn copy_string(view: &WasmMemoryView, address: i32, ok: &mut bool) -> (array: Option<Vec<u8>>)
    ensures
        *final(ok) == (*old(ok) && first_nul(view@, address as int) is Some),
        contents(array) == if *final(ok) {
            Some(string_copy(view@, address as int))
        } else {
            None
        },
{
    if !*ok {
        return None;
    }
    let length = match view.string_length(address) {
        Some(length) => length,
        None => {
            *ok = false;
            return None;
        },
    };
    proof {
        first_nul_is_nearest(view@, address as int);
    }
    copy(view, address, length as u128 + 1, ok)
}

/// An array of strings copied out of Wasm memory: for each entry the offset of
/// its bytes in `scratch`, or nothing for a null entry. The bytes of each
/// string end in NUL.
pub struct StringTable {
    pub array: Vec<Option<usize>>,
    pub scratch: Vec<u8>,
}

/// The address in entry `index` of the array of strings at `array_address`.
pub open spec fn string_address(memory: Seq<u8>, array_address: int, index: int) -> i32 {
    le_i32(memory, array_address + 4 * index)
}

/// Whether entry `index` is null or points to a NUL-terminated string.
pub open spec fn string_ok(memory: Seq<u8>, array_address: int, index: int) -> bool {
    let address = string_address(memory, array_address, index);
    address == 0 || match first_nul(memory, address as int) {
        Some(length) => length <= u32::MAX,
        None => false,
    }
}

/// Whether the array of `count` strings at `array_address` can be copied.
pub open spec fn strings_ok(memory: Seq<u8>, array_address: int, count: int) -> bool {
    &&& in_memory(memory, array_address, 4 * count)
    &&& forall|index: int|
        0 <= index < count ==> #[trigger] string_ok(memory, array_address, index)
}

/// The bytes of the first `count` strings, one behind the other.
pub open spec fn strings_joined(memory: Seq<u8>, array_address: int, count: int) -> Seq<u8>
    decreases count,
{
    if count <= 0 {
        Seq::empty()
    } else {
        let before = strings_joined(memory, array_address, count - 1);
        let address = string_address(memory, array_address, count - 1);
        if address == 0 {
            before
        } else {
            before + string_copy(memory, address as int)
        }
    }
}

impl StringTable {
    /// Every entry's offset lies inside the bytes.
    pub open spec fn wf(self) -> bool {
        forall|i: int|
            0 <= i < self.array@.len() ==> match #[trigger] self.array@[i] {
                Some(offset) => offset <= self.scratch@.len(),
                None => true,
            }
    }

    /// Whether this is the copy of the array of `count` strings at
    /// `array_address`.
    pub open spec fn is_copy(self, memory: Seq<u8>, array_address: int, count: int) -> bool {
        &&& self.array@.len() == count
        &&& self.scratch@ == strings_joined(memory, array_address, count)
        &&& forall|index: int|
            0 <= index < count ==> match #[trigger] self.array@[index] {
                Some(offset) => {
                    &&& string_address(memory, array_address, index) != 0
                    &&& offset == strings_joined(memory, array_address, index).len()
                },
                None => string_address(memory, array_address, index) == 0,
            }
    }
}

/// What is joined first stays in front of what is joined later.
proof fn strings_joined_grows(memory: Seq<u8>, array_address: int, first: int, count: int)
    requires
        0 <= first <= count,
    ensures
        strings_joined(memory, array_address, first).len() <= strings_joined(
            memory,
            array_address,
            count,
        ).len(),
        strings_joined(memory, array_address, first) == strings_joined(
            memory,
            array_address,
            count,
        ).take(strings_joined(memory, array_address, first).len() as int),
    decreases count - first,
{
    let start = strings_joined(memory, array_address, first);
    if first < count {
        strings_joined_grows(memory, array_address, first, count - 1);
        let shorter = strings_joined(memory, array_address, count - 1);
        let longer = strings_joined(memory, array_address, count);
        assert(longer.take(shorter.len() as int) == shorter);
        assert(longer.take(start.len() as int) == shorter.take(start.len() as int));
    } else {
        assert(start.take(start.len() as int) == start);
    }
}

/// Each entry of a copied table holds its string: from the recorded offset on
/// stand exactly the bytes that the entry points to in Wasm memory, with their
/// terminator.
pub proof fn string_table_holds_strings(
    table: StringTable,
    memory: Seq<u8>,
    array_address: int,
    count: int,
    index: int,
)
    requires
        table.is_copy(memory, array_address, count),
        strings_ok(memory, array_address, count),
        0 <= index < count,
        table.array@[index] is Some,
    ensures
        ({
            let offset = table.array@[index]->0 as int;
            let string = string_copy(
                memory,
                string_address(memory, array_address, index) as int,
            );
            &&& offset + string.len() <= table.scratch@.len()
            &&& table.scratch@.subrange(offset, offset + string.len()) == string
            &&& string.len() > 0
            &&& string.last() == 0
            &&& forall|i: int| 0 <= i < string.len() - 1 ==> string[i] != 0
        }),
{
    let address = string_address(memory, array_address, index) as int;
    let offset = table.array@[index]->0 as int;
    let string = string_copy(memory, address);
    let through = strings_joined(memory, array_address, index + 1);
    assert(string_ok(memory, array_address, index));
    first_nul_is_nearest(memory, address);
    strings_joined_grows(memory, array_address, index + 1, count);
    assert(through == strings_joined(memory, array_address, index) + string);
    assert(through.subrange(offset, offset + string.len()) == string);
    assert(table.scratch@.take(through.len() as int) == through);
    assert(table.scratch@.subrange(offset, offset + string.len()) == through.subrange(
        offset,
        offset + string.len(),
    ));
}

/// Copies an array of `count` strings.
pub fn copy_strings(view: &WasmMemoryView, array_address: i32, count: u64, ok: &mut bool) -> (table:
    Option<StringTable>)
    ensures
        *final(ok) == (*old(ok) && strings_ok(view@, array_address as int, count as int)),
        match table {
            Some(strings) => *final(ok) && strings.wf() && strings.is_copy(
                view@,
                array_address as int,
                count as int,
            ),
            None => !*final(ok),
        },
{
    if !*ok {
        return None;
    }
    if count > view.data.len() as u64 / 4 || !view.contains(array_address, count as usize * 4) {
        *ok = false;
        return None;
    }
    let start = array_address as usize;
    let total = count as usize;
    let mut array: Vec<Option<usize>> = Vec::new();
    let mut scratch: Vec<u8> = Vec::new();
    let mut index: usize = 0;
    while index < total
        invariant
            index <= total,
            total == count,
            start == array_address,
            in_memory(view@, start as int, 4 * total),
            start + 4 * total <= view.data.len(),
            forall|i: int| 0 <= i < index ==> #[trigger] string_ok(view@, start as int, i),
            (StringTable { array, scratch }).is_copy(view@, start as int, index as int),
            (StringTable { array, scratch }).wf(),
            *ok,
            *old(ok),
        decreases total - index,
    {
        let address = get_i32(view.data, start + index * 4);
        assert(address == string_address(view@, start as int, index as int));
        if address == 0 {
            array.push(None);
        } else {
            let length = match view.string_length(address) {
                Some(length) => length,
                None => {
                    assert(!string_ok(view@, start as int, index as int));
                    *ok = false;
                    return None;
                },
            };
            if length as u64 > u32::MAX as u64 {
                assert(!string_ok(view@, start as int, index as int));
                *ok = false;
                return None;
            }
            proof {
                first_nul_is_nearest(view@, address as int);
            }
            let offset = scratch.len();
            let from = address as usize;
            let string = vstd::slice::slice_subrange(view.data, from, from + length + 1);
            append_bytes(&mut scratch, string);
            array.push(Some(offset));
        }
        assert(string_ok(view@, start as int, index as int));
        index += 1;
    }
    Some(StringTable { array, scratch })
}

/// Appends `more` to `bytes`.
fn append_bytes(bytes: &mut Vec<u8>, more: &[u8])
    ensures
        final(bytes)@ == old(bytes)@ + more@,
{
    let mut i: usize = 0;
    while i < more.len()
        invariant
            i <= more@.len(),
            bytes@ == old(bytes)@ + more@.take(i as int),
        decreases more@.len() - i,
    {
        bytes.push(more[i]);
        i += 1;
        assert(more@.take(i as int) == more@.take(i - 1).push(more@[i - 1]));
    }
    assert(more@.take(i as int) == more@);
}

/// Whether pointers are those of the entries of a table whose bytes are placed at
/// address `buffer`.
pub open spec fn are_pointers(table: StringTable, buffer: usize, pointers: Seq<usize>) -> bool {
    &&& pointers.len() == table.array@.len()
    &&& forall|i: int|
        0 <= i < pointers.len() ==> #[trigger] pointers[i] == match table.array@[i] {
            Some(offset) => buffer + offset,
            None => 0,
        }
}

/// The pointers that stand for the entries of a table whose bytes are placed
/// at address `buffer`: null for a null entry, else the buffer's address
/// displaced by the entry's offset.
pub fn finalize_string_table(table: &StringTable, buffer: usize) -> (pointers: Vec<usize>)
    requires
        buffer + table.scratch.len() <= usize::MAX,
        table.wf(),
    ensures
        pointers@.len() == table.array@.len(),
        forall|i: int|
            0 <= i < pointers@.len() ==> #[trigger] pointers@[i] == match table.array@[i] {
                Some(offset) => buffer + offset,
                None => 0,
            },
        are_pointers(*table, buffer, pointers@),
{
    let mut pointers: Vec<usize> = Vec::new();
    let mut index: usize = 0;
    while index < table.array.len()
        invariant
            index <= table.array@.len(),
            buffer + table.scratch.len() <= usize::MAX,
            table.wf(),
            pointers@.len() == index,
            forall|i: int|
                0 <= i < index ==> #[trigger] pointers@[i] == match table.array@[i] {
                    Some(offset) => buffer + offset,
                    None => 0,
                },
        decreases table.array@.len() - index,
    {
        let pointer = match table.array[index] {
            Some(offset) => buffer + offset,
            None => 0,
        };
        pointers.push(pointer);
        index += 1;
    }
    pointers
}

} // verus!
