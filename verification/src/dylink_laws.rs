//! Where the memory information of a module stands.

use vstd::prelude::*;

use crate::dylink::{
    block, block_bounds, dylink_info, dylink_name, leb128, leb128_reads_back, mem_info,
    module_header, search_custom_section, search_sections, search_subsections, uleb128,
    uleb128_rest, uleb128_rest_bounds, written_memory_information_is_found, DylinkInfo,
    WASM_CUSTOM_SECTION, WASM_DYLINK_MEM_INFO,
};

verus! {

/// The seven bits of byte `index` of a number that stands from `at` to `next`.
pub open spec fn group(data: Seq<u8>, at: int, next: int, index: int) -> int {
    if at + index < next {
        data[at + index] as int % 128
    } else {
        0
    }
}

/// Whether `value` stands from `at` to `next`: seven bits to a byte, the low ones
/// first, in at most five bytes, of which only the last is below 128; and whether
/// it fits into 32 bits.
pub open spec fn number_stands(data: Seq<u8>, at: int, next: int, value: int) -> bool {
    &&& 1 <= next - at <= 5
    &&& data[next - 1] < 128
    &&& forall|i: int| at <= i < next - 1 ==> #[trigger] data[i] >= 128
    &&& value == group(data, at, next, 0) + 128 * group(data, at, next, 1) + 16384 * group(
        data,
        at,
        next,
        2,
    ) + 2097152 * group(data, at, next, 3) + 268435456 * group(data, at, next, 4)
    &&& value <= 4294967295
}

/// A number is read exactly where it stands, and it is the number that stands
/// there.
pub proof fn numbers_are_read_where_they_stand(data: Seq<u8>, at: int, end: int)
    ensures
        match uleb128(data, at, end) {
            Some((value, next)) => next <= end && number_stands(data, at, next, value as int),
            None => forall|next: int, value: int|
                next <= end ==> !#[trigger] number_stands(data, at, next, value),
        },
{
    reveal_with_fuel(uleb128_rest, 6);
    uleb128_rest_bounds(data, at, end, 0);
    if uleb128(data, at, end) is None {
        assert forall|next: int, value: int| next <= end implies !#[trigger] number_stands(
            data,
            at,
            next,
            value,
        ) by {
            if number_stands(data, at, next, value) {
                if next > at + 1 {
                    assert(data[at] >= 128);
                }
                if next > at + 2 {
                    assert(data[at + 1] >= 128);
                }
                if next > at + 3 {
                    assert(data[at + 2] >= 128);
                }
                if next > at + 4 {
                    assert(data[at + 3] >= 128);
                    assert(group(data, at, next, 4) == data[at + 4]);
                }
            }
        }
    }
}

/// A module with memory information in its first section: the eight bytes that
/// open every module, a custom section that is called `dylink.0`, and in it a
/// subsection of type one with four numbers, the sizes and alignments of the data
/// and of the table entries.
pub open spec fn module_bytes(info: DylinkInfo, rest: Seq<u8>) -> Seq<u8> {
    let numbers = leb128(info.memory_size as nat) + leb128(info.memory_align as nat) + leb128(
        info.table_size as nat,
    ) + leb128(info.table_align as nat);
    let section = seq![8u8, 0x64u8, 0x79u8, 0x6cu8, 0x69u8, 0x6eu8, 0x6bu8, 0x2eu8, 0x30u8, 1u8]
        + leb128(numbers.len()) + numbers;
    seq![0x00u8, 0x61u8, 0x73u8, 0x6du8, 0x01u8, 0x00u8, 0x00u8, 0x00u8, 0u8] + leb128(
        section.len(),
    ) + section + rest
}

/// How every module, and a custom section behind, opens.
proof fn modules_open_like_this()
    ensures
        module_header() + seq![WASM_CUSTOM_SECTION] == seq![
            0x00u8,
            0x61u8,
            0x73u8,
            0x6du8,
            0x01u8,
            0x00u8,
            0x00u8,
            0x00u8,
            0u8,
        ],
{
}

/// How a `dylink.0` section, and memory information in it, opens.
proof fn sections_open_like_this()
    ensures
        leb128(8) + dylink_name() + seq![WASM_DYLINK_MEM_INFO] == seq![
            8u8,
            0x64u8,
            0x79u8,
            0x6cu8,
            0x69u8,
            0x6eu8,
            0x6bu8,
            0x2eu8,
            0x30u8,
            1u8,
        ],
{
    assert(leb128(8) =~= seq![8u8]);
}

/// The memory information of a module is what its first `dylink.0` section says.
pub proof fn memory_information_is_what_stands(info: DylinkInfo, rest: Seq<u8>)
    ensures
        dylink_info(module_bytes(info, rest)) == Some(info),
{
    written_memory_information_is_found(info, rest);
    modules_open_like_this();
    sections_open_like_this();
}

/// What does not open like a module has no memory information.
pub proof fn only_modules_have_memory_information(data: Seq<u8>)
    requires
        dylink_info(data) is Some,
    ensures
        data.len() > 8,
        data[0] == 0,
        data[1] == 0x61,
        data[2] == 0x73,
        data[3] == 0x6d,
        data[4] == 1,
        data[5] == 0,
        data[6] == 0,
        data[7] == 0,
{
    let header = data.subrange(0, 8);
    assert(header[0] == 0 && header[1] == 0x61 && header[2] == 0x73 && header[3] == 0x6d
        && header[4] == 1 && header[5] == 0 && header[6] == 0 && header[7] == 0);
}

/// Whether `later` holds from some way on what `data` holds, `by` bytes further.
pub open spec fn moved(data: Seq<u8>, later: Seq<u8>, from: int, by: int) -> bool {
    &&& later.len() == data.len() + by
    &&& forall|i: int| from <= i < data.len() ==> #[trigger] later[i + by] == data[i]
}

/// A number that moved is read there.
proof fn moved_numbers_are_read(
    data: Seq<u8>,
    later: Seq<u8>,
    from: int,
    by: int,
    at: int,
    end: int,
    index: nat,
)
    requires
        moved(data, later, from, by),
        0 <= from <= at,
        0 <= by,
        end <= data.len(),
    ensures
        uleb128_rest(later, at + by, end + by, index) == match uleb128_rest(data, at, end, index) {
            Some((value, next)) => Some((value, next + by)),
            None => None,
        },
    decreases 5 - index,
{
    if index < 5 && at < end {
        assert(later[at + by] == data[at]);
        moved_numbers_are_read(data, later, from, by, at + 1, end, index + 1);
    }
}

/// A block that moved is found there.
proof fn moved_blocks_are_found(
    data: Seq<u8>,
    later: Seq<u8>,
    from: int,
    by: int,
    at: int,
    end: int,
)
    requires
        moved(data, later, from, by),
        0 <= from <= at,
        0 <= by,
        end <= data.len(),
    ensures
        block(later, at + by, end + by) == match block(data, at, end) {
            Some((start, stop)) => Some((start + by, stop + by)),
            None => None,
        },
{
    moved_numbers_are_read(data, later, from, by, at, end, 0);
}

/// Memory information that moved is read there.
proof fn moved_memory_information_is_read(
    data: Seq<u8>,
    later: Seq<u8>,
    from: int,
    by: int,
    at: int,
    end: int,
)
    requires
        moved(data, later, from, by),
        0 <= from <= at,
        0 <= by,
        end <= data.len(),
    ensures
        mem_info(later, at + by, end + by) == mem_info(data, at, end),
{
    moved_numbers_are_read(data, later, from, by, at, end, 0);
    uleb128_rest_bounds(data, at, end, 0);
    if let Some((_, at1)) = uleb128(data, at, end) {
        moved_numbers_are_read(data, later, from, by, at1, end, 0);
        uleb128_rest_bounds(data, at1, end, 0);
        if let Some((_, at2)) = uleb128(data, at1, end) {
            moved_numbers_are_read(data, later, from, by, at2, end, 0);
            uleb128_rest_bounds(data, at2, end, 0);
            if let Some((_, at3)) = uleb128(data, at2, end) {
                moved_numbers_are_read(data, later, from, by, at3, end, 0);
            }
        }
    }
}

/// Subsections that moved are searched there.
proof fn moved_subsections_are_searched(
    data: Seq<u8>,
    later: Seq<u8>,
    from: int,
    by: int,
    at: int,
    end: int,
)
    requires
        moved(data, later, from, by),
        0 <= from <= at,
        0 <= by,
        end <= data.len(),
    ensures
        search_subsections(later, at + by, end + by) == search_subsections(data, at, end),
    decreases end - at,
{
    if at < end {
        assert(later[at + by] == data[at]);
        moved_blocks_are_found(data, later, from, by, at + 1, end);
        block_bounds(data, at + 1, end);
        if let Some((start, stop)) = block(data, at + 1, end) {
            moved_memory_information_is_read(data, later, from, by, start, stop);
            moved_subsections_are_searched(data, later, from, by, stop, end);
        }
    }
}

/// A custom section that moved is searched there.
proof fn moved_custom_sections_are_searched(
    data: Seq<u8>,
    later: Seq<u8>,
    from: int,
    by: int,
    at: int,
    end: int,
)
    requires
        moved(data, later, from, by),
        0 <= from <= at,
        0 <= by,
        end <= data.len(),
    ensures
        search_custom_section(later, at + by, end + by) == search_custom_section(data, at, end),
{
    moved_blocks_are_found(data, later, from, by, at, end);
    block_bounds(data, at, end);
    if let Some((start, stop)) = block(data, at, end) {
        assert forall|i: int| 0 <= i < stop - start implies later.subrange(start + by, stop + by)[i]
            == data.subrange(start, stop)[i] by {
            assert(later[(start + i) + by] == data[start + i]);
        }
        assert(later.subrange(start + by, stop + by) =~= data.subrange(start, stop));
        moved_subsections_are_searched(data, later, from, by, stop, end);
    }
}

/// Sections that moved are searched there.
proof fn moved_sections_are_searched(data: Seq<u8>, later: Seq<u8>, from: int, by: int, at: int)
    requires
        moved(data, later, from, by),
        0 <= from <= at,
        0 <= by,
    ensures
        search_sections(later, at + by) == search_sections(data, at),
    decreases data.len() - at,
{
    if at < data.len() {
        let end = data.len() as int;
        assert(later[at + by] == data[at]);
        moved_blocks_are_found(data, later, from, by, at + 1, end);
        block_bounds(data, at + 1, end);
        if let Some((start, stop)) = block(data, at + 1, end) {
            moved_custom_sections_are_searched(data, later, from, by, start, stop);
            moved_sections_are_searched(data, later, from, by, stop);
        }
    }
}

/// A section that is not a custom one, whatever it holds, does not matter: the
/// module has the memory information that it would have without that section.
pub proof fn other_sections_do_not_matter(kind: u8, section: Seq<u8>, rest: Seq<u8>)
    requires
        kind != 0,
        section.len() <= u32::MAX,
    ensures
        ({
            let header = seq![0x00u8, 0x61u8, 0x73u8, 0x6du8, 0x01u8, 0x00u8, 0x00u8, 0x00u8];
            dylink_info(header + seq![kind] + leb128(section.len()) + section + rest)
                == dylink_info(header + rest)
        }),
{
    let header = seq![0x00u8, 0x61u8, 0x73u8, 0x6du8, 0x01u8, 0x00u8, 0x00u8, 0x00u8];
    let length = leb128(section.len());
    let data = header + rest;
    let later = header + seq![kind] + length + section + rest;
    let by = 1 + length.len() + section.len() as int;
    assert(data.subrange(0, 8) =~= header);
    assert(later.subrange(0, 8) =~= header);
    assert(later[8] == kind);
    assert(later.subrange(9, 9int + length.len()) =~= length);
    leb128_reads_back(later, 9, later.len() as int, section.len(), 0);
    assert(block(later, 9, later.len() as int) == Some(
        (9 + length.len() as int, 8 + by),
    ));
    assert forall|i: int| 8 <= i < data.len() implies #[trigger] later[i + by] == data[i] by {
        assert(data[i] == rest[i - 8]);
    }
    moved_sections_are_searched(data, later, 8, by, 8);
}

/// A custom section that is called anything but `dylink.0` does not matter either.
pub proof fn other_custom_sections_do_not_matter(
    name: Seq<u8>,
    content: Seq<u8>,
    rest: Seq<u8>,
)
    requires
        name != seq![0x64u8, 0x79u8, 0x6cu8, 0x69u8, 0x6eu8, 0x6bu8, 0x2eu8, 0x30u8],
        leb128(name.len()).len() + name.len() + content.len() <= u32::MAX,
    ensures
        ({
            let header = seq![0x00u8, 0x61u8, 0x73u8, 0x6du8, 0x01u8, 0x00u8, 0x00u8, 0x00u8];
            let section = leb128(name.len()) + name + content;
            dylink_info(header + seq![0u8] + leb128(section.len()) + section + rest)
                == dylink_info(header + rest)
        }),
{
    let header = seq![0x00u8, 0x61u8, 0x73u8, 0x6du8, 0x01u8, 0x00u8, 0x00u8, 0x00u8];
    let prefix = leb128(name.len());
    let section = prefix + name + content;
    let length = leb128(section.len());
    let data = header + rest;
    let later = header + seq![0u8] + length + section + rest;
    let start = 9 + length.len() as int;
    let by = 1 + length.len() + section.len() as int;
    assert(data.subrange(0, 8) =~= header);
    assert(later.subrange(0, 8) =~= header);
    assert(later[8] == 0);
    assert(later.subrange(9, 9int + length.len()) =~= length);
    leb128_reads_back(later, 9, later.len() as int, section.len(), 0);
    assert(block(later, 9, later.len() as int) == Some((start, 8 + by)));
    assert(later.subrange(start, start + prefix.len()) =~= prefix);
    leb128_reads_back(later, start, 8 + by, name.len(), 0);
    let named = start + prefix.len();
    assert(block(later, start, 8 + by) == Some((named, named + name.len())));
    assert(later.subrange(named, named + name.len()) =~= name);
    assert(dylink_name() =~= seq![
        0x64u8,
        0x79u8,
        0x6cu8,
        0x69u8,
        0x6eu8,
        0x6bu8,
        0x2eu8,
        0x30u8,
    ]);
    assert(search_custom_section(later, start, 8 + by) is Absent);
    assert forall|i: int| 8 <= i < data.len() implies #[trigger] later[i + by] == data[i] by {
        assert(data[i] == rest[i - 8]);
    }
    moved_sections_are_searched(data, later, 8, by, 8);
}

} // verus!
