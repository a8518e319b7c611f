//! Which modules have memory information, and where it stands.

use vstd::prelude::*;

use crate::dylink::{
    block, block_bounds, dylink_info, dylink_name, mem_info, module_header, search_custom_section,
    search_sections, search_subsections, uleb128, DylinkInfo, Search,
};
use crate::dylink_laws::{number_stands, numbers_are_read_where_they_stand};

verus! {

/// Whether a block stands at `at`: the number of its bytes, which fill it from
/// `start` to `stop`, and lie before `end`.
#[verifier::opaque]
pub open spec fn block_stands(data: Seq<u8>, at: int, end: int, start: int, stop: int) -> bool {
    &&& number_stands(data, at, start, stop - start)
    &&& start <= stop <= end
}

/// Whether four numbers fill the bytes from `start` to `stop`: the size of the
/// data and its alignment, then the number of table entries and their alignment.
pub open spec fn numbers_fill(data: Seq<u8>, start: int, stop: int, info: DylinkInfo) -> bool {
    exists|first: int, second: int, third: int|
        {
            &&& #[trigger] number_stands(data, start, first, info.memory_size as int)
            &&& #[trigger] number_stands(data, first, second, info.memory_align as int)
            &&& #[trigger] number_stands(data, second, third, info.table_size as int)
            &&& number_stands(data, third, stop, info.table_align as int)
        }
}

/// Whether there is one block behind the other, each behind a byte that says its
/// type, at the places of `path`.
pub open spec fn is_chain(data: Seq<u8>, path: Seq<int>, end: int) -> bool {
    &&& path.len() > 0
    &&& forall|k: int|
        0 <= k < path.len() - 1 ==> is_link(data, #[trigger] path[k], path[k + 1], end)
}

/// Whether a block stands behind the byte at `at`, and ends at `next`.
pub open spec fn is_link(data: Seq<u8>, at: int, next: int, end: int) -> bool {
    at < end && exists|start: int| #[trigger] block_stands(data, at + 1, end, start, next)
}

/// Whether the subsections from `from` to `end` tell the memory information: it
/// fills the first one of type one.
pub open spec fn tells(data: Seq<u8>, from: int, end: int, info: DylinkInfo) -> bool {
    exists|path: Seq<int>| #[trigger] tells_along(data, path, end, info) && path[0] == from
}

/// Whether the last subsection of a chain tells the memory information, and the
/// others are of other types.
pub open spec fn tells_along(
    data: Seq<u8>,
    path: Seq<int>,
    end: int,
    info: DylinkInfo,
) -> bool {
    let last = path[path.len() - 1];
    &&& is_chain(data, path, end)
    &&& forall|k: int| 0 <= k < path.len() - 1 ==> data[#[trigger] path[k]] != 1
    &&& last < end
    &&& data[last] == 1
    &&& exists|start: int, stop: int|
        #[trigger] block_stands(data, last + 1, end, start, stop) && numbers_fill(
            data,
            start,
            stop,
            info,
        )
}

/// Whether there are only subsections of other types from `from` to `end`.
pub open spec fn tells_nothing(data: Seq<u8>, from: int, end: int) -> bool {
    exists|path: Seq<int>| #[trigger] nothing_along(data, path, end) && path[0] == from
}

/// Whether a chain has no subsection of type one, and leads to the end.
pub open spec fn nothing_along(data: Seq<u8>, path: Seq<int>, end: int) -> bool {
    &&& is_chain(data, path, end)
    &&& forall|k: int| 0 <= k < path.len() - 1 ==> data[#[trigger] path[k]] != 1
    &&& path[path.len() - 1] >= end
}

/// Whether the bytes from `start` to `stop` are `dylink.0`.
pub open spec fn is_the_name(data: Seq<u8>, start: int, stop: int) -> bool {
    &&& stop - start == 8
    &&& data[start] == 0x64
    &&& data[start + 1] == 0x79
    &&& data[start + 2] == 0x6c
    &&& data[start + 3] == 0x69
    &&& data[start + 4] == 0x6e
    &&& data[start + 5] == 0x6b
    &&& data[start + 6] == 0x2e
    &&& data[start + 7] == 0x30
}

/// Whether a custom section from `start` to `stop` is called `dylink.0`, and tells
/// the memory information.
pub open spec fn named_and_tells(
    data: Seq<u8>,
    start: int,
    stop: int,
    info: DylinkInfo,
) -> bool {
    exists|name: int, behind: int|
        {
            &&& #[trigger] block_stands(data, start, stop, name, behind)
            &&& is_the_name(data, name, behind)
            &&& tells(data, behind, stop, info)
        }
}

/// Whether a custom section from `start` to `stop` has a name and tells nothing:
/// it is called otherwise, or has only other subsections.
pub open spec fn named_and_tells_nothing(data: Seq<u8>, start: int, stop: int) -> bool {
    exists|name: int, behind: int|
        {
            &&& #[trigger] block_stands(data, start, stop, name, behind)
            &&& is_the_name(data, name, behind) ==> tells_nothing(data, behind, stop)
        }
}

/// Whether the section at `at` tells the memory information: it is a custom one,
/// of type zero.
pub open spec fn section_tells(data: Seq<u8>, at: int, info: DylinkInfo) -> bool {
    &&& at < data.len()
    &&& data[at] == 0
    &&& exists|start: int, stop: int|
        #[trigger] block_stands(data, at + 1, data.len() as int, start, stop) && named_and_tells(
            data,
            start,
            stop,
            info,
        )
}

/// Whether the section at `at`, which ends at `next`, tells nothing.
pub open spec fn section_tells_nothing(data: Seq<u8>, at: int, next: int) -> bool {
    &&& at < data.len()
    &&& exists|start: int|
        #[trigger] block_stands(data, at + 1, data.len() as int, start, next) && (data[at] != 0
            || named_and_tells_nothing(data, start, next))
}

/// Whether a module tells the memory information: the first of its sections that
/// tells anything does.
pub open spec fn module_tells(data: Seq<u8>, info: DylinkInfo) -> bool {
    &&& data.len() >= 8
    &&& data[0] == 0
    &&& data[1] == 0x61
    &&& data[2] == 0x73
    &&& data[3] == 0x6d
    &&& data[4] == 1
    &&& data[5] == 0
    &&& data[6] == 0
    &&& data[7] == 0
    &&& sections_tell(data, 8, info)
}

/// Whether the first section from `from` on that tells anything tells the memory
/// information.
pub open spec fn sections_tell(data: Seq<u8>, from: int, info: DylinkInfo) -> bool {
    exists|path: Seq<int>| #[trigger] sections_along(data, path, info) && path[0] == from
}

/// Whether the last section of a chain tells the memory information, and the
/// others tell nothing.
pub open spec fn sections_along(data: Seq<u8>, path: Seq<int>, info: DylinkInfo) -> bool {
    &&& path.len() > 0
    &&& forall|k: int|
        0 <= k < path.len() - 1 ==> section_tells_nothing(data, #[trigger] path[k], path[k + 1])
    &&& section_tells(data, path[path.len() - 1], info)
}

/// Only one number stands at a place.
proof fn numbers_stand_once(data: Seq<u8>, at: int, end: int, next: int, value: int)
    requires
        number_stands(data, at, next, value),
        next <= end,
    ensures
        uleb128(data, at, end) == Some((value as nat, next)),
        0 <= value,
{
    numbers_are_read_where_they_stand(data, at, end);
    let (found, behind) = uleb128(data, at, end)->0;
    if behind < next {
        assert(data[behind - 1] >= 128);
    }
    if next < behind {
        assert(data[next - 1] >= 128);
    }
}

/// A block is found where it stands.
proof fn blocks_are_found_where_they_stand(
    data: Seq<u8>,
    at: int,
    end: int,
    start: int,
    stop: int,
)
    ensures
        block(data, at, end) == Some((start, stop)) <==> block_stands(
            data,
            at,
            end,
            start,
            stop,
        ),
{
    reveal(block_stands);
    numbers_are_read_where_they_stand(data, at, end);
    if block_stands(data, at, end, start, stop) {
        numbers_stand_once(data, at, end, start, stop - start);
    }
}

/// Memory information is read where it stands.
proof fn four_numbers_are_read(data: Seq<u8>, start: int, stop: int, info: DylinkInfo)
    ensures
        mem_info(data, start, stop) == Some(info) <==> numbers_fill(data, start, stop, info),
{
    if mem_info(data, start, stop) == Some(info) {
        numbers_are_read_where_they_stand(data, start, stop);
        let first = (uleb128(data, start, stop)->0).1;
        numbers_are_read_where_they_stand(data, first, stop);
        let second = (uleb128(data, first, stop)->0).1;
        numbers_are_read_where_they_stand(data, second, stop);
        let third = (uleb128(data, second, stop)->0).1;
        numbers_are_read_where_they_stand(data, third, stop);
        assert(number_stands(data, start, first, info.memory_size as int));
        assert(number_stands(data, first, second, info.memory_align as int));
        assert(number_stands(data, second, third, info.table_size as int));
    }
    if numbers_fill(data, start, stop, info) {
        let (first, second, third) = choose|first: int, second: int, third: int|
            {
                &&& #[trigger] number_stands(data, start, first, info.memory_size as int)
                &&& #[trigger] number_stands(data, first, second, info.memory_align as int)
                &&& #[trigger] number_stands(data, second, third, info.table_size as int)
                &&& number_stands(data, third, stop, info.table_align as int)
            };
        numbers_stand_once(data, start, stop, first, info.memory_size as int);
        numbers_stand_once(data, first, stop, second, info.memory_align as int);
        numbers_stand_once(data, second, stop, third, info.table_size as int);
        numbers_stand_once(data, third, stop, stop, info.table_align as int);
    }
}

/// A chain with one more link in front.
proof fn chains_grow_in_front(data: Seq<u8>, at: int, path: Seq<int>, end: int)
    requires
        is_chain(data, path, end),
        is_link(data, at, path[0], end),
    ensures
        is_chain(data, seq![at] + path, end),
{
    let longer = seq![at] + path;
    assert forall|k: int| 0 <= k < longer.len() - 1 implies is_link(
        data,
        #[trigger] longer[k],
        longer[k + 1],
        end,
    ) by {
        if k > 0 {
            assert(is_link(data, path[k - 1], path[k], end));
        }
    }
}

/// What a search of subsections comes to stands there.
proof fn found_subsections_stand(data: Seq<u8>, at: int, end: int)
    ensures
        match search_subsections(data, at, end) {
            Search::Found(info) => tells(data, at, end, info),
            Search::Absent => tells_nothing(data, at, end),
            Search::Malformed => true,
        },
    decreases end - at,
{
    if at >= end {
        let path = seq![at];
        assert(nothing_along(data, path, end));
    } else if let Some((start, stop)) = block(data, at + 1, end) {
        block_bounds(data, at + 1, end);
        blocks_are_found_where_they_stand(data, at + 1, end, start, stop);
        if data[at] == 1 {
            if let Some(info) = mem_info(data, start, stop) {
                four_numbers_are_read(data, start, stop, info);
                let path = seq![at];
                assert(block_stands(data, at + 1, end, start, stop));
                assert(tells_along(data, path, end, info));
            }
        } else {
            found_subsections_stand(data, stop, end);
            assert(is_link(data, at, stop, end));
            match search_subsections(data, stop, end) {
                Search::Found(info) => {
                    let path = choose|path: Seq<int>|
                        #[trigger] tells_along(data, path, end, info) && path[0] == stop;
                    chains_grow_in_front(data, at, path, end);
                    let longer = seq![at] + path;
                    assert(longer[longer.len() - 1] == path[path.len() - 1]);
                    assert forall|k: int| 0 <= k < longer.len() - 1 implies data[
                        #[trigger] longer[k]
                    ] != 1 by {
                        if k > 0 {
                            assert(longer[k] == path[k - 1]);
                        }
                    }
                    assert(tells_along(data, longer, end, info));
                },
                Search::Absent => {
                    let path = choose|path: Seq<int>|
                        #[trigger] nothing_along(data, path, end) && path[0] == stop;
                    chains_grow_in_front(data, at, path, end);
                    let longer = seq![at] + path;
                    assert(longer[longer.len() - 1] == path[path.len() - 1]);
                    assert forall|k: int| 0 <= k < longer.len() - 1 implies data[
                        #[trigger] longer[k]
                    ] != 1 by {
                        if k > 0 {
                            assert(longer[k] == path[k - 1]);
                        }
                    }
                    assert(nothing_along(data, longer, end));
                },
                Search::Malformed => {},
            }
        }
    }
}

/// The rest of a chain is one.
proof fn chains_shrink_in_front(data: Seq<u8>, path: Seq<int>, end: int)
    requires
        is_chain(data, path, end),
        path.len() > 1,
    ensures
        is_chain(data, path.skip(1), end),
        path[0] < end,
        exists|start: int| #[trigger] block_stands(data, path[0] + 1, end, start, path[1]),
{
    let rest = path.skip(1);
    assert forall|k: int| 0 <= k < rest.len() - 1 implies is_link(
        data,
        #[trigger] rest[k],
        rest[k + 1],
        end,
    ) by {
        assert(is_link(data, path[k + 1], path[k + 2], end));
    }
    assert(is_link(data, path[0], path[1], end));
}

/// What stands in subsections is found by a search.
proof fn standing_subsections_are_found(
    data: Seq<u8>,
    path: Seq<int>,
    end: int,
    info: DylinkInfo,
)
    requires
        tells_along(data, path, end, info),
    ensures
        search_subsections(data, path[0], end) == Search::Found(info),
    decreases path.len(),
{
    let last = path[path.len() - 1];
    if path.len() > 1 {
        chains_shrink_in_front(data, path, end);
        let start = choose|start: int|
            #[trigger] block_stands(data, path[0] + 1, end, start, path[1]);
        blocks_are_found_where_they_stand(data, path[0] + 1, end, start, path[1]);
        let rest = path.skip(1);
        assert(rest[rest.len() - 1] == last);
        assert forall|k: int| 0 <= k < rest.len() - 1 implies data[#[trigger] rest[k]] != 1 by {
            assert(rest[k] == path[k + 1]);
        }
        assert(tells_along(data, rest, end, info));
        standing_subsections_are_found(data, rest, end, info);
    } else {
        let (start, stop) = choose|start: int, stop: int|
            #[trigger] block_stands(data, last + 1, end, start, stop) && numbers_fill(
                data,
                start,
                stop,
                info,
            );
        blocks_are_found_where_they_stand(data, last + 1, end, start, stop);
        four_numbers_are_read(data, start, stop, info);
    }
}

/// Where nothing stands in subsections, a search finds nothing.
proof fn nothing_is_found_where_nothing_stands(data: Seq<u8>, path: Seq<int>, end: int)
    requires
        nothing_along(data, path, end),
    ensures
        search_subsections(data, path[0], end) is Absent,
    decreases path.len(),
{
    if path.len() > 1 {
        chains_shrink_in_front(data, path, end);
        let start = choose|start: int|
            #[trigger] block_stands(data, path[0] + 1, end, start, path[1]);
        blocks_are_found_where_they_stand(data, path[0] + 1, end, start, path[1]);
        let rest = path.skip(1);
        assert(rest[rest.len() - 1] == path[path.len() - 1]);
        assert forall|k: int| 0 <= k < rest.len() - 1 implies data[#[trigger] rest[k]] != 1 by {
            assert(rest[k] == path[k + 1]);
        }
        nothing_is_found_where_nothing_stands(data, rest, end);
    }
}

/// The name of a section is looked at byte by byte.
proof fn names_are_looked_at(data: Seq<u8>, start: int, stop: int)
    requires
        0 <= start <= stop <= data.len(),
    ensures
        data.subrange(start, stop) == dylink_name() <==> is_the_name(data, start, stop),
{
    let name = data.subrange(start, stop);
    if name == dylink_name() {
        assert(name.len() == 8);
        assert(name[0] == 0x64 && name[1] == 0x79 && name[2] == 0x6c && name[3] == 0x69);
        assert(name[4] == 0x6e && name[5] == 0x6b && name[6] == 0x2e && name[7] == 0x30);
    }
    if is_the_name(data, start, stop) {
        assert(name =~= dylink_name());
    }
}

/// What a search of a custom section comes to stands there.
proof fn found_custom_sections_stand(data: Seq<u8>, start: int, stop: int)
    requires
        0 <= start <= stop <= data.len(),
    ensures
        match search_custom_section(data, start, stop) {
            Search::Found(info) => named_and_tells(data, start, stop, info),
            Search::Absent => named_and_tells_nothing(data, start, stop),
            Search::Malformed => true,
        },
{
    if let Some((name, behind)) = block(data, start, stop) {
        block_bounds(data, start, stop);
        blocks_are_found_where_they_stand(data, start, stop, name, behind);
        names_are_looked_at(data, name, behind);
        found_subsections_stand(data, behind, stop);
        assert(block_stands(data, start, stop, name, behind));
    }
}

/// What stands in a custom section is found by a search.
proof fn standing_custom_sections_are_found(
    data: Seq<u8>,
    start: int,
    stop: int,
    info: DylinkInfo,
)
    requires
        0 <= start <= stop <= data.len(),
    ensures
        named_and_tells(data, start, stop, info) ==> search_custom_section(data, start, stop)
            == Search::Found(info),
        named_and_tells_nothing(data, start, stop) ==> search_custom_section(data, start, stop)
            is Absent,
{
    if named_and_tells(data, start, stop, info) {
        let (name, behind) = choose|name: int, behind: int|
            {
                &&& #[trigger] block_stands(data, start, stop, name, behind)
                &&& is_the_name(data, name, behind)
                &&& tells(data, behind, stop, info)
            };
        blocks_are_found_where_they_stand(data, start, stop, name, behind);
        block_bounds(data, start, stop);
        names_are_looked_at(data, name, behind);
        let path = choose|path: Seq<int>|
            #[trigger] tells_along(data, path, stop, info) && path[0] == behind;
        standing_subsections_are_found(data, path, stop, info);
    }
    if named_and_tells_nothing(data, start, stop) {
        let (name, behind) = choose|name: int, behind: int|
            {
                &&& #[trigger] block_stands(data, start, stop, name, behind)
                &&& is_the_name(data, name, behind) ==> tells_nothing(data, behind, stop)
            };
        blocks_are_found_where_they_stand(data, start, stop, name, behind);
        block_bounds(data, start, stop);
        names_are_looked_at(data, name, behind);
        if is_the_name(data, name, behind) {
            let path = choose|path: Seq<int>|
                #[trigger] nothing_along(data, path, stop) && path[0] == behind;
            nothing_is_found_where_nothing_stands(data, path, stop);
        }
    }
}

/// What a search of sections finds stands there.
proof fn found_sections_stand(data: Seq<u8>, at: int, info: DylinkInfo)
    requires
        0 <= at,
        search_sections(data, at) == Search::Found(info),
    ensures
        sections_tell(data, at, info),
    decreases data.len() - at,
{
    let end = data.len() as int;
    let (start, stop) = block(data, at + 1, end)->0;
    block_bounds(data, at + 1, end);
    blocks_are_found_where_they_stand(data, at + 1, end, start, stop);
    found_custom_sections_stand(data, start, stop);
    if data[at] == 0 && search_custom_section(data, start, stop) == Search::Found(info) {
        let path = seq![at];
        assert(section_tells(data, at, info));
        assert(sections_along(data, path, info));
    } else {
        found_sections_stand(data, stop, info);
        let path = choose|path: Seq<int>|
            #[trigger] sections_along(data, path, info) && path[0] == stop;
        assert(section_tells_nothing(data, at, stop));
        sections_grow_in_front(data, at, path, info);
    }
}

/// Sections with one more in front that tells nothing.
proof fn sections_grow_in_front(data: Seq<u8>, at: int, path: Seq<int>, info: DylinkInfo)
    requires
        section_tells_nothing(data, at, path[0]),
        sections_along(data, path, info),
    ensures
        sections_tell(data, at, info),
{
    let longer = seq![at] + path;
    assert(longer[longer.len() - 1] == path[path.len() - 1]);
    assert forall|k: int| 0 <= k < longer.len() - 1 implies section_tells_nothing(
        data,
        #[trigger] longer[k],
        longer[k + 1],
    ) by {
        if k > 0 {
            assert(section_tells_nothing(data, path[k - 1], path[k]));
        }
    }
    assert(sections_along(data, longer, info));
}

/// What stands in sections is found by a search.
proof fn standing_sections_are_found(data: Seq<u8>, path: Seq<int>, info: DylinkInfo)
    requires
        0 <= path[0],
        sections_along(data, path, info),
    ensures
        search_sections(data, path[0]) == Search::Found(info),
    decreases path.len(),
{
    let end = data.len() as int;
    let at = path[0];
    if path.len() > 1 {
        assert(section_tells_nothing(data, path[0], path[1]));
        let next = path[1];
        let start = choose|start: int|
            #[trigger] block_stands(data, at + 1, end, start, next) && (data[at] != 0
                || named_and_tells_nothing(data, start, next));
        blocks_are_found_where_they_stand(data, at + 1, end, start, next);
        block_bounds(data, at + 1, end);
        standing_custom_sections_are_found(data, start, next, info);
        let rest = path.skip(1);
        assert(rest[rest.len() - 1] == path[path.len() - 1]);
        assert forall|k: int| 0 <= k < rest.len() - 1 implies section_tells_nothing(
            data,
            #[trigger] rest[k],
            rest[k + 1],
        ) by {
            assert(section_tells_nothing(data, path[k + 1], path[k + 2]));
        }
        standing_sections_are_found(data, rest, info);
    } else {
        let (start, stop) = choose|start: int, stop: int|
            #[trigger] block_stands(data, at + 1, end, start, stop) && named_and_tells(
                data,
                start,
                stop,
                info,
            );
        blocks_are_found_where_they_stand(data, at + 1, end, start, stop);
        block_bounds(data, at + 1, end);
        standing_custom_sections_are_found(data, start, stop, info);
    }
}

/// A module has memory information exactly where it tells it.
pub proof fn modules_have_the_information_that_they_tell(data: Seq<u8>, info: DylinkInfo)
    ensures
        dylink_info(data) == Some(info) <==> module_tells(data, info),
{
    if data.len() >= 8 {
        let header = data.subrange(0, 8);
        if header == module_header() {
            assert(header[0] == 0 && header[1] == 0x61 && header[2] == 0x73 && header[3] == 0x6d);
            assert(header[4] == 1 && header[5] == 0 && header[6] == 0 && header[7] == 0);
        }
        if data[0] == 0 && data[1] == 0x61 && data[2] == 0x73 && data[3] == 0x6d && data[4] == 1
            && data[5] == 0 && data[6] == 0 && data[7] == 0 {
            assert(header =~= module_header());
        }
        if search_sections(data, 8) == Search::Found(info) {
            found_sections_stand(data, 8, info);
        }
        if sections_tell(data, 8, info) {
            let path = choose|path: Seq<int>|
                #[trigger] sections_along(data, path, info) && path[0] == 8;
            standing_sections_are_found(data, path, info);
        }
    }
}

} // verus!
