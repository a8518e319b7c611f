//! The `dylink.0` section of a Wasm module, which says how much memory and
//! how many table entries the module wants to be given.

use vstd::prelude::*;

use crate::error::{WasmResult, PARSE};

verus! {

/// The memory information in the `dylink.0` custom section of a Wasm module.
/// The alignments are part of the format: they are parsed, and never consulted.
#[derive(Clone, Copy, Debug, PartialEq, Eq, Structural)]
pub struct DylinkInfo {
    pub memory_size: u32,
    pub memory_align: u32,
    pub table_size: u32,
    pub table_align: u32,
}

/// The number of a custom section.
pub const WASM_CUSTOM_SECTION: u8 = 0;

/// The number of the subsection with memory information.
pub const WASM_DYLINK_MEM_INFO: u8 = 1;

/// The eight bytes that open every module: the magic number and version one.
pub open spec fn module_header() -> Seq<u8> {
    seq![0x00u8, 0x61, 0x73, 0x6d, 0x01, 0x00, 0x00, 0x00]
}

/// The name of the section, `dylink.0`.
pub open spec fn dylink_name() -> Seq<u8> {
    seq![0x64u8, 0x79, 0x6c, 0x69, 0x6e, 0x6b, 0x2e, 0x30]
}

/// The value of a LEB128 number whose byte number `index` stands at `at`, and
/// the position behind it. All bytes must lie before `end`, there are at most
/// five of them, and the number must fit in 32 bits.
pub open spec fn uleb128_rest(data: Seq<u8>, at: int, end: int, index: nat) -> Option<(nat, int)>
    decreases 5 - index,
{
    if index >= 5 || at >= end {
        None
    } else if index == 4 && data[at] >= 0x10 {
        None
    } else if data[at] < 0x80 {
        Some((data[at] as nat, at + 1))
    } else {
        match uleb128_rest(data, at + 1, end, index + 1) {
            Some((high, next)) => Some(((data[at] - 0x80 + 0x80 * high) as nat, next)),
            None => None,
        }
    }
}

/// What one unit in byte number `index` of a LEB128 number is worth.
pub open spec fn place(index: nat) -> nat {
    if index == 0 {
        1
    } else if index == 1 {
        0x80
    } else if index == 2 {
        0x4000
    } else if index == 3 {
        0x20_0000
    } else if index == 4 {
        0x1000_0000
    } else {
        0x8_0000_0000
    }
}

/// The LEB128 number at `at`, and the position behind it.
pub open spec fn uleb128(data: Seq<u8>, at: int, end: int) -> Option<(nat, int)> {
    uleb128_rest(data, at, end, 0)
}

/// A length-prefixed block at `at`: where its contents begin and end. The
/// contents must lie before `end`.
pub open spec fn block(data: Seq<u8>, at: int, end: int) -> Option<(int, int)> {
    match uleb128(data, at, end) {
        Some((length, start)) => if start + length <= end {
            Some((start, start + length))
        } else {
            None
        },
        None => None,
    }
}

/// The four numbers that fill the bytes from `at` to `end`.
pub open spec fn mem_info(data: Seq<u8>, at: int, end: int) -> Option<DylinkInfo> {
    match uleb128(data, at, end) {
        Some((memory_size, at1)) => match uleb128(data, at1, end) {
            Some((memory_align, at2)) => match uleb128(data, at2, end) {
                Some((table_size, at3)) => match uleb128(data, at3, end) {
                    Some((table_align, at4)) => if at4 == end {
                        Some(
                            DylinkInfo {
                                memory_size: memory_size as u32,
                                memory_align: memory_align as u32,
                                table_size: table_size as u32,
                                table_align: table_align as u32,
                            },
                        )
                    } else {
                        None
                    },
                    None => None,
                },
                None => None,
            },
            None => None,
        },
        None => None,
    }
}

/// What a search for the memory information comes to.
pub enum Search {
    /// It was found.
    Found(DylinkInfo),
    /// All was well formed, and it was not there.
    Absent,
    /// Something in front of it, or itself, is malformed.
    Malformed,
}

/// Searches the subsections from `at` to `end` for the first memory
/// information.
pub open spec fn search_subsections(data: Seq<u8>, at: int, end: int) -> Search
    decreases end - at,
{
    if at >= end {
        Search::Absent
    } else {
        match block(data, at + 1, end) {
            Some((start, stop)) => if data[at] == WASM_DYLINK_MEM_INFO {
                match mem_info(data, start, stop) {
                    Some(info) => Search::Found(info),
                    None => Search::Malformed,
                }
            } else {
                proof {
                    block_bounds(data, at + 1, end);
                }
                search_subsections(data, stop, end)
            },
            None => Search::Malformed,
        }
    }
}

/// Searches the custom section whose contents stand from `at` to `end`: only
/// one named `dylink.0` has anything to find.
pub open spec fn search_custom_section(data: Seq<u8>, at: int, end: int) -> Search {
    match block(data, at, end) {
        Some((start, stop)) => if data.subrange(start, stop) == dylink_name() {
            search_subsections(data, stop, end)
        } else {
            Search::Absent
        },
        None => Search::Malformed,
    }
}

/// Searches the sections from `at` to the end of the module.
pub open spec fn search_sections(data: Seq<u8>, at: int) -> Search
    decreases data.len() - at,
{
    if at >= data.len() {
        Search::Absent
    } else {
        match block(data, at + 1, data.len() as int) {
            Some((start, stop)) => {
                let here = if data[at] == WASM_CUSTOM_SECTION {
                    search_custom_section(data, start, stop)
                } else {
                    Search::Absent
                };
                if here is Absent {
                    proof {
                        block_bounds(data, at + 1, data.len() as int);
                    }
                    search_sections(data, stop)
                } else {
                    here
                }
            },
            None => Search::Malformed,
        }
    }
}

/// The memory information of a module.
pub open spec fn dylink_info(data: Seq<u8>) -> Option<DylinkInfo> {
    if data.len() >= 8 && data.subrange(0, 8) == module_header() {
        match search_sections(data, 8) {
            Search::Found(info) => Some(info),
            _ => None,
        }
    } else {
        None
    }
}

/// The position behind a number lies beyond its start and within the bounds,
/// and the number has at most the bits that are left for it.
pub proof fn uleb128_rest_bounds(data: Seq<u8>, at: int, end: int, index: nat)
    ensures
        match uleb128_rest(data, at, end, index) {
            Some((value, next)) => {
                &&& at < next <= end
                &&& next - at <= 5 - index
                &&& index == 0 ==> value <= u32::MAX
                &&& index == 1 ==> value < 0x200_0000
                &&& index == 2 ==> value < 0x4_0000
                &&& index == 3 ==> value < 0x800
                &&& index == 4 ==> value < 0x10
            },
            None => true,
        },
    decreases 5 - index,
{
    if index < 5 && at < end && data[at] >= 0x80 {
        uleb128_rest_bounds(data, at + 1, end, index + 1);
    }
}

/// The bounds of a length-prefixed block lie in order.
pub proof fn block_bounds(data: Seq<u8>, at: int, end: int)
    ensures
        match block(data, at, end) {
            Some((start, stop)) => at < start <= stop <= end,
            None => true,
        },
{
    uleb128_rest_bounds(data, at, end, 0);
}

/// A cursor over module bytes, stopped at `size`.
pub struct WasmReader<'a> {
    pub data: &'a [u8],
    pub offset: usize,
    pub size: usize,
}

impl<'a> WasmReader<'a> {
    /// The cursor stands within its bounds.
    pub open spec fn wf(&self) -> bool {
        self.offset <= self.size <= self.data@.len()
    }

    /// The next byte.
    pub fn read_u8(&mut self) -> (byte: Option<u8>)
        requires
            old(self).wf(),
        ensures
            final(self).wf(),
            final(self).data == old(self).data,
            final(self).size == old(self).size,
            match byte {
                Some(b) => {
                    &&& old(self).offset < old(self).size
                    &&& b == old(self).data@[old(self).offset as int]
                    &&& final(self).offset == old(self).offset + 1
                },
                None => old(self).offset == old(self).size && final(self).offset == old(
                    self,
                ).offset,
            },
    {
        if self.offset >= self.size {
            return None;
        }
        let byte = self.data[self.offset];
        self.offset += 1;
        Some(byte)
    }

    /// The next LEB128 number, which has at most five bytes. On failure the
    /// cursor stands somewhere in the malformed number.
    pub fn read_uleb128(&mut self) -> (value: Option<u32>)
        requires
            old(self).wf(),
        ensures
            final(self).wf(),
            final(self).data == old(self).data,
            final(self).size == old(self).size,
            old(self).offset <= final(self).offset <= old(self).offset + 5,
            match value {
                Some(v) => uleb128(old(self).data@, old(self).offset as int, old(self).size as int)
                    == Some((v as nat, final(self).offset as int)),
                None => uleb128(
                    old(self).data@,
                    old(self).offset as int,
                    old(self).size as int,
                ) is None,
            },
    {
        let mut value: u32 = 0;
        let mut shift: u32 = 0;
        let ghost data = self.data@;
        let ghost start = self.offset as int;
        let ghost end = self.size as int;
        let ghost mut index: nat = 0;
        let ghost mut scale: nat = 1;
        while shift < 32
            invariant
                self.wf(),
                self.data == old(self).data,
                self.size == old(self).size,
                data == self.data@,
                end == self.size,
                start == old(self).offset,
                self.offset == start + index,
                index <= 5,
                shift == 7 * index,
                scale == place(index),
                value < scale,
                uleb128(data, start, end) == match uleb128_rest(
                    data,
                    start + index,
                    end,
                    index,
                ) {
                    Some((high, next)) => Some(((value + scale * high) as nat, next)),
                    None => None,
                },
            decreases 35 - shift,
        {
            let byte = match self.read_u8() {
                Some(byte) => byte,
                None => {
                    return None;
                },
            };
            assert((byte & 0xf0) != 0 <==> byte >= 0x10) by (bit_vector);
            if shift == 28 && (byte & 0xf0) != 0 {
                return None;
            }
            let ghost before = value;
            proof {
                uleb128_rest_bounds(data, start + index, end, index);
                uleb128_rest_bounds(data, start + index + 1, end, index + 1);
                septet(byte, value, shift);
            }
            value = value | (((byte & 0x7f) as u32) << shift);
            assert(value == before + scale * (byte % 0x80));
            assert((byte & 0x80) == 0 <==> byte < 0x80) by (bit_vector);
            if (byte & 0x80) == 0 {
                return Some(value);
            }
            proof {
                let rest = uleb128_rest(data, start + index + 1, end, index + 1);
                if let Some((high, _)) = rest {
                    assert(scale * (byte - 0x80 + 0x80 * high) == scale * (byte - 0x80) + (0x80
                        * scale) * high) by (nonlinear_arith);
                }
                index = index + 1;
                scale = 0x80 * scale;
            }
            shift += 7;
        }
        None
    }
}

/// Setting seven bits above all that are set adds their value at that place.
proof fn septet(byte: u8, low: u32, shift: u32)
    requires
        shift == 0 && low < 1 || shift == 7 && low < 0x80 || shift == 14 && low < 0x4000 || shift
            == 21 && low < 0x20_0000 || shift == 28 && low < 0x1000_0000 && byte < 0x10,
    ensures
        low | (((byte & 0x7f) as u32) << shift) == low + place((shift / 7) as nat) * (byte % 0x80),
{
    assert(byte & 0x7f == byte % 0x80) by (bit_vector);
    let bits = byte & 0x7f;
    if shift == 0 {
        assert(low < 1 && bits < 0x80 ==> low | ((bits as u32) << 0u32) == low + bits) by (bit_vector);
    } else if shift == 7 {
        assert(low < 0x80 && bits < 0x80 ==> low | ((bits as u32) << 7u32) == low + 0x80 * bits) by (bit_vector);
    } else if shift == 14 {
        assert(low < 0x4000 && bits < 0x80 ==> low | ((bits as u32) << 14u32) == low + 0x4000 * bits) by (bit_vector);
    } else if shift == 21 {
        assert(low < 0x20_0000 && bits < 0x80 ==> low | ((bits as u32) << 21u32) == low + 0x20_0000 * bits) by (bit_vector);
    } else {
        assert(low < 0x1000_0000 && bits < 0x10 ==> low | ((bits as u32) << 28u32) == low + 0x1000_0000 * bits) by (bit_vector);
    }
}

/// The failure of a module without readable memory information.
pub fn invalid_dylink() -> (error: (u32, String))
    ensures
        error.0 == PARSE,
        error.1@ == "failed to parse dylink section of Wasm module"@,
{
    (PARSE, "failed to parse dylink section of Wasm module".to_owned())
}

/// Whether `bytes` holds exactly `expected` from `at` on.
fn holds_at(bytes: &[u8], at: usize, expected: &[u8]) -> (holds: bool)
    requires
        at + expected@.len() <= bytes@.len(),
    ensures
        holds == (bytes@.subrange(at as int, at + expected@.len()) == expected@),
{
    let mut i: usize = 0;
    while i < expected.len()
        invariant
            i <= expected@.len(),
            at + expected@.len() <= bytes.len(),
            bytes@.subrange(at as int, at + i) == expected@.subrange(0, i as int),
        decreases expected@.len() - i,
    {
        if bytes[at + i] != expected[i] {
            assert(bytes@.subrange(at as int, at + expected@.len())[i as int] != expected@[i as int]);
            return false;
        }
        i += 1;
        assert(bytes@.subrange(at as int, at + i) == expected@.subrange(0, i as int));
    }
    assert(expected@ == expected@.subrange(0, i as int));
    true
}

/// Reads the four numbers that fill the bytes from `start` to `end`.
fn read_mem_info(data: &[u8], start: usize, end: usize) -> (info: Option<DylinkInfo>)
    requires
        start <= end <= data@.len(),
    ensures
        info == mem_info(data@, start as int, end as int),
{
    let mut reader = WasmReader { data, offset: start, size: end };
    let memory_size = match reader.read_uleb128() {
        Some(value) => value,
        None => {
            return None;
        },
    };
    let memory_align = match reader.read_uleb128() {
        Some(value) => value,
        None => {
            return None;
        },
    };
    let table_size = match reader.read_uleb128() {
        Some(value) => value,
        None => {
            return None;
        },
    };
    let table_align = match reader.read_uleb128() {
        Some(value) => value,
        None => {
            return None;
        },
    };
    if reader.offset != end {
        return None;
    }
    Some(DylinkInfo { memory_size, memory_align, table_size, table_align })
}

/// Reads the memory information of a Wasm module.
pub fn dylink_info_parse(bytes: &[u8]) -> (info: WasmResult<DylinkInfo>)
    ensures
        match info {
            Ok(found) => dylink_info(bytes@) == Some(found),
            Err((kind, message)) => {
                &&& dylink_info(bytes@) is None
                &&& kind == PARSE
                &&& message@ == "failed to parse dylink section of Wasm module"@
            },
        },
{
    let header: [u8; 8] = [0x00, 0x61, 0x73, 0x6d, 0x01, 0x00, 0x00, 0x00];
    let name: [u8; 8] = [0x64, 0x79, 0x6c, 0x69, 0x6e, 0x6b, 0x2e, 0x30];
    assert(header@ == module_header());
    assert(name@ == dylink_name());

    if bytes.len() < 8 || !holds_at(bytes, 0, &header) {
        return Err(invalid_dylink());
    }
    let mut reader = WasmReader { data: bytes, offset: 8, size: bytes.len() };

    while reader.offset < reader.size
        invariant
            reader.wf(),
            reader.data == bytes,
            reader.size == bytes@.len(),
            name@ == dylink_name(),
            bytes@.len() >= 8,
            bytes@.subrange(0, 8) == module_header(),
            search_sections(bytes@, 8) == search_sections(bytes@, reader.offset as int),
        decreases reader.size - reader.offset,
    {
        let ghost section = reader.offset as int;
        let section_id = match reader.read_u8() {
            Some(value) => value,
            None => {
                return Err(invalid_dylink());
            },
        };
        let section_length = match reader.read_uleb128() {
            Some(value) => value,
            None => {
                return Err(invalid_dylink());
            },
        };
        if section_length as usize > reader.size - reader.offset {
            return Err(invalid_dylink());
        }
        let section_end = reader.offset + section_length as usize;
        assert(block(bytes@, section + 1, bytes@.len() as int) == Some(
            (reader.offset as int, section_end as int),
        ));

        if section_id == WASM_CUSTOM_SECTION {
            let ghost contents = reader.offset as int;
            let previous_size = reader.size;
            reader.size = section_end;
            let name_length = match reader.read_uleb128() {
                Some(value) => value,
                None => {
                    return Err(invalid_dylink());
                },
            };
            if name_length as usize > reader.size - reader.offset {
                return Err(invalid_dylink());
            }
            let name_end = reader.offset + name_length as usize;
            assert(block(bytes@, contents, section_end as int) == Some(
                (reader.offset as int, name_end as int),
            ));
            assert(bytes@.subrange(reader.offset as int, name_end as int).len() == name_length);

            if name_length == 8 && holds_at(reader.data, reader.offset, &name) {
                reader.offset = name_end;
                while reader.offset < section_end
                    invariant
                        reader.wf(),
                        reader.data == bytes,
                        reader.size == section_end,
                        bytes@.len() >= 8,
                        bytes@.subrange(0, 8) == module_header(),
                        search_subsections(bytes@, name_end as int, section_end as int)
                            == search_subsections(
                            bytes@,
                            reader.offset as int,
                            section_end as int,
                        ),
                        !(search_subsections(bytes@, name_end as int, section_end as int) is Absent)
                            ==> search_sections(bytes@, 8) == search_subsections(
                            bytes@,
                            name_end as int,
                            section_end as int,
                        ),
                    decreases section_end - reader.offset,
                {
                    let ghost subsection = reader.offset as int;
                    let subsection_type = match reader.read_u8() {
                        Some(value) => value,
                        None => {
                            return Err(invalid_dylink());
                        },
                    };
                    let subsection_size = match reader.read_uleb128() {
                        Some(value) => value,
                        None => {
                            return Err(invalid_dylink());
                        },
                    };
                    if subsection_size as usize > section_end - reader.offset {
                        return Err(invalid_dylink());
                    }
                    let subsection_end = reader.offset + subsection_size as usize;
                    assert(block(bytes@, subsection + 1, section_end as int) == Some(
                        (reader.offset as int, subsection_end as int),
                    ));
                    if subsection_type == WASM_DYLINK_MEM_INFO {
                        return match read_mem_info(bytes, reader.offset, subsection_end) {
                            Some(info) => Ok(info),
                            None => Err(invalid_dylink()),
                        };
                    }
                    reader.offset = subsection_end;
                }
            }
            reader.size = previous_size;
        }
        reader.offset = section_end;
    }
    Err(invalid_dylink())
}

/// `value` as a LEB128 number, in as few bytes as it takes.
pub open spec fn leb128(value: nat) -> Seq<u8>
    decreases value,
{
    if value < 0x80 {
        seq![value as u8]
    } else {
        seq![(value % 0x80 + 0x80) as u8] + leb128(value / 0x80)
    }
}

/// A number that was written as LEB128 reads back as itself.
pub proof fn leb128_reads_back(data: Seq<u8>, at: int, end: int, value: nat, index: nat)
    requires
        0 <= at,
        at + leb128(value).len() <= end <= data.len(),
        data.subrange(at, at + leb128(value).len()) == leb128(value),
        index < 5,
        value * place(index) <= u32::MAX,
    ensures
        uleb128_rest(data, at, end, index) == Some((value, at + leb128(value).len())),
    decreases value,
{
    let bytes = leb128(value);
    assert(data[at] == bytes[0]) by {
        assert(data.subrange(at, at + bytes.len())[0] == data[at]);
    }
    if index == 4 {
        assert(value < 0x10);
    } else if value >= 0x80 {
        let rest = leb128(value / 0x80);
        assert(bytes.subrange(1, bytes.len() as int) =~= rest);
        assert(data.subrange(at + 1, at + 1 + rest.len()) =~= data.subrange(
            at,
            at + bytes.len(),
        ).subrange(1, bytes.len() as int));
        assert((value / 0x80) * place(index + 1) <= u32::MAX);
        leb128_reads_back(data, at + 1, end, value / 0x80, index + 1);
    }
}

/// The contents of a subsection with memory information.
pub open spec fn mem_info_bytes(info: DylinkInfo) -> Seq<u8> {
    leb128(info.memory_size as nat) + leb128(info.memory_align as nat) + leb128(
        info.table_size as nat,
    ) + leb128(info.table_align as nat)
}

/// The contents of a `dylink.0` section that holds nothing but memory
/// information.
pub open spec fn dylink_bytes(info: DylinkInfo) -> Seq<u8> {
    leb128(8) + dylink_name() + seq![WASM_DYLINK_MEM_INFO] + leb128(mem_info_bytes(info).len())
        + mem_info_bytes(info)
}

/// A module that begins with a given `dylink.0` section.
pub open spec fn module_with_dylink(info: DylinkInfo, rest: Seq<u8>) -> Seq<u8> {
    module_header() + seq![WASM_CUSTOM_SECTION] + leb128(dylink_bytes(info).len()) + dylink_bytes(
        info,
    ) + rest
}

/// A LEB128 number of 32 bits takes at most five bytes.
proof fn leb128_is_short(value: nat)
    requires
        value <= u32::MAX,
    ensures
        1 <= leb128(value).len() <= 5,
{
    reveal_with_fuel(leb128, 5);
}

/// The memory information that stands in the first section of a module is
/// found, whatever follows.
pub proof fn written_memory_information_is_found(info: DylinkInfo, rest: Seq<u8>)
    ensures
        dylink_info(module_with_dylink(info, rest)) == Some(info),
{
    let numbers = mem_info_bytes(info);
    let section = dylink_bytes(info);
    let data = module_with_dylink(info, rest);
    let end = data.len() as int;
    let n1 = leb128(info.memory_size as nat);
    let n2 = leb128(info.memory_align as nat);
    let n3 = leb128(info.table_size as nat);
    let n4 = leb128(info.table_align as nat);
    leb128_is_short(info.memory_size as nat);
    leb128_is_short(info.memory_align as nat);
    leb128_is_short(info.table_size as nat);
    leb128_is_short(info.table_align as nat);
    assert(numbers.len() == n1.len() + n2.len() + n3.len() + n4.len());
    leb128_is_short(numbers.len());
    let size = leb128(numbers.len());
    assert(section.len() == 10 + size.len() + numbers.len());
    leb128_is_short(section.len());
    let length = leb128(section.len());

    // Where the parts stand.
    let start = 9int + length.len();
    let stop = start + section.len();
    let p0 = start + 10 + size.len();
    let p1 = p0 + n1.len();
    let p2 = p1 + n2.len();
    let p3 = p2 + n3.len();
    let head = 10int + size.len();
    assert(p3 + n4.len() == stop);

    assert(data.subrange(0, 8) =~= module_header());
    assert(data[8] == 0);
    assert(data.subrange(9, start) =~= length);
    leb128_reads_back(data, 9, end, section.len(), 0);
    assert(block(data, 9, end) == Some((start, stop)));

    assert(data.subrange(start, stop) =~= section);
    assert(section[0] == 8);
    assert(data[start] == section[0]);
    assert(uleb128(data, start, stop) == Some((8nat, start + 1)));
    assert(section.subrange(1, 9) =~= dylink_name());
    assert(data.subrange(start + 1, start + 9) =~= section.subrange(1, 9));

    assert(section[9] == 1);
    assert(data[start + 9] == section[9]);
    assert(section.subrange(10, head) =~= size);
    assert(data.subrange(start + 10, start + 10 + size.len()) =~= section.subrange(10, head));
    leb128_reads_back(data, start + 10, stop, numbers.len(), 0);
    assert(block(data, start + 10, stop) == Some((p0, stop)));

    assert(section.subrange(head, section.len() as int) =~= numbers);
    assert(data.subrange(p0, stop) =~= section.subrange(
        head,
        section.len() as int,
    ));
    assert(data.subrange(p0, p1) =~= n1);
    leb128_reads_back(data, p0, stop, info.memory_size as nat, 0);
    assert(data.subrange(p1, p2) =~= n2);
    leb128_reads_back(data, p1, stop, info.memory_align as nat, 0);
    assert(data.subrange(p2, p3) =~= n3);
    leb128_reads_back(data, p2, stop, info.table_size as nat, 0);
    assert(data.subrange(p3, stop) =~= n4);
    leb128_reads_back(data, p3, stop, info.table_align as nat, 0);
    assert(mem_info(data, p0, stop) == Some(info));
    assert(search_subsections(data, start + 9, stop) == Search::Found(info));
    assert(search_custom_section(data, start, stop) == Search::Found(info));
}

} // verus!
