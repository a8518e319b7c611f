//! Wasm linear-memory layout: what stands where in the memory that all
//! grammars of a store share, and checked reads from it.
//!
//! `[ stack | stdlib statics | lexer | language statics | serialization buffer | heap ]`

use vstd::prelude::*;

use crate::bytes::{get_u16, get_u32, le_u16, le_u32};
use crate::runtime::{module_imports, module_source, wasm_imports};
use crate::text::same_text;

verus! {

/// The size of one page of Wasm memory.
pub const MEMORY_PAGE_SIZE: u32 = 0x10000;

/// 128 MiB expressed in pages; the hard maximum of the store's memory.
pub const MAX_MEMORY_PAGES: u32 = 2048;

/// The bytes set aside for the serialized state of an external scanner.
pub const SERIALIZATION_BUFFER_SIZE: usize = 1024;

/// The data prefix of a lexer (no function slots): the bytes that are copied
/// in and out of the Wasm memory around lex and scan calls.
pub const LEXER_DATA_PREFIX_SIZE: usize = 8;

/// Whether `size` bytes from `address` on lie inside `memory`.
pub open spec fn in_memory(memory: Seq<u8>, address: int, size: int) -> bool {
    0 <= address && 0 <= size && address + size <= memory.len()
}

/// The number of bytes before the first NUL from `at` on, if there is one.
pub open spec fn first_nul(memory: Seq<u8>, at: int) -> Option<nat>
    decreases memory.len() - at,
{
    if at < 0 || at >= memory.len() {
        None
    } else if memory[at] == 0 {
        Some(0)
    } else {
        match first_nul(memory, at + 1) {
            Some(length) => Some(length + 1),
            None => None,
        }
    }
}

/// `first_nul` is the distance to the nearest NUL, and is missing only where
/// no NUL follows.
pub proof fn first_nul_is_nearest(memory: Seq<u8>, at: int)
    requires
        0 <= at,
    ensures
        match first_nul(memory, at) {
            Some(length) => {
                &&& at + length < memory.len()
                &&& memory[at + length] == 0
                &&& forall|i: int| at <= i < at + length ==> memory[i] != 0
            },
            None => forall|i: int| at <= i < memory.len() ==> memory[i] != 0,
        },
    decreases memory.len() - at,
{
    if at < memory.len() && memory[at] != 0 {
        first_nul_is_nearest(memory, at + 1);
    }
}

/// A run of bytes without NUL, closed by one, has the run's length.
proof fn first_nul_after_run(memory: Seq<u8>, at: int, end: int)
    requires
        0 <= at <= end <= memory.len(),
        forall|i: int| at <= i < end ==> memory[i] != 0,
    ensures
        end < memory.len() && memory[end] == 0 ==> first_nul(memory, at) == Some((end - at) as nat),
        end == memory.len() ==> first_nul(memory, at) is None,
    decreases end - at,
{
    if at < end {
        first_nul_after_run(memory, at + 1, end);
    }
}

/// A checked view of the current Wasm linear memory. It is taken anew from the
/// store after every Wasm call: a `memory.grow` inside the module moves the
/// memory, while offsets stay valid.
pub struct WasmMemoryView<'a> {
    pub data: &'a [u8],
}

impl<'a> View for WasmMemoryView<'a> {
    type V = Seq<u8>;

    open spec fn view(&self) -> Seq<u8> {
        self.data@
    }
}

impl<'a> WasmMemoryView<'a> {
    /// Whether `size` bytes from `address` on lie inside the memory.
    pub fn contains(&self, address: i32, size: usize) -> (inside: bool)
        ensures
            inside == in_memory(self@, address as int, size as int),
    {
        if address < 0 {
            return false;
        }
        let start = address as usize;
        start <= self.data.len() && size <= self.data.len() - start
    }

    /// Fills `result` from `address` on. Leaves it alone where the bytes do not
    /// all lie inside the memory.
    pub fn read(&self, address: i32, result: &mut [u8]) -> (done: bool)
        ensures
            done == in_memory(self@, address as int, old(result)@.len() as int),
            final(result)@ == if done {
                self@.subrange(address as int, address + old(result)@.len())
            } else {
                old(result)@
            },
    {
        let size = result.len();
        if !self.contains(address, size) {
            return false;
        }
        let start = address as usize;
        let mut i: usize = 0;
        while i < size
            invariant
                i <= size,
                size == old(result)@.len(),
                result@.len() == size,
                start == address,
                start + size <= self.data.len(),
                result@.subrange(0, i as int) == self@.subrange(start as int, start + i),
            decreases size - i,
        {
            result[i] = self.data[start + i];
            i += 1;
            assert(result@.subrange(0, i as int) == self@.subrange(start as int, start + i));
        }
        assert(result@ == result@.subrange(0, size as int));
        true
    }

    /// The 16-bit integer at `address`.
    pub fn read_u16(&self, address: i32) -> (value: Option<u16>)
        ensures
            value == if in_memory(self@, address as int, 2) {
                Some(le_u16(self@, address as int))
            } else {
                None
            },
    {
        let mut bytes: [u8; 2] = [0; 2];
        if !self.read(address, &mut bytes) {
            return None;
        }
        Some(get_u16(&bytes, 0))
    }

    /// The 32-bit integer at `address`.
    pub fn read_u32(&self, address: i32) -> (value: Option<u32>)
        ensures
            value == if in_memory(self@, address as int, 4) {
                Some(le_u32(self@, address as int))
            } else {
                None
            },
    {
        let mut bytes: [u8; 4] = [0; 4];
        if !self.read(address, &mut bytes) {
            return None;
        }
        Some(get_u32(&bytes, 0))
    }

    /// The length of the NUL-terminated string at `address`.
    pub fn string_length(&self, address: i32) -> (length: Option<usize>)
        ensures
            match length {
                Some(n) => first_nul(self@, address as int) == Some(n as nat),
                None => first_nul(self@, address as int) is None,
            },
    {
        if address < 0 || address as usize >= self.data.len() {
            return None;
        }
        let start = address as usize;
        let mut end: usize = start;
        while end < self.data.len()
            invariant
                start <= end <= self@.len(),
                start == address,
                forall|i: int| start <= i < end ==> self@[i] != 0,
            decreases self@.len() - end,
        {
            if self.data[end] == 0 {
                proof {
                    first_nul_after_run(self@, start as int, end as int);
                }
                return Some(end - start);
            }
            end += 1;
        }
        proof {
            first_nul_after_run(self@, start as int, end as int);
        }
        None
    }
}

/// The address one past the last module's data and the serialization buffer
/// behind it: the scanner heap starts here.
pub fn heap_address(current_memory_offset: u32) -> (address: u32)
    requires
        current_memory_offset + SERIALIZATION_BUFFER_SIZE <= u32::MAX,
    ensures
        address == current_memory_offset + SERIALIZATION_BUFFER_SIZE,
{
    current_memory_offset + SERIALIZATION_BUFFER_SIZE as u32
}

/// The address of the serialization buffer, which sits directly at the current
/// placement offset.
pub fn serialization_buffer_address(current_memory_offset: u32) -> (address: u32)
    ensures
        address == current_memory_offset,
{
    current_memory_offset
}

/// The least number of pages of the last memory among `imports` that is called
/// `memory`.
pub open spec fn memory_minimum(imports: Seq<(Seq<char>, Option<u64>)>) -> Option<u64>
    decreases imports.len(),
{
    if imports.len() == 0 {
        None
    } else if imports.last().0 == "memory"@ && imports.last().1 is Some {
        imports.last().1
    } else {
        memory_minimum(imports.drop_last())
    }
}

/// The names and page counts of imports.
pub open spec fn import_views(imports: Seq<(String, Option<u64>)>) -> Seq<(Seq<char>, Option<u64>)> {
    imports.map_values(|import: (String, Option<u64>)| (import.0@, import.1))
}

/// Looks for the memory among the imports of a module.
pub fn find_memory_minimum(imports: &[(String, Option<u64>)]) -> (minimum: Option<u64>)
    ensures
        minimum == memory_minimum(import_views(imports@)),
{
    let ghost views = import_views(imports@);
    let mut minimum: Option<u64> = None;
    let mut i: usize = 0;
    while i < imports.len()
        invariant
            i <= imports@.len(),
            views == import_views(imports@),
            minimum == memory_minimum(views.take(i as int)),
        decreases imports@.len() - i,
    {
        proof {
            assert(views.take(i + 1).drop_last() =~= views.take(i as int));
            assert(views.take(i + 1).last() == (imports@[i as int].0@, imports@[i as int].1));
        }
        if same_text(imports[i].0.as_str(), "memory") {
            match imports[i].1 {
                Some(pages) => {
                    minimum = Some(pages);
                },
                None => {},
            }
        }
        i += 1;
    }
    assert(views.take(imports@.len() as int) =~= views);
    minimum
}

/// The stdlib module's `memory` import determines the store's initial page
/// count; this scans a compiled module's imports for it.
pub fn stdlib_memory_minimum(module: &wasmtime::Module) -> (minimum: Option<u64>)
    ensures
        minimum == memory_minimum(wasm_imports(module_source(*module))),
{
    let imports = module_imports(module);
    assert(import_views(imports@) =~= wasm_imports(module_source(*module)));
    find_memory_minimum(imports.as_slice())
}

} // verus!
