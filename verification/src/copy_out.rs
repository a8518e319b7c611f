//! The copy-out of a language's static data from Wasm linear memory.

use vstd::prelude::*;

use crate::bytes::get_u16;
use crate::error::{WasmResult, INSTANTIATE};
use crate::language::{
    alias_map_end, alias_map_end_bounds, copied, greatest_slice_end, greatest_u16, strings_copied,
    CExternalScanner, CLanguage, LANGUAGE_VERSION_WITH_PRIMARY_STATES,
    LANGUAGE_VERSION_WITH_RESERVED_WORDS, TREE_SITTER_LANGUAGE_VERSION,
    TREE_SITTER_MIN_COMPATIBLE_LANGUAGE_VERSION,
};
use crate::layout::{language_at, LanguageInWasmMemory, LANGUAGE_SIZE};
use crate::memory::{in_memory, WasmMemoryView};
use crate::statics::{
    contents, copy, copy_string, copy_strings, copy_unsized_static_array, sized_ok, string_copy,
    unsized_copy, StringTable,
};
use crate::text::{decimal, join2, join3, to_decimal};

verus! {

/// The failure of a language object, or of data that it points to, outside
/// the memory.
pub fn invalid_language_memory() -> (error: (u32, String))
    ensures
        error.0 == INSTANTIATE,
        error.1@ == "invalid language memory address"@,
{
    (INSTANTIATE, "invalid language memory address".to_owned())
}

/// The text of the failure of a language with an ABI that cannot be loaded.
pub open spec fn incompatible_abi_message(abi_version: u32) -> Seq<char> {
    "incompatible language ABI version "@ + decimal(abi_version as nat) + "; expected between "@
        + decimal(TREE_SITTER_MIN_COMPATIBLE_LANGUAGE_VERSION as nat) + " and "@ + decimal(
        TREE_SITTER_LANGUAGE_VERSION as nat,
    )
}

/// The failure of a language with an ABI that cannot be loaded.
pub fn incompatible_abi(abi_version: u32) -> (error: (u32, String))
    ensures
        error.0 == INSTANTIATE,
        error.1@ == incompatible_abi_message(abi_version),
{
    let version = to_decimal(abi_version as u64);
    let least = to_decimal(TREE_SITTER_MIN_COMPATIBLE_LANGUAGE_VERSION as u64);
    let greatest = to_decimal(TREE_SITTER_LANGUAGE_VERSION as u64);
    let start = join3(
        "incompatible language ABI version ",
        version.as_str(),
        "; expected between ",
    );
    (INSTANTIATE, join2(join3(start.as_str(), least.as_str(), " and ").as_str(), greatest.as_str()))
}

/// The greatest of `count` 16-bit integers, `stride` bytes apart.
fn find_greatest_u16(data: &[u8], at: usize, stride: usize, count: u32) -> (greatest: u16)
    requires
        2 <= stride <= 6,
        count > 0 ==> at + stride * (count - 1) + 2 <= data.len(),
    ensures
        greatest == greatest_u16(data@, at as int, stride as int, count as int),
{
    let mut greatest: u16 = 0;
    let mut index: u32 = 0;
    let mut position: usize = at;
    while index < count
        invariant
            index <= count,
            2 <= stride <= 6,
            index < count ==> position == at + stride * index,
            count > 0 ==> at + stride * (count - 1) + 2 <= data.len(),
            greatest == greatest_u16(data@, at as int, stride as int, index as int),
        decreases count - index,
    {
        assert(stride * index <= stride * (count - 1)) by (nonlinear_arith)
            requires
                index <= count - 1,
                stride >= 2,
        ;
        let value = get_u16(data, position);
        if value > greatest {
            greatest = value;
        }
        assert(stride * index + stride == stride * (index + 1)) by (nonlinear_arith);
        if index + 1 < count {
            assert(stride * (index + 1) <= stride * (count - 1)) by (nonlinear_arith)
                requires
                    index + 1 <= count - 1,
                    stride >= 2,
            ;
            position += stride;
        }
        index += 1;
    }
    greatest
}

/// The greatest end among `count` slices.
fn find_greatest_slice_end(data: &[u8], at: usize, count: u32) -> (greatest: u32)
    requires
        at + 4 * count <= data.len(),
    ensures
        greatest == greatest_slice_end(data@, at as int, count as int),
{
    let mut greatest: u32 = 0;
    let mut index: u32 = 0;
    while index < count
        invariant
            index <= count,
            at + 4 * count <= data.len(),
            greatest == greatest_slice_end(data@, at as int, index as int),
        decreases count - index,
    {
        let position = at + 4 * index as usize;
        let end = get_u16(data, position) as u32 + get_u16(data, position + 2) as u32;
        if end > greatest {
            greatest = end;
        }
        index += 1;
    }
    greatest
}

/// Walks the alias map at `address`, and gives its size.
fn find_alias_map_size(view: &WasmMemoryView, address: i32) -> (size: Option<u64>)
    ensures
        match size {
            Some(bytes) => alias_map_end(view@, address as int) == Some(address + bytes),
            None => alias_map_end(view@, address as int) is None,
        },
{
    let mut position: i64 = address as i64;
    while position <= i32::MAX as i64
        invariant
            address <= position,
            position <= i32::MAX + 4 + 2 * u16::MAX,
            alias_map_end(view@, address as int) == alias_map_end(view@, position as int),
        decreases i32::MAX + 4 + 2 * u16::MAX - position,
    {
        let symbol = match view.read_u16(position as i32) {
            Some(symbol) => symbol,
            None => {
                return None;
            },
        };
        if symbol == 0 {
            return Some((position + 2 - address as i64) as u64);
        }
        if position + 2 > i32::MAX as i64 {
            return None;
        }
        let value_count = match view.read_u16((position + 2) as i32) {
            Some(value_count) => value_count,
            None => {
                return None;
            },
        };
        position = position + 4 + 2 * value_count as i64;
    }
    None
}

/// The tables that every language has.
struct Tables {
    parse_table: Option<Vec<u8>>,
    parse_actions: Option<Vec<u8>>,
    symbol_names: StringTable,
    symbol_metadata: Option<Vec<u8>>,
    public_symbol_map: Option<Vec<u8>>,
    lex_modes: Option<Vec<u8>>,
}

/// Copies the tables that every language has.
fn copy_tables(view: &WasmMemoryView, origin: &LanguageInWasmMemory, sentinels: &[i32]) -> (tables:
    Option<Tables>)
    ensures
        match tables {
            Some(t) => {
                let names = origin.symbol_name_count();
                &&& origin.tables_ok(view@, sentinels@)
                &&& copied(
                    t.parse_table,
                    true,
                    view@,
                    origin.parse_table,
                    origin.large_state_count * origin.symbol_count * 2,
                )
                &&& contents(t.parse_actions) == unsized_copy(
                    view@,
                    origin.parse_actions,
                    sentinels@,
                )
                &&& strings_copied(
                    Some(t.symbol_names),
                    true,
                    view@,
                    origin.symbol_names,
                    names,
                )
                &&& copied(t.symbol_metadata, true, view@, origin.symbol_metadata, names * 3)
                &&& copied(t.public_symbol_map, true, view@, origin.public_symbol_map, names * 2)
                &&& copied(t.lex_modes, true, view@, origin.lex_modes, origin.state_count * 6)
            },
            None => !origin.tables_ok(view@, sentinels@),
        },
{
    let mut ok = true;
    assert(origin.large_state_count * origin.symbol_count <= u32::MAX * u32::MAX)
        by (nonlinear_arith)
        requires
            origin.large_state_count <= u32::MAX,
            origin.symbol_count <= u32::MAX,
    ;
    assert(0 <= origin.large_state_count * origin.symbol_count) by (nonlinear_arith)
        requires
            0 <= origin.large_state_count,
            0 <= origin.symbol_count,
    ;
    let parse_table = copy(
        view,
        origin.parse_table,
        origin.large_state_count as u128 * origin.symbol_count as u128 * 2,
        &mut ok,
    );
    let parse_actions = copy_unsized_static_array(view, origin.parse_actions, sentinels, &mut ok);
    let names = origin.symbol_count as u64 + origin.alias_count as u64;
    let symbol_names = copy_strings(view, origin.symbol_names, names, &mut ok);
    let symbol_metadata = copy(view, origin.symbol_metadata, names as u128 * 3, &mut ok);
    let public_symbol_map = copy(view, origin.public_symbol_map, names as u128 * 2, &mut ok);
    let lex_modes = copy(view, origin.lex_modes, origin.state_count as u128 * 6, &mut ok);
    if !ok {
        return None;
    }
    match symbol_names {
        Some(symbol_names) => Some(
            Tables {
                parse_table,
                parse_actions,
                symbol_names,
                symbol_metadata,
                public_symbol_map,
                lex_modes,
            },
        ),
        None => None,
    }
}

/// The fields of a language.
struct Fields {
    slices: Option<Vec<u8>>,
    entries: Option<Vec<u8>>,
    names: Option<StringTable>,
}

/// Copies the fields, where the language has any.
fn copy_fields(view: &WasmMemoryView, origin: &LanguageInWasmMemory) -> (fields: Option<Fields>)
    ensures
        match fields {
            Some(f) => {
                &&& origin.fields_ok(view@)
                &&& copied(
                    f.slices,
                    origin.has_fields(),
                    view@,
                    origin.field_map_slices,
                    origin.production_id_count * 4,
                )
                &&& copied(
                    f.entries,
                    origin.has_fields(),
                    view@,
                    origin.field_map_entries,
                    origin.field_map_entry_count(view@) * 4,
                )
                &&& strings_copied(
                    f.names,
                    origin.has_fields(),
                    view@,
                    origin.field_names,
                    origin.field_count + 1,
                )
            },
            None => !origin.fields_ok(view@),
        },
{
    if origin.field_count == 0 || origin.production_id_count == 0 {
        return Some(Fields { slices: None, entries: None, names: None });
    }
    let mut ok = true;
    let slices = copy(
        view,
        origin.field_map_slices,
        origin.production_id_count as u128 * 4,
        &mut ok,
    );
    if !ok {
        return None;
    }
    let entry_count = find_greatest_slice_end(
        view.data,
        origin.field_map_slices as usize,
        origin.production_id_count,
    );
    let entries = copy(view, origin.field_map_entries, entry_count as u128 * 4, &mut ok);
    let names = copy_strings(view, origin.field_names, origin.field_count as u64 + 1, &mut ok);
    if !ok {
        return None;
    }
    Some(Fields { slices, entries, names })
}

/// The supertypes of a language.
struct Supertypes {
    symbols: Option<Vec<u8>>,
    slices: Option<Vec<u8>>,
    entries: Option<Vec<u8>>,
}

/// Copies the supertypes, where the language has any.
fn copy_supertypes(view: &WasmMemoryView, origin: &LanguageInWasmMemory) -> (supertypes: Option<
    Supertypes,
>)
    ensures
        match supertypes {
            Some(s) => {
                &&& origin.supertypes_ok(view@)
                &&& copied(
                    s.symbols,
                    origin.has_supertypes(),
                    view@,
                    origin.supertype_symbols,
                    origin.supertype_count * 2,
                )
                &&& copied(
                    s.slices,
                    origin.has_supertypes(),
                    view@,
                    origin.supertype_map_slices,
                    (origin.largest_supertype(view@) + 1) * 4,
                )
                &&& copied(
                    s.entries,
                    origin.has_supertypes(),
                    view@,
                    origin.supertype_map_entries,
                    origin.supertype_map_entry_count(view@) * 2,
                )
            },
            None => !origin.supertypes_ok(view@),
        },
{
    if origin.abi_version < LANGUAGE_VERSION_WITH_RESERVED_WORDS || origin.supertype_count == 0 {
        return Some(Supertypes { symbols: None, slices: None, entries: None });
    }
    let mut ok = true;
    let symbols = copy(
        view,
        origin.supertype_symbols,
        origin.supertype_count as u128 * 2,
        &mut ok,
    );
    if !ok {
        return None;
    }
    let largest = find_greatest_u16(
        view.data,
        origin.supertype_symbols as usize,
        2,
        origin.supertype_count,
    );
    let slices = copy(
        view,
        origin.supertype_map_slices,
        (largest as u128 + 1) * 4,
        &mut ok,
    );
    if !ok {
        return None;
    }
    let last_slice = origin.supertype_map_slices as usize + 4 * largest as usize;
    let entry_count = get_u16(view.data, last_slice) as u32 + get_u16(
        view.data,
        last_slice + 2,
    ) as u32;
    let entries = copy(view, origin.supertype_map_entries, entry_count as u128 * 2, &mut ok);
    if !ok {
        return None;
    }
    Some(Supertypes { symbols, slices, entries })
}

/// The aliases of a language.
struct Aliases {
    map: Option<Vec<u8>>,
    sequences: Option<Vec<u8>>,
}

/// Copies the aliases, where the language has any.
fn copy_aliases(view: &WasmMemoryView, origin: &LanguageInWasmMemory) -> (aliases: Option<Aliases>)
    ensures
        match aliases {
            Some(a) => {
                &&& origin.aliases_ok(view@)
                &&& copied(
                    a.map,
                    origin.has_aliases(),
                    view@,
                    origin.alias_map,
                    alias_map_end(view@, origin.alias_map as int)->0 - origin.alias_map,
                )
                &&& copied(
                    a.sequences,
                    origin.has_aliases(),
                    view@,
                    origin.alias_sequences,
                    origin.production_id_count * origin.max_alias_sequence_length * 2,
                )
            },
            None => !origin.aliases_ok(view@),
        },
{
    if origin.max_alias_sequence_length == 0 || origin.production_id_count == 0 {
        return Some(Aliases { map: None, sequences: None });
    }
    let map_size = match find_alias_map_size(view, origin.alias_map) {
        Some(map_size) => map_size,
        None => {
            return None;
        },
    };
    proof {
        alias_map_end_bounds(view@, origin.alias_map as int);
    }
    assert(0 <= origin.production_id_count * origin.max_alias_sequence_length <= u32::MAX
        * u16::MAX) by (nonlinear_arith)
        requires
            0 <= origin.production_id_count <= u32::MAX,
            0 <= origin.max_alias_sequence_length <= u16::MAX,
    ;
    let mut ok = true;
    let map = copy(view, origin.alias_map, map_size as u128, &mut ok);
    let sequences = copy(
        view,
        origin.alias_sequences,
        origin.production_id_count as u128 * origin.max_alias_sequence_length as u128 * 2,
        &mut ok,
    );
    if !ok {
        return None;
    }
    Some(Aliases { map, sequences })
}

/// The tables of the small states.
struct SmallStates {
    map: Option<Vec<u8>>,
    table: Option<Vec<u8>>,
}

/// Copies the tables of the small states, where the language has any.
fn copy_small_states(
    view: &WasmMemoryView,
    origin: &LanguageInWasmMemory,
    sentinels: &[i32],
) -> (small: Option<SmallStates>)
    ensures
        match small {
            Some(s) => {
                &&& origin.small_states_ok(view@, sentinels@)
                &&& copied(
                    s.map,
                    origin.has_small_states(),
                    view@,
                    origin.small_parse_table_map,
                    (origin.state_count - origin.large_state_count) * 4,
                )
                &&& contents(s.table) == if origin.has_small_states() {
                    unsized_copy(view@, origin.small_parse_table, sentinels@)
                } else {
                    None
                }
            },
            None => !origin.small_states_ok(view@, sentinels@),
        },
{
    if origin.state_count <= origin.large_state_count {
        return Some(SmallStates { map: None, table: None });
    }
    let mut ok = true;
    let small_state_count = origin.state_count - origin.large_state_count;
    let map = copy(view, origin.small_parse_table_map, small_state_count as u128 * 4, &mut ok);
    let table = copy_unsized_static_array(view, origin.small_parse_table, sentinels, &mut ok);
    if !ok {
        return None;
    }
    Some(SmallStates { map, table })
}

/// What the newer ABIs added to a language.
struct Newer {
    primary_state_ids: Option<Vec<u8>>,
    name: Option<Vec<u8>>,
    reserved_words: Option<Vec<u8>>,
}

/// Copies what the newer ABIs added, as far as the language has it.
fn copy_newer(view: &WasmMemoryView, origin: &LanguageInWasmMemory) -> (newer: Option<Newer>)
    requires
        sized_ok(view@, origin.lex_modes as int, origin.state_count * 6),
    ensures
        match newer {
            Some(n) => {
                &&& origin.newer_ok(view@)
                &&& copied(
                    n.primary_state_ids,
                    origin.abi_version >= LANGUAGE_VERSION_WITH_PRIMARY_STATES,
                    view@,
                    origin.primary_state_ids,
                    origin.state_count * 2,
                )
                &&& contents(n.name) == if origin.abi_version
                    >= LANGUAGE_VERSION_WITH_RESERVED_WORDS {
                    Some(string_copy(view@, origin.name as int))
                } else {
                    None
                }
                &&& copied(
                    n.reserved_words,
                    origin.has_reserved_words(view@),
                    view@,
                    origin.reserved_words,
                    origin.reserved_word_count(view@) * 2,
                )
            },
            None => !origin.newer_ok(view@),
        },
{
    let mut ok = true;
    let mut primary_state_ids: Option<Vec<u8>> = None;
    let mut name: Option<Vec<u8>> = None;
    let mut reserved_words: Option<Vec<u8>> = None;
    if origin.abi_version >= LANGUAGE_VERSION_WITH_PRIMARY_STATES {
        primary_state_ids = copy(
            view,
            origin.primary_state_ids,
            origin.state_count as u128 * 2,
            &mut ok,
        );
        if !ok {
            return None;
        }
    }
    if origin.abi_version >= LANGUAGE_VERSION_WITH_RESERVED_WORDS {
        name = copy_string(view, origin.name, &mut ok);
        if !ok {
            return None;
        }
        let max_set_id = if origin.state_count == 0 {
            0u16
        } else {
            find_greatest_u16(view.data, origin.lex_modes as usize + 4, 6, origin.state_count)
        };
        if max_set_id > 0 && origin.max_reserved_word_set_size > 0 {
            assert(0 <= (max_set_id + 1) * origin.max_reserved_word_set_size <= (u16::MAX + 1)
                * u16::MAX) by (nonlinear_arith)
                requires
                    0 <= max_set_id <= u16::MAX,
                    0 <= origin.max_reserved_word_set_size <= u16::MAX,
            ;
            let word_count = (max_set_id as u128 + 1) * origin.max_reserved_word_set_size as u128;
            reserved_words = copy(view, origin.reserved_words, word_count * 2, &mut ok);
            if !ok {
                return None;
            }
        }
    }
    Some(Newer { primary_state_ids, name, reserved_words })
}

/// Copies the external scanner, where the language has one.
fn copy_scanner(view: &WasmMemoryView, origin: &LanguageInWasmMemory) -> (scanner: Option<
    CExternalScanner,
>)
    ensures
        match scanner {
            Some(s) => {
                &&& origin.scanner_ok(view@)
                &&& copied(
                    s.symbol_map,
                    origin.external_token_count > 0,
                    view@,
                    origin.external_scanner.symbol_map,
                    origin.external_token_count * 2,
                )
                &&& s.states == if origin.external_token_count > 0 {
                    origin.external_scanner.states
                } else {
                    0
                }
            },
            None => !origin.scanner_ok(view@),
        },
{
    if origin.external_token_count == 0 {
        return Some(CExternalScanner { states: 0, symbol_map: None });
    }
    let mut ok = true;
    let symbol_map = copy(
        view,
        origin.external_scanner.symbol_map,
        origin.external_token_count as u128 * 2,
        &mut ok,
    );
    if !ok {
        return None;
    }
    // The valid-tokens table stays where it is: its offset outlives growth of
    // the memory, which a native address would not.
    Some(CExternalScanner { states: origin.external_scanner.states, symbol_map })
}

/// Collects the addresses that bound the arrays of unrecorded length.
fn collect_sentinels(
    origin: &LanguageInWasmMemory,
    language_address: i32,
    memory_offset: u32,
) -> (sentinels: Vec<i32>)
    ensures
        sentinels@ == origin.sentinels(language_address, memory_offset),
{
    let mut sentinels: Vec<i32> = Vec::new();
    sentinels.push(origin.parse_table);
    sentinels.push(origin.small_parse_table);
    sentinels.push(origin.small_parse_table_map);
    sentinels.push(origin.parse_actions);
    sentinels.push(origin.symbol_names);
    sentinels.push(origin.field_names);
    sentinels.push(origin.field_map_slices);
    sentinels.push(origin.field_map_entries);
    sentinels.push(origin.symbol_metadata);
    sentinels.push(origin.public_symbol_map);
    sentinels.push(origin.alias_map);
    sentinels.push(origin.alias_sequences);
    sentinels.push(origin.lex_modes);
    sentinels.push(origin.lex_fn);
    sentinels.push(origin.keyword_lex_fn);
    sentinels.push(origin.primary_state_ids);
    sentinels.push(origin.name);
    sentinels.push(origin.reserved_words);
    if origin.abi_version >= LANGUAGE_VERSION_WITH_RESERVED_WORDS && origin.supertype_count > 0 {
        sentinels.push(origin.supertype_symbols);
        sentinels.push(origin.supertype_map_entries);
        sentinels.push(origin.supertype_map_slices);
    }
    if origin.external_token_count > 0 {
        sentinels.push(origin.external_scanner.states);
        sentinels.push(origin.external_scanner.symbol_map);
        sentinels.push(origin.external_scanner.create);
        sentinels.push(origin.external_scanner.destroy);
        sentinels.push(origin.external_scanner.scan);
        sentinels.push(origin.external_scanner.serialize);
        sentinels.push(origin.external_scanner.deserialize);
    }
    sentinels.push(language_address);
    sentinels.push(memory_offset as i32);
    sentinels
}

/// What wires an instance: the seven function table indices, and the address
/// of the external scanner's states.
#[derive(Clone, Copy, Debug, PartialEq, Eq, Structural)]
pub struct InstanceAddresses {
    pub lex_fn: i32,
    pub keyword_lex_fn: i32,
    pub external_states_address: i32,
    pub scanner_create: i32,
    pub scanner_destroy: i32,
    pub scanner_scan: i32,
    pub scanner_serialize: i32,
    pub scanner_deserialize: i32,
}

/// The addresses that a language object records.
pub open spec fn instance_addresses(language: LanguageInWasmMemory) -> InstanceAddresses {
    InstanceAddresses {
        lex_fn: language.lex_fn,
        keyword_lex_fn: language.keyword_lex_fn,
        external_states_address: language.external_scanner.states,
        scanner_create: language.external_scanner.create,
        scanner_destroy: language.external_scanner.destroy,
        scanner_scan: language.external_scanner.scan,
        scanner_serialize: language.external_scanner.serialize,
        scanner_deserialize: language.external_scanner.deserialize,
    }
}

impl InstanceAddresses {
    /// Picks the addresses out of a language object.
    pub fn from_wasm_language(language: &LanguageInWasmMemory) -> (addresses: InstanceAddresses)
        ensures
            addresses == instance_addresses(*language),
    {
        InstanceAddresses {
            lex_fn: language.lex_fn,
            keyword_lex_fn: language.keyword_lex_fn,
            external_states_address: language.external_scanner.states,
            scanner_create: language.external_scanner.create,
            scanner_destroy: language.external_scanner.destroy,
            scanner_scan: language.external_scanner.scan,
            scanner_serialize: language.external_scanner.serialize,
            scanner_deserialize: language.external_scanner.deserialize,
        }
    }
}

/// Reads the addresses of the language object at `language_address`.
pub fn read_instance_addresses(data: &[u8], language_address: i32) -> (addresses: Option<
    InstanceAddresses,
>)
    ensures
        addresses == if in_memory(data@, language_address as int, LANGUAGE_SIZE as int) {
            Some(instance_addresses(language_at(data@, language_address as int)))
        } else {
            None
        },
{
    let view = WasmMemoryView { data };
    if !view.contains(language_address, LANGUAGE_SIZE) {
        return None;
    }
    let language = LanguageInWasmMemory::from_bytes(data, language_address as usize);
    Some(InstanceAddresses::from_wasm_language(&language))
}

/// The result of copying a language's static data out of Wasm memory.
pub struct CopyOutput {
    pub language: CLanguage,
    pub addresses: InstanceAddresses,
}

/// Whether the language ABI can be loaded.
pub open spec fn abi_compatible(abi_version: u32) -> bool {
    TREE_SITTER_MIN_COMPATIBLE_LANGUAGE_VERSION <= abi_version <= TREE_SITTER_LANGUAGE_VERSION
}

/// What copying out the language object at `language_address` comes to: a copy
/// of everything that it points to, or the failure of the first thing found
/// wrong.
pub open spec fn copies_out(
    memory: Seq<u8>,
    language_address: i32,
    memory_offset: u32,
    result: WasmResult<CopyOutput>,
) -> bool {
    let at = language_address as int;
    let origin = language_at(memory, at);
    let sentinels = origin.sentinels(language_address, memory_offset);
    if in_memory(memory, at, 4) && !abi_compatible(origin.abi_version) {
        result matches Err((kind, message)) && kind == INSTANTIATE && message@
            == incompatible_abi_message(origin.abi_version)
    } else if in_memory(memory, at, LANGUAGE_SIZE as int) && origin.copy_ok(memory, sentinels) {
        result matches Ok(output) && output.language.is_copy(memory, origin, sentinels)
            && output.addresses == instance_addresses(origin)
    } else {
        result matches Err((kind, message)) && kind == INSTANTIATE && message@
            == "invalid language memory address"@
    }
}

/// Reads and validates the language object at `language_address`, then copies
/// every static array that it points to. `memory_offset` is where the next
/// module will be placed, which is where this one's data ends.
pub fn copy_language_from(data: &[u8], language_address: i32, memory_offset: u32) -> (result:
    WasmResult<CopyOutput>)
    ensures
        copies_out(data@, language_address, memory_offset, result),
{
    let view = WasmMemoryView { data };
    let abi_version = match view.read_u32(language_address) {
        Some(abi_version) => abi_version,
        None => {
            return Err(invalid_language_memory());
        },
    };
    if abi_version < TREE_SITTER_MIN_COMPATIBLE_LANGUAGE_VERSION || abi_version
        > TREE_SITTER_LANGUAGE_VERSION {
        return Err(incompatible_abi(abi_version));
    }
    if !view.contains(language_address, LANGUAGE_SIZE) {
        return Err(invalid_language_memory());
    }
    let origin = LanguageInWasmMemory::from_bytes(data, language_address as usize);
    let addresses = InstanceAddresses::from_wasm_language(&origin);
    let sentinels = collect_sentinels(&origin, language_address, memory_offset);

    let tables = match copy_tables(&view, &origin, sentinels.as_slice()) {
        Some(tables) => tables,
        None => {
            return Err(invalid_language_memory());
        },
    };
    let fields = match copy_fields(&view, &origin) {
        Some(fields) => fields,
        None => {
            return Err(invalid_language_memory());
        },
    };
    let supertypes = match copy_supertypes(&view, &origin) {
        Some(supertypes) => supertypes,
        None => {
            return Err(invalid_language_memory());
        },
    };
    let aliases = match copy_aliases(&view, &origin) {
        Some(aliases) => aliases,
        None => {
            return Err(invalid_language_memory());
        },
    };
    let small = match copy_small_states(&view, &origin, sentinels.as_slice()) {
        Some(small) => small,
        None => {
            return Err(invalid_language_memory());
        },
    };
    let newer = match copy_newer(&view, &origin) {
        Some(newer) => newer,
        None => {
            return Err(invalid_language_memory());
        },
    };
    let external_scanner = match copy_scanner(&view, &origin) {
        Some(external_scanner) => external_scanner,
        None => {
            return Err(invalid_language_memory());
        },
    };

    let mut language = CLanguage::zeroed();
    language.abi_version = origin.abi_version;
    language.symbol_count = origin.symbol_count;
    language.alias_count = origin.alias_count;
    language.token_count = origin.token_count;
    language.external_token_count = origin.external_token_count;
    language.state_count = origin.state_count;
    language.large_state_count = origin.large_state_count;
    language.production_id_count = origin.production_id_count;
    language.field_count = origin.field_count;
    language.supertype_count = origin.supertype_count;
    language.max_alias_sequence_length = origin.max_alias_sequence_length;
    language.keyword_capture_token = origin.keyword_capture_token;
    language.metadata = origin.metadata;
    language.parse_table = tables.parse_table;
    language.parse_actions = tables.parse_actions;
    language.symbol_names = Some(tables.symbol_names);
    language.symbol_metadata = tables.symbol_metadata;
    language.public_symbol_map = tables.public_symbol_map;
    language.lex_modes = tables.lex_modes;
    language.field_map_slices = fields.slices;
    language.field_map_entries = fields.entries;
    language.field_names = fields.names;
    language.supertype_symbols = supertypes.symbols;
    language.supertype_map_slices = supertypes.slices;
    language.supertype_map_entries = supertypes.entries;
    language.alias_map = aliases.map;
    language.alias_sequences = aliases.sequences;
    language.small_parse_table_map = small.map;
    language.small_parse_table = small.table;
    language.primary_state_ids = newer.primary_state_ids;
    language.name = newer.name;
    language.reserved_words = newer.reserved_words;
    if origin.abi_version >= LANGUAGE_VERSION_WITH_RESERVED_WORDS {
        language.max_reserved_word_set_size = origin.max_reserved_word_set_size;
    }
    language.external_scanner = external_scanner;

    Ok(CopyOutput { language, addresses })
}

} // verus!
