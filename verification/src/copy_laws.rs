//! What a copied language is: which numbers, arrays and strings of it stand
//! where in memory.

use vstd::prelude::*;

use crate::bytes::le_u16;
use crate::copy_out::{copies_out, CopyOutput};
use crate::error::WasmResult;
use crate::language::{
    alias_map_end, alias_map_end_bounds, copied, greatest_slice_end, greatest_slice_end_is_greatest,
    greatest_u16, greatest_u16_is_greatest, slice_end,
};
use crate::layout::language_at;
use crate::memory::{first_nul, first_nul_is_nearest};
use crate::reading::{
    c_string, cast_is_signed, half, holds, lies_in, pointer, reads_what_stands, signed, stands_at,
    word,
};
use crate::statics::{
    contents, least_above, least_above_is_least, sized_ok, string_address, string_copy, string_ok,
    string_table_holds_strings, strings_ok, unsized_copy, unsized_ok, StringTable,
};
use crate::text::decimal;

verus! {

/// Every number of a language object is read at its own offset.
proof fn language_objects_are_read(memory: Seq<u8>, at: int)
    ensures
        ({
            let origin = language_at(memory, at);
            &&& origin.abi_version == word(memory, at + 0)
            &&& origin.symbol_count == word(memory, at + 4)
            &&& origin.alias_count == word(memory, at + 8)
            &&& origin.token_count == word(memory, at + 12)
            &&& origin.external_token_count == word(memory, at + 16)
            &&& origin.state_count == word(memory, at + 20)
            &&& origin.large_state_count == word(memory, at + 24)
            &&& origin.production_id_count == word(memory, at + 28)
            &&& origin.field_count == word(memory, at + 32)
            &&& origin.max_alias_sequence_length == half(memory, at + 36)
            &&& origin.parse_table == pointer(memory, at + 40)
            &&& origin.small_parse_table == pointer(memory, at + 44)
            &&& origin.small_parse_table_map == pointer(memory, at + 48)
            &&& origin.parse_actions == pointer(memory, at + 52)
            &&& origin.symbol_names == pointer(memory, at + 56)
            &&& origin.field_names == pointer(memory, at + 60)
            &&& origin.field_map_slices == pointer(memory, at + 64)
            &&& origin.field_map_entries == pointer(memory, at + 68)
            &&& origin.symbol_metadata == pointer(memory, at + 72)
            &&& origin.public_symbol_map == pointer(memory, at + 76)
            &&& origin.alias_map == pointer(memory, at + 80)
            &&& origin.alias_sequences == pointer(memory, at + 84)
            &&& origin.lex_modes == pointer(memory, at + 88)
            &&& origin.lex_fn == pointer(memory, at + 92)
            &&& origin.keyword_lex_fn == pointer(memory, at + 96)
            &&& origin.keyword_capture_token == half(memory, at + 100)
            &&& origin.external_scanner.states == pointer(memory, at + 104)
            &&& origin.external_scanner.symbol_map == pointer(memory, at + 108)
            &&& origin.external_scanner.create == pointer(memory, at + 112)
            &&& origin.external_scanner.destroy == pointer(memory, at + 116)
            &&& origin.external_scanner.scan == pointer(memory, at + 120)
            &&& origin.external_scanner.serialize == pointer(memory, at + 124)
            &&& origin.external_scanner.deserialize == pointer(memory, at + 128)
            &&& origin.primary_state_ids == pointer(memory, at + 132)
            &&& origin.name == pointer(memory, at + 136)
            &&& origin.reserved_words == pointer(memory, at + 140)
            &&& origin.max_reserved_word_set_size == half(memory, at + 144)
            &&& origin.supertype_count == word(memory, at + 148)
            &&& origin.supertype_symbols == pointer(memory, at + 152)
            &&& origin.supertype_map_slices == pointer(memory, at + 156)
            &&& origin.supertype_map_entries == pointer(memory, at + 160)
            &&& origin.metadata.major_version == memory[at + 164]
            &&& origin.metadata.minor_version == memory[at + 165]
            &&& origin.metadata.patch_version == memory[at + 166]
        }),
{
    reads_what_stands(memory, at + 0);
    reads_what_stands(memory, at + 4);
    reads_what_stands(memory, at + 8);
    reads_what_stands(memory, at + 12);
    reads_what_stands(memory, at + 16);
    reads_what_stands(memory, at + 20);
    reads_what_stands(memory, at + 24);
    reads_what_stands(memory, at + 28);
    reads_what_stands(memory, at + 32);
    reads_what_stands(memory, at + 36);
    reads_what_stands(memory, at + 40);
    reads_what_stands(memory, at + 44);
    reads_what_stands(memory, at + 48);
    reads_what_stands(memory, at + 52);
    reads_what_stands(memory, at + 56);
    reads_what_stands(memory, at + 60);
    reads_what_stands(memory, at + 64);
    reads_what_stands(memory, at + 68);
    reads_what_stands(memory, at + 72);
    reads_what_stands(memory, at + 76);
    reads_what_stands(memory, at + 80);
    reads_what_stands(memory, at + 84);
    reads_what_stands(memory, at + 88);
    reads_what_stands(memory, at + 92);
    reads_what_stands(memory, at + 96);
    reads_what_stands(memory, at + 100);
    reads_what_stands(memory, at + 104);
    reads_what_stands(memory, at + 108);
    reads_what_stands(memory, at + 112);
    reads_what_stands(memory, at + 116);
    reads_what_stands(memory, at + 120);
    reads_what_stands(memory, at + 124);
    reads_what_stands(memory, at + 128);
    reads_what_stands(memory, at + 132);
    reads_what_stands(memory, at + 136);
    reads_what_stands(memory, at + 140);
    reads_what_stands(memory, at + 144);
    reads_what_stands(memory, at + 148);
    reads_what_stands(memory, at + 152);
    reads_what_stands(memory, at + 156);
    reads_what_stands(memory, at + 160);
}

/// The numbers of a copied language are those of the language object, each from
/// its own place.
pub proof fn copied_numbers_stand_in_the_object(
    memory: Seq<u8>,
    address: i32,
    memory_offset: u32,
    output: CopyOutput,
)
    requires
        copies_out(memory, address, memory_offset, Ok(output)),
    ensures
        ({
            let language = output.language;
            let at = address as int;
            &&& language.abi_version == word(memory, at)
            &&& language.symbol_count == word(memory, at + 4)
            &&& language.alias_count == word(memory, at + 8)
            &&& language.token_count == word(memory, at + 12)
            &&& language.external_token_count == word(memory, at + 16)
            &&& language.state_count == word(memory, at + 20)
            &&& language.large_state_count == word(memory, at + 24)
            &&& language.production_id_count == word(memory, at + 28)
            &&& language.field_count == word(memory, at + 32)
            &&& language.max_alias_sequence_length == half(memory, at + 36)
            &&& language.keyword_capture_token == half(memory, at + 100)
            &&& language.supertype_count == word(memory, at + 148)
            &&& language.metadata.major_version == memory[at + 164]
            &&& language.metadata.minor_version == memory[at + 165]
            &&& language.metadata.patch_version == memory[at + 166]
            &&& language.max_reserved_word_set_size == if word(memory, at) >= 15 {
                half(memory, at + 144)
            } else {
                0
            }
            &&& language.external_scanner.states == if word(memory, at + 16) > 0 {
                pointer(memory, at + 104)
            } else {
                0
            }
            &&& language.lex_fn is None
            &&& language.keyword_lex_fn is None
        }),
{
    language_objects_are_read(memory, address as int);
}

/// The addresses that wire an instance are those of the language object: the lex
/// functions, the table of valid tokens, and the functions of the external
/// scanner.
pub proof fn copied_addresses_stand_in_the_object(
    memory: Seq<u8>,
    address: i32,
    memory_offset: u32,
    output: CopyOutput,
)
    requires
        copies_out(memory, address, memory_offset, Ok(output)),
    ensures
        ({
            let addresses = output.addresses;
            let at = address as int;
            &&& addresses.lex_fn == pointer(memory, at + 92)
            &&& addresses.keyword_lex_fn == pointer(memory, at + 96)
            &&& addresses.external_states_address == pointer(memory, at + 104)
            &&& addresses.scanner_create == pointer(memory, at + 112)
            &&& addresses.scanner_destroy == pointer(memory, at + 116)
            &&& addresses.scanner_scan == pointer(memory, at + 120)
            &&& addresses.scanner_serialize == pointer(memory, at + 124)
            &&& addresses.scanner_deserialize == pointer(memory, at + 128)
        }),
{
    language_objects_are_read(memory, address as int);
}

/// `count` things of `size` bytes each, where there are to be any.
pub open spec fn bytes_for(present: bool, count: int, size: int) -> int {
    if present {
        count * size
    } else {
        0
    }
}

/// A product of counts is a count.
proof fn products_are_not_negative(a: int, b: int)
    requires
        a >= 0,
        b >= 0,
    ensures
        a * b >= 0,
        a > 0 && b > 0 ==> a * b > 0,
{
    assert(a * b >= 0) by (nonlinear_arith)
        requires
            a >= 0,
            b >= 0,
    ;
    if a > 0 && b > 0 {
        assert(a * b > 0) by (nonlinear_arith)
            requires
                a > 0,
                b > 0,
        ;
    }
}

/// An array that was copied is held.
proof fn copied_array_is_held(
    array: Option<Vec<u8>>,
    present: bool,
    memory: Seq<u8>,
    address: i32,
    size: int,
)
    requires
        copied(array, present, memory, address, size),
        present ==> sized_ok(memory, address as int, size),
        0 <= size,
    ensures
        holds(array, memory, address as int, if present {
            size
        } else {
            0
        }),
{
}

/// The arrays that a language records the lengths of hold the bytes that their
/// addresses point to, as many as the counts say.
pub proof fn copied_arrays_stand_where_they_are_said_to(
    memory: Seq<u8>,
    address: i32,
    memory_offset: u32,
    output: CopyOutput,
)
    requires
        copies_out(memory, address, memory_offset, Ok(output)),
    ensures
        ({
            let language = output.language;
            let at = address as int;
            let abi = word(memory, at);
            let symbols = word(memory, at + 4);
            let names = symbols + word(memory, at + 8);
            let external_tokens = word(memory, at + 16);
            let states = word(memory, at + 20);
            let large_states = word(memory, at + 24);
            let productions = word(memory, at + 28);
            let fields = word(memory, at + 32);
            let longest_alias = half(memory, at + 36);
            let supertypes = word(memory, at + 148);
            &&& holds(
                language.parse_table,
                memory,
                pointer(memory, at + 40),
                large_states * symbols * 2,
            )
            &&& holds(language.symbol_metadata, memory, pointer(memory, at + 72), names * 3)
            &&& holds(language.public_symbol_map, memory, pointer(memory, at + 76), names * 2)
            &&& holds(language.lex_modes, memory, pointer(memory, at + 88), states * 6)
            &&& holds(
                language.small_parse_table_map,
                memory,
                pointer(memory, at + 48),
                bytes_for(states > large_states, states - large_states, 4),
            )
            &&& holds(
                language.primary_state_ids,
                memory,
                pointer(memory, at + 132),
                bytes_for(abi >= 14, states, 2),
            )
            &&& holds(
                language.alias_sequences,
                memory,
                pointer(memory, at + 84),
                bytes_for(longest_alias > 0 && productions > 0, productions * longest_alias, 2),
            )
            &&& holds(
                language.field_map_slices,
                memory,
                pointer(memory, at + 64),
                bytes_for(fields > 0 && productions > 0, productions, 4),
            )
            &&& holds(
                language.supertype_symbols,
                memory,
                pointer(memory, at + 152),
                bytes_for(abi >= 15, supertypes, 2),
            )
            &&& holds(
                language.external_scanner.symbol_map,
                memory,
                pointer(memory, at + 108),
                external_tokens * 2,
            )
        }),
{
    let at = address as int;
    language_objects_are_read(memory, at);
    let origin = language_at(memory, at);
    products_are_not_negative(origin.large_state_count as int, origin.symbol_count as int);
    products_are_not_negative(
        origin.production_id_count as int,
        origin.max_alias_sequence_length as int,
    );
    let language = output.language;
    let names = origin.symbol_name_count();
    copied_array_is_held(
        language.parse_table,
        true,
        memory,
        origin.parse_table,
        origin.large_state_count * origin.symbol_count * 2,
    );
    copied_array_is_held(
        language.symbol_metadata,
        true,
        memory,
        origin.symbol_metadata,
        names * 3,
    );
    copied_array_is_held(
        language.public_symbol_map,
        true,
        memory,
        origin.public_symbol_map,
        names * 2,
    );
    copied_array_is_held(
        language.lex_modes,
        true,
        memory,
        origin.lex_modes,
        origin.state_count * 6,
    );
    if origin.has_small_states() {
        copied_array_is_held(
            language.small_parse_table_map,
            true,
            memory,
            origin.small_parse_table_map,
            (origin.state_count - origin.large_state_count) * 4,
        );
    }
    copied_array_is_held(
        language.primary_state_ids,
        origin.abi_version >= 14,
        memory,
        origin.primary_state_ids,
        origin.state_count * 2,
    );
    copied_array_is_held(
        language.alias_sequences,
        origin.has_aliases(),
        memory,
        origin.alias_sequences,
        origin.production_id_count * origin.max_alias_sequence_length * 2,
    );
    copied_array_is_held(
        language.field_map_slices,
        origin.has_fields(),
        memory,
        origin.field_map_slices,
        origin.production_id_count * 4,
    );
    copied_array_is_held(
        language.supertype_symbols,
        origin.has_supertypes(),
        memory,
        origin.supertype_symbols,
        origin.supertype_count * 2,
    );
    copied_array_is_held(
        language.external_scanner.symbol_map,
        origin.external_token_count > 0,
        memory,
        origin.external_scanner.symbol_map,
        origin.external_token_count * 2,
    );
}

/// Whether `greatest` is the greatest of the numbers in two bytes each, `count` of
/// them, the first at `at`, `stride` bytes apart. Of none it is zero.
pub open spec fn is_greatest_half(
    bytes: Seq<u8>,
    at: int,
    stride: int,
    count: int,
    greatest: int,
) -> bool {
    &&& forall|i: int| 0 <= i < count ==> half(bytes, #[trigger] (at + stride * i)) <= greatest
    &&& if count > 0 {
        exists|i: int| 0 <= i < count && half(bytes, #[trigger] (at + stride * i)) == greatest
    } else {
        greatest == 0
    }
}

/// The end of the slice at `at`: its start and its length are two bytes each.
pub open spec fn end_of_slice(bytes: Seq<u8>, at: int) -> int {
    half(bytes, at) + half(bytes, at + 2)
}

/// Whether `greatest` is the greatest end of `count` slices, the first at `at`.
pub open spec fn is_greatest_end(bytes: Seq<u8>, at: int, count: int, greatest: int) -> bool {
    &&& forall|i: int| 0 <= i < count ==> end_of_slice(bytes, #[trigger] (at + 4 * i)) <= greatest
    &&& if count > 0 {
        exists|i: int| 0 <= i < count && end_of_slice(bytes, #[trigger] (at + 4 * i)) == greatest
    } else {
        greatest == 0
    }
}

/// The greatest number that is found is the greatest.
proof fn found_half_is_greatest(bytes: Seq<u8>, at: int, stride: int, count: int)
    ensures
        is_greatest_half(bytes, at, stride, count, greatest_u16(bytes, at, stride, count)),
        count <= 0 ==> greatest_u16(bytes, at, stride, count) == 0,
        greatest_u16(bytes, at, stride, count) >= 0,
{
    greatest_u16_is_greatest(bytes, at, stride, count);
    let greatest = greatest_u16(bytes, at, stride, count);
    assert forall|i: int| 0 <= i < count implies half(bytes, #[trigger] (at + stride * i))
        <= greatest by {
        reads_what_stands(bytes, at + stride * i);
        assert(le_u16(bytes, at + stride * i) <= greatest);
    }
    if count > 0 {
        let i = choose|i: int|
            0 <= i < count && #[trigger] le_u16(bytes, at + stride * i) == greatest;
        reads_what_stands(bytes, at + stride * i);
    }
}

/// The greatest end that is found is the greatest.
proof fn found_end_is_greatest(bytes: Seq<u8>, at: int, count: int)
    ensures
        is_greatest_end(bytes, at, count, greatest_slice_end(bytes, at, count)),
        greatest_slice_end(bytes, at, count) >= 0,
{
    greatest_slice_end_is_greatest(bytes, at, count);
    let greatest = greatest_slice_end(bytes, at, count);
    assert forall|i: int| 0 <= i < count implies end_of_slice(bytes, #[trigger] (at + 4 * i))
        <= greatest by {
        reads_what_stands(bytes, at + 4 * i);
        reads_what_stands(bytes, at + 4 * i + 2);
        assert(slice_end(bytes, at + 4 * i) <= greatest);
    }
    if count > 0 {
        let i = choose|i: int|
            0 <= i < count && #[trigger] slice_end(bytes, at + 4 * i) == greatest;
        reads_what_stands(bytes, at + 4 * i);
        reads_what_stands(bytes, at + 4 * i + 2);
    }
}

/// The entries of fields reach up to the greatest end of a slice.
#[verifier::spinoff_prover]
proof fn copied_fields_reach_what_is_referred_to(
    memory: Seq<u8>,
    address: i32,
    memory_offset: u32,
    output: CopyOutput,
)
    requires
        copies_out(memory, address, memory_offset, Ok(output)),
    ensures
        ({
            let language = output.language;
            let at = address as int;
            let productions = word(memory, at + 28);
            let fields = word(memory, at + 32);
            let slices = pointer(memory, at + 64);
            exists|entries: int| #[trigger]
                is_greatest_end(memory, slices, productions, entries) && holds(
                    language.field_map_entries,
                    memory,
                    pointer(memory, at + 68),
                    bytes_for(fields > 0 && productions > 0, entries, 4),
                )
        }),
{
    let at = address as int;
    let language = output.language;
    language_objects_are_read(memory, at);
    let origin = language_at(memory, at);
    let slices = origin.field_map_slices as int;
    found_end_is_greatest(memory, slices, origin.production_id_count as int);
    let entries = origin.field_map_entry_count(memory);
    copied_array_is_held(
        language.field_map_entries,
        origin.has_fields(),
        memory,
        origin.field_map_entries,
        entries * 4,
    );
    assert(is_greatest_end(memory, slices, word(memory, at + 28), entries));
}

/// The slices of supertypes reach up to that of the greatest one, and the entries
/// up to its end.
#[verifier::spinoff_prover]
proof fn copied_supertypes_reach_what_is_referred_to(
    memory: Seq<u8>,
    address: i32,
    memory_offset: u32,
    output: CopyOutput,
)
    requires
        copies_out(memory, address, memory_offset, Ok(output)),
    ensures
        ({
            let language = output.language;
            let at = address as int;
            let present = word(memory, at) >= 15 && word(memory, at + 148) > 0;
            let supertypes = pointer(memory, at + 152);
            let count = word(memory, at + 148);
            let slices = pointer(memory, at + 156);
            exists|supertype: int|
                {
                    &&& #[trigger] is_greatest_half(memory, supertypes, 2, count, supertype)
                    &&& holds(
                        language.supertype_map_slices,
                        memory,
                        slices,
                        bytes_for(present, supertype + 1, 4),
                    )
                    &&& holds(
                        language.supertype_map_entries,
                        memory,
                        pointer(memory, at + 160),
                        bytes_for(present, end_of_slice(memory, slices + 4 * supertype), 2),
                    )
                }
        }),
{
    let at = address as int;
    let language = output.language;
    language_objects_are_read(memory, at);
    let origin = language_at(memory, at);
    let supertype = origin.largest_supertype(memory);
    found_half_is_greatest(
        memory,
        origin.supertype_symbols as int,
        2,
        origin.supertype_count as int,
    );
    let last_slice = origin.supertype_map_slices + 4 * supertype;
    reads_what_stands(memory, last_slice);
    reads_what_stands(memory, last_slice + 2);
    copied_array_is_held(
        language.supertype_map_slices,
        origin.has_supertypes(),
        memory,
        origin.supertype_map_slices,
        (supertype + 1) * 4,
    );
    copied_array_is_held(
        language.supertype_map_entries,
        origin.has_supertypes(),
        memory,
        origin.supertype_map_entries,
        origin.supertype_map_entry_count(memory) * 2,
    );
    assert(is_greatest_half(
        memory,
        pointer(memory, at + 152),
        2,
        word(memory, at + 148),
        supertype,
    ));
}

/// The reserved words reach up to the end of the greatest set that is named.
#[verifier::spinoff_prover]
proof fn copied_reserved_words_reach_what_is_referred_to(
    memory: Seq<u8>,
    address: i32,
    memory_offset: u32,
    output: CopyOutput,
)
    requires
        copies_out(memory, address, memory_offset, Ok(output)),
    ensures
        ({
            let language = output.language;
            let at = address as int;
            let set_size = half(memory, at + 144);
            let sets = pointer(memory, at + 88) + 4;
            let states = word(memory, at + 20);
            exists|set: int| #[trigger]
                is_greatest_half(memory, sets, 6, states, set) && holds(
                    language.reserved_words,
                    memory,
                    pointer(memory, at + 140),
                    bytes_for(
                        word(memory, at) >= 15 && set > 0 && set_size > 0,
                        (set + 1) * set_size,
                        2,
                    ),
                )
        }),
{
    let at = address as int;
    let language = output.language;
    language_objects_are_read(memory, at);
    let origin = language_at(memory, at);
    let set = origin.max_reserved_word_set_id(memory);
    let set_size = half(memory, at + 144);
    found_half_is_greatest(memory, origin.lex_modes + 4, 6, origin.state_count as int);
    products_are_not_negative(set + 1, set_size);
    copied_array_is_held(
        language.reserved_words,
        origin.has_reserved_words(memory),
        memory,
        origin.reserved_words,
        origin.reserved_word_count(memory) * 2,
    );
    assert(is_greatest_half(
        memory,
        pointer(memory, at + 88) + 4,
        6,
        word(memory, at + 20),
        set,
    ));
}

/// The arrays whose lengths follow from what other arrays refer to hold the bytes
/// that their addresses point to, up to the last that is referred to: the entries
/// of fields up to the greatest end of a slice; the slices of supertypes up to
/// that of the greatest supertype, and the entries up to the end of that slice;
/// the reserved words up to the end of the greatest set that a lex mode names.
pub proof fn copied_arrays_reach_what_is_referred_to(
    memory: Seq<u8>,
    address: i32,
    memory_offset: u32,
    output: CopyOutput,
)
    requires
        copies_out(memory, address, memory_offset, Ok(output)),
    ensures
        ({
            let language = output.language;
            let at = address as int;
            let productions = word(memory, at + 28);
            let fields = word(memory, at + 32);
            let slices = pointer(memory, at + 64);
            exists|entries: int| #[trigger]
                is_greatest_end(memory, slices, productions, entries) && holds(
                    language.field_map_entries,
                    memory,
                    pointer(memory, at + 68),
                    bytes_for(fields > 0 && productions > 0, entries, 4),
                )
        }),
        ({
            let language = output.language;
            let at = address as int;
            let present = word(memory, at) >= 15 && word(memory, at + 148) > 0;
            let supertypes = pointer(memory, at + 152);
            let count = word(memory, at + 148);
            let slices = pointer(memory, at + 156);
            exists|supertype: int|
                {
                    &&& #[trigger] is_greatest_half(memory, supertypes, 2, count, supertype)
                    &&& holds(
                        language.supertype_map_slices,
                        memory,
                        slices,
                        bytes_for(present, supertype + 1, 4),
                    )
                    &&& holds(
                        language.supertype_map_entries,
                        memory,
                        pointer(memory, at + 160),
                        bytes_for(present, end_of_slice(memory, slices + 4 * supertype), 2),
                    )
                }
        }),
        ({
            let language = output.language;
            let at = address as int;
            let set_size = half(memory, at + 144);
            let sets = pointer(memory, at + 88) + 4;
            let states = word(memory, at + 20);
            exists|set: int| #[trigger]
                is_greatest_half(memory, sets, 6, states, set) && holds(
                    language.reserved_words,
                    memory,
                    pointer(memory, at + 140),
                    bytes_for(
                        word(memory, at) >= 15 && set > 0 && set_size > 0,
                        (set + 1) * set_size,
                        2,
                    ),
                )
        }),
{
    copied_fields_reach_what_is_referred_to(memory, address, memory_offset, output);
    copied_supertypes_reach_what_is_referred_to(memory, address, memory_offset, output);
    copied_reserved_words_reach_what_is_referred_to(memory, address, memory_offset, output);
}

/// A string that is found is the one that stands there.
proof fn found_string_stands(bytes: Seq<u8>, at: int)
    requires
        first_nul(bytes, at) is Some,
    ensures
        c_string(bytes, at, first_nul(bytes, at)->0 as int),
{
    first_nul_is_nearest(bytes, at);
    let length = first_nul(bytes, at)->0 as int;
    assert forall|i: int| 0 <= i < length implies bytes[#[trigger] (at + i)] != 0 by {}
}

/// A string that stands somewhere is found.
proof fn standing_string_is_found(bytes: Seq<u8>, at: int, length: int)
    requires
        c_string(bytes, at, length),
    ensures
        first_nul(bytes, at) == Some(length as nat),
    decreases length,
{
    if length > 0 {
        assert(bytes[at + 0] != 0);
        assert forall|i: int| 0 <= i < length - 1 implies bytes[#[trigger] (at + 1 + i)] != 0 by {
            assert(bytes[at + (i + 1)] != 0);
        }
        standing_string_is_found(bytes, at + 1, length - 1);
    }
}

/// Whether entry `index` of a table of strings holds what the entry of the array
/// at `array` points to: nothing for a null one, else the bytes of the string and
/// their NUL.
pub open spec fn entry_holds(
    table: StringTable,
    bytes: Seq<u8>,
    array: int,
    index: int,
) -> bool {
    let at = pointer(bytes, array + 4 * index);
    match table.array@[index] {
        Some(offset) => at != 0 && exists|length: int|
            {
                &&& #[trigger] c_string(bytes, at, length)
                &&& offset + length + 1 <= table.scratch@.len()
                &&& stands_at(
                    bytes,
                    at,
                    table.scratch@.subrange(offset as int, offset + length + 1),
                )
            },
        None => at == 0,
    }
}

/// Whether a table holds the `count` strings that the array at `array` points to,
/// in their order.
pub open spec fn holds_strings(
    table: Option<StringTable>,
    bytes: Seq<u8>,
    array: int,
    count: int,
) -> bool {
    table matches Some(table) && table.array@.len() == count && forall|index: int|
        0 <= index < count ==> #[trigger] entry_holds(table, bytes, array, index)
}

/// A copied table holds its strings.
proof fn copied_table_holds_strings(
    table: StringTable,
    bytes: Seq<u8>,
    array: int,
    count: int,
)
    requires
        table.is_copy(bytes, array, count),
        strings_ok(bytes, array, count),
        0 <= count,
    ensures
        holds_strings(Some(table), bytes, array, count),
{
    assert forall|index: int| 0 <= index < count implies #[trigger] entry_holds(
        table,
        bytes,
        array,
        index,
    ) by {
        reads_what_stands(bytes, array + 4 * index);
        let at = string_address(bytes, array, index) as int;
        assert(string_ok(bytes, array, index));
        if let Some(offset) = table.array@[index] {
            string_table_holds_strings(table, bytes, array, count, index);
            found_string_stands(bytes, at);
            let length = first_nul(bytes, at)->0 as int;
            assert(c_string(bytes, at, length));
            let string = string_copy(bytes, at);
            assert(string.len() == length + 1);
            assert(table.scratch@.subrange(offset as int, offset + length + 1) == string);
        }
    }
}

/// The names of a copied language are the strings that it points to, in their
/// order: one for each symbol and alias, one for each field and one more, and for
/// newer languages its own name.
pub proof fn copied_names_are_the_strings(
    memory: Seq<u8>,
    address: i32,
    memory_offset: u32,
    output: CopyOutput,
)
    requires
        copies_out(memory, address, memory_offset, Ok(output)),
    ensures
        ({
            let language = output.language;
            let at = address as int;
            let productions = word(memory, at + 28);
            let fields = word(memory, at + 32);
            let own = pointer(memory, at + 136);
            &&& holds_strings(
                language.symbol_names,
                memory,
                pointer(memory, at + 56),
                word(memory, at + 4) + word(memory, at + 8),
            )
            &&& if fields > 0 && productions > 0 {
                holds_strings(language.field_names, memory, pointer(memory, at + 60), fields + 1)
            } else {
                language.field_names is None
            }
            &&& if word(memory, at) >= 15 {
                exists|length: int| #[trigger]
                    c_string(memory, own, length) && holds(language.name, memory, own, length + 1)
            } else {
                language.name is None
            }
        }),
{
    let at = address as int;
    let language = output.language;
    language_objects_are_read(memory, at);
    let origin = language_at(memory, at);
    copied_table_holds_strings(
        language.symbol_names->0,
        memory,
        origin.symbol_names as int,
        origin.symbol_name_count(),
    );
    if origin.has_fields() {
        copied_table_holds_strings(
            language.field_names->0,
            memory,
            origin.field_names as int,
            origin.field_count + 1,
        );
    }
    if origin.abi_version >= 15 {
        found_string_stands(memory, origin.name as int);
        let length = first_nul(memory, origin.name as int)->0 as int;
        assert(holds(language.name, memory, origin.name as int, length + 1));
    }
}

/// Whether `starts` are where the groups of an alias map stand, which ends with
/// the last: each is a symbol, a count and that many symbols, of two bytes each,
/// and the last is a null symbol.
pub open spec fn alias_groups(bytes: Seq<u8>, starts: Seq<int>) -> bool {
    &&& starts.len() > 0
    &&& forall|i: int|
        0 <= i < starts.len() ==> 0 <= #[trigger] starts[i] && starts[i] + 2 <= bytes.len()
    &&& forall|i: int|
        0 <= i < starts.len() - 1 ==> {
            &&& half(bytes, #[trigger] starts[i]) != 0
            &&& starts[i] + 4 <= bytes.len()
            &&& starts[i + 1] == starts[i] + 4 + 2 * half(bytes, starts[i] + 2)
        }
    &&& half(bytes, starts.last()) == 0
}

/// An alias map that ends has its groups.
proof fn ended_alias_map_has_groups(bytes: Seq<u8>, at: int) -> (starts: Seq<int>)
    requires
        alias_map_end(bytes, at) is Some,
    ensures
        alias_groups(bytes, starts),
        starts[0] == at,
        alias_map_end(bytes, at) == Some(starts.last() + 2),
    decreases
        (if at < bytes.len() {
            bytes.len() - at
        } else {
            0
        }),
{
    reads_what_stands(bytes, at);
    reads_what_stands(bytes, at + 2);
    if half(bytes, at) == 0 {
        seq![at]
    } else {
        let next = at + 4 + 2 * half(bytes, at + 2);
        let rest = ended_alias_map_has_groups(bytes, next);
        let starts = seq![at] + rest;
        assert(starts.last() == rest.last());
        assert forall|i: int| 0 <= i < starts.len() implies 0 <= #[trigger] starts[i] && starts[i]
            + 2 <= bytes.len() by {
            if i > 0 {
                assert(starts[i] == rest[i - 1]);
            }
        }
        assert forall|i: int| 0 <= i < starts.len() - 1 implies {
            &&& half(bytes, #[trigger] starts[i]) != 0
            &&& starts[i] + 4 <= bytes.len()
            &&& starts[i + 1] == starts[i] + 4 + 2 * half(bytes, starts[i] + 2)
        } by {
            if i > 0 {
                assert(starts[i] == rest[i - 1]);
                assert(starts[i + 1] == rest[i]);
            }
        }
        starts
    }
}

/// The alias map of a copied language is that which its address points to, from
/// its first group to the null symbol behind the last.
pub proof fn copied_alias_map_has_all_groups(
    memory: Seq<u8>,
    address: i32,
    memory_offset: u32,
    output: CopyOutput,
)
    requires
        copies_out(memory, address, memory_offset, Ok(output)),
    ensures
        ({
            let language = output.language;
            let at = address as int;
            let map = pointer(memory, at + 80);
            if half(memory, at + 36) > 0 && word(memory, at + 28) > 0 {
                exists|starts: Seq<int>|
                    {
                        &&& #[trigger] alias_groups(memory, starts)
                        &&& starts[0] == map
                        &&& holds(language.alias_map, memory, map, starts.last() + 2 - map)
                    }
            } else {
                language.alias_map is None
            }
        }),
{
    let at = address as int;
    language_objects_are_read(memory, at);
    let origin = language_at(memory, at);
    let map = origin.alias_map as int;
    if origin.has_aliases() {
        let starts = ended_alias_map_has_groups(memory, map);
        alias_map_end_bounds(memory, map);
        assert(alias_groups(memory, starts));
        assert(holds(output.language.alias_map, memory, map, starts.last() + 2 - map));
    }
}

/// Whether the language object at `at` has an address `offset` bytes into it that
/// can bound an array: that of an array, or of a function; those of supertypes and
/// of the external scanner only where there are any.
pub open spec fn has_address(memory: Seq<u8>, at: int, offset: int) -> bool {
    &&& offset % 4 == 0
    &&& {
        ||| 40 <= offset <= 96
        ||| 132 <= offset <= 140
        ||| 152 <= offset <= 160 && word(memory, at) >= 15 && word(memory, at + 148) > 0
        ||| 104 <= offset <= 128 && word(memory, at + 16) > 0
    }
}

/// Whether an array can end at `end`: there stands another one, the language
/// object, or the next module.
pub open spec fn can_end_at(memory: Seq<u8>, at: int, memory_offset: u32, end: int) -> bool {
    ||| exists|offset: int| #[trigger]
        has_address(memory, at, offset) && pointer(memory, at + offset) == end
    ||| end == at
    ||| end == signed(memory_offset as int)
}

/// How far into a language object the address stands that is number `index` of
/// those that bound arrays.
spec fn offset_of_address(index: int, supertypes: bool) -> int {
    if index < 15 {
        40 + 4 * index
    } else if index < 18 {
        132 + 4 * (index - 15)
    } else if supertypes && index == 18 {
        152
    } else if supertypes && index == 19 {
        160
    } else if supertypes && index == 20 {
        156
    } else if supertypes {
        104 + 4 * (index - 21)
    } else {
        104 + 4 * (index - 18)
    }
}

/// The addresses that bound arrays are listed.
#[verifier::spinoff_prover]
proof fn addresses_are_listed(memory: Seq<u8>, address: i32, memory_offset: u32)
    ensures
        lists_addresses(
            memory,
            address as int,
            memory_offset,
            language_at(memory, address as int).sentinels(address, memory_offset),
            word(memory, address as int) >= 15 && word(memory, address + 148) > 0,
            word(memory, address + 16) > 0,
        ),
{
    let at = address as int;
    language_objects_are_read(memory, at);
    cast_is_signed(memory_offset);
    let origin = language_at(memory, at);
    let sentinels = origin.sentinels(address, memory_offset);
    let supertypes = origin.has_supertypes();
    let start = if supertypes {
        21int
    } else {
        18
    };
    let last = sentinels.len() - 2;
    assert forall|k: int| 0 <= k < last implies #[trigger] sentinels[k] == pointer(
        memory,
        at + offset_of_address(k, supertypes),
    ) by {
        assert(sentinels[0] == origin.parse_table);
        assert(sentinels[1] == origin.small_parse_table);
        assert(sentinels[2] == origin.small_parse_table_map);
        assert(sentinels[3] == origin.parse_actions);
        assert(sentinels[4] == origin.symbol_names);
        assert(sentinels[5] == origin.field_names);
        assert(sentinels[6] == origin.field_map_slices);
        assert(sentinels[7] == origin.field_map_entries);
        assert(sentinels[8] == origin.symbol_metadata);
        assert(sentinels[9] == origin.public_symbol_map);
        assert(sentinels[10] == origin.alias_map);
        assert(sentinels[11] == origin.alias_sequences);
        assert(sentinels[12] == origin.lex_modes);
        assert(sentinels[13] == origin.lex_fn);
        assert(sentinels[14] == origin.keyword_lex_fn);
        assert(sentinels[15] == origin.primary_state_ids);
        assert(sentinels[16] == origin.name);
        assert(sentinels[17] == origin.reserved_words);
        if supertypes {
            assert(sentinels[18] == origin.supertype_symbols);
            assert(sentinels[19] == origin.supertype_map_entries);
            assert(sentinels[20] == origin.supertype_map_slices);
        }
        if origin.external_token_count > 0 {
            assert(sentinels[start + 0] == origin.external_scanner.states);
            assert(sentinels[start + 1] == origin.external_scanner.symbol_map);
            assert(sentinels[start + 2] == origin.external_scanner.create);
            assert(sentinels[start + 3] == origin.external_scanner.destroy);
            assert(sentinels[start + 4] == origin.external_scanner.scan);
            assert(sentinels[start + 5] == origin.external_scanner.serialize);
            assert(sentinels[start + 6] == origin.external_scanner.deserialize);
        }
    }
}

/// Whether `addresses` are listed: those of the language object, in an order,
/// then its own and where the next module stands.
spec fn lists_addresses(
    memory: Seq<u8>,
    at: int,
    memory_offset: u32,
    addresses: Seq<i32>,
    supertypes: bool,
    scanner: bool,
) -> bool {
    let last = addresses.len() - 2;
    &&& last == 18 + (if supertypes {
        3int
    } else {
        0
    }) + (if scanner {
        7int
    } else {
        0
    })
    &&& addresses[last] == at
    &&& addresses[last + 1] == signed(memory_offset as int)
    &&& forall|k: int|
        0 <= k < last ==> #[trigger] addresses[k] == pointer(
            memory,
            at + offset_of_address(k, supertypes),
        )
}

/// An address that is listed is one where an array can end.
proof fn listed_can_end(
    memory: Seq<u8>,
    at: int,
    memory_offset: u32,
    addresses: Seq<i32>,
    k: int,
)
    requires
        lists_addresses(
            memory,
            at,
            memory_offset,
            addresses,
            word(memory, at) >= 15 && word(memory, at + 148) > 0,
            word(memory, at + 16) > 0,
        ),
        0 <= k < addresses.len(),
    ensures
        can_end_at(memory, at, memory_offset, addresses[k] as int),
{
    let supertypes = word(memory, at) >= 15 && word(memory, at + 148) > 0;
    if k < addresses.len() - 2 {
        let offset = offset_of_address(k, supertypes);
        assert(has_address(memory, at, offset));
        assert(pointer(memory, at + offset) == addresses[k]);
    }
}

/// Where an array can end is listed.
proof fn ends_are_listed(
    memory: Seq<u8>,
    at: int,
    memory_offset: u32,
    addresses: Seq<i32>,
    end: i32,
)
    requires
        lists_addresses(
            memory,
            at,
            memory_offset,
            addresses,
            word(memory, at) >= 15 && word(memory, at + 148) > 0,
            word(memory, at + 16) > 0,
        ),
        can_end_at(memory, at, memory_offset, end as int),
    ensures
        addresses.contains(end),
{
    let supertypes = word(memory, at) >= 15 && word(memory, at + 148) > 0;
    let last = addresses.len() - 2;
    if end == at {
        assert(addresses[last] == end);
    } else if end == signed(memory_offset as int) {
        assert(addresses[last + 1] == end);
    } else {
        let offset = choose|offset: int| #[trigger]
            has_address(memory, at, offset) && pointer(memory, at + offset) == end;
        let k = if offset <= 96 {
            (offset - 40) / 4
        } else if offset <= 128 {
            (offset - 104) / 4 + if supertypes {
                21int
            } else {
                18
            }
        } else if offset <= 140 {
            15 + (offset - 132) / 4
        } else if offset == 152 {
            18
        } else if offset == 156 {
            20
        } else {
            19
        };
        assert(offset_of_address(k, supertypes) == offset);
        assert(addresses[k] == end);
    }
}

/// The addresses that bound arrays are those where an array can end.
proof fn sentinels_are_the_ends(memory: Seq<u8>, address: i32, memory_offset: u32, end: i32)
    ensures
        language_at(memory, address as int).sentinels(address, memory_offset).contains(end)
            <==> can_end_at(memory, address as int, memory_offset, end as int),
{
    let at = address as int;
    let sentinels = language_at(memory, at).sentinels(address, memory_offset);
    addresses_are_listed(memory, address, memory_offset);
    if sentinels.contains(end) {
        let k = choose|k: int| 0 <= k < sentinels.len() && sentinels[k] == end;
        listed_can_end(memory, at, memory_offset, sentinels, k);
    }
    if can_end_at(memory, at, memory_offset, end as int) {
        ends_are_listed(memory, at, memory_offset, sentinels, end);
    }
}

/// Whether an array that stands at `start` ends at `end`: nothing that can end it
/// stands between.
pub open spec fn ends_next(
    memory: Seq<u8>,
    at: int,
    memory_offset: u32,
    start: int,
    end: int,
) -> bool {
    &&& start < end
    &&& can_end_at(memory, at, memory_offset, end)
    &&& forall|other: int|
        start < other < end ==> !#[trigger] can_end_at(memory, at, memory_offset, other)
}

/// Whether an array of unrecorded length that stands at `start` is copied up to
/// where the next thing stands. There is none at address zero, nor where nothing
/// follows.
pub open spec fn holds_up_to_the_next(
    array: Option<Vec<u8>>,
    memory: Seq<u8>,
    at: int,
    memory_offset: u32,
    start: int,
) -> bool {
    match array {
        Some(part) => start > 0 && exists|end: int| #[trigger]
            ends_next(memory, at, memory_offset, start, end) && part@.len() == end - start
                && stands_at(memory, start, part@),
        None => start == 0 || start > 0 && forall|end: int|
            start < end ==> !#[trigger] can_end_at(memory, at, memory_offset, end),
    }
}

/// Addresses are numbers of 32 bits.
proof fn ends_are_addresses(memory: Seq<u8>, at: int, memory_offset: u32, end: int)
    requires
        can_end_at(memory, at, memory_offset, end),
        i32::MIN <= at <= i32::MAX,
    ensures
        i32::MIN <= end <= i32::MAX,
{
}

/// The next address that is found is where the array ends.
proof fn found_end_is_next(
    memory: Seq<u8>,
    address: i32,
    memory_offset: u32,
    start: i32,
)
    ensures
        ({
            let at = address as int;
            let sentinels = language_at(memory, at).sentinels(address, memory_offset);
            match least_above(sentinels, start) {
                Some(end) => ends_next(memory, at, memory_offset, start as int, end as int),
                None => forall|end: int|
                    start < end ==> !#[trigger] can_end_at(memory, at, memory_offset, end),
            }
        }),
{
    let at = address as int;
    let sentinels = language_at(memory, at).sentinels(address, memory_offset);
    least_above_is_least(sentinels, start);
    let limit = match least_above(sentinels, start) {
        Some(end) => end as int,
        None => i32::MAX + 1,
    };
    if let Some(end) = least_above(sentinels, start) {
        sentinels_are_the_ends(memory, address, memory_offset, end);
    }
    assert forall|other: int| start < other < limit implies !#[trigger] can_end_at(
        memory,
        at,
        memory_offset,
        other,
    ) by {
        if can_end_at(memory, at, memory_offset, other) {
            ends_are_addresses(memory, at, memory_offset, other);
            sentinels_are_the_ends(memory, address, memory_offset, other as i32);
            let k = choose|k: int| 0 <= k < sentinels.len() && sentinels[k] == other as i32;
            assert(sentinels[k] == other);
        }
    }
    if least_above(sentinels, start) is None {
        assert forall|other: int| start < other implies !#[trigger] can_end_at(
            memory,
            at,
            memory_offset,
            other,
        ) by {
            if can_end_at(memory, at, memory_offset, other) {
                ends_are_addresses(memory, at, memory_offset, other);
            }
        }
    }
}

/// An array that was copied up to the next address is held up to the next thing.
proof fn copied_open_array_is_held(
    array: Option<Vec<u8>>,
    memory: Seq<u8>,
    address: i32,
    memory_offset: u32,
    start: i32,
)
    requires
        ({
            let sentinels = language_at(memory, address as int).sentinels(address, memory_offset);
            &&& unsized_ok(memory, start, sentinels)
            &&& contents(array) == unsized_copy(memory, start, sentinels)
        }),
    ensures
        holds_up_to_the_next(array, memory, address as int, memory_offset, start as int),
{
    let sentinels = language_at(memory, address as int).sentinels(address, memory_offset);
    found_end_is_next(memory, address, memory_offset, start);
    if let Some(end) = least_above(sentinels, start) {
        assert(ends_next(memory, address as int, memory_offset, start as int, end as int));
    }
}

/// The arrays of unrecorded length are copied up to where the next thing stands:
/// the parse actions, and the small parse table where there are small states.
pub proof fn copied_open_arrays_reach_the_next(
    memory: Seq<u8>,
    address: i32,
    memory_offset: u32,
    output: CopyOutput,
)
    requires
        copies_out(memory, address, memory_offset, Ok(output)),
    ensures
        ({
            let language = output.language;
            let at = address as int;
            &&& holds_up_to_the_next(
                language.parse_actions,
                memory,
                at,
                memory_offset,
                pointer(memory, at + 52),
            )
            &&& if word(memory, at + 20) > word(memory, at + 24) {
                holds_up_to_the_next(
                    language.small_parse_table,
                    memory,
                    at,
                    memory_offset,
                    pointer(memory, at + 44),
                )
            } else {
                language.small_parse_table is None
            }
        }),
{
    let at = address as int;
    language_objects_are_read(memory, at);
    let origin = language_at(memory, at);
    copied_open_array_is_held(
        output.language.parse_actions,
        memory,
        address,
        memory_offset,
        origin.parse_actions,
    );
    if origin.has_small_states() {
        copied_open_array_is_held(
            output.language.small_parse_table,
            memory,
            address,
            memory_offset,
            origin.small_parse_table,
        );
    }
}

/// Whether an array of unrecorded length can be copied: it stands behind address
/// zero, and the next thing does not stand behind the memory.
pub open spec fn open_array_lies_in(
    memory: Seq<u8>,
    at: int,
    memory_offset: u32,
    start: int,
) -> bool {
    start == 0 || start > 0 && forall|end: int| #[trigger]
        ends_next(memory, at, memory_offset, start, end) ==> end <= memory.len()
}

/// Whether every entry of an array of `count` addresses is null or that of a
/// string.
pub open spec fn strings_lie_in(memory: Seq<u8>, array: int, count: int) -> bool {
    &&& 0 <= array
    &&& array + 4 * count <= memory.len()
    &&& forall|index: int|
        0 <= index < count ==> {
            let at = pointer(memory, #[trigger] (array + 4 * index));
            at == 0 || exists|length: int| c_string(memory, at, length)
        }
}

/// Whether an alias map that stands at `map` ends.
pub open spec fn alias_map_lies_in(memory: Seq<u8>, map: int) -> bool {
    exists|starts: Seq<int>| #[trigger] alias_groups(memory, starts) && starts[0] == map
}

/// Whether all that the language object at `at` points to lies in memory.
pub open spec fn all_lies_in(memory: Seq<u8>, at: int, memory_offset: u32) -> bool {
    &&& tables_lie_in(memory, at, memory_offset)
    &&& fields_lie_in(memory, at)
    &&& supertypes_lie_in(memory, at)
    &&& aliases_lie_in(memory, at)
    &&& states_lie_in(memory, at, memory_offset)
    &&& newer_lie_in(memory, at)
}

/// Whether the tables that every language has lie in memory, and the symbols of
/// an external scanner.
pub open spec fn tables_lie_in(memory: Seq<u8>, at: int, memory_offset: u32) -> bool {
    let symbols = word(memory, at + 4);
    let names = symbols + word(memory, at + 8);
    let states = word(memory, at + 20);
    &&& lies_in(memory, pointer(memory, at + 40), word(memory, at + 24) * symbols * 2)
    &&& open_array_lies_in(memory, at, memory_offset, pointer(memory, at + 52))
    &&& strings_lie_in(memory, pointer(memory, at + 56), names)
    &&& lies_in(memory, pointer(memory, at + 72), names * 3)
    &&& lies_in(memory, pointer(memory, at + 76), names * 2)
    &&& lies_in(memory, pointer(memory, at + 88), states * 6)
    &&& lies_in(memory, pointer(memory, at + 108), word(memory, at + 16) * 2)
}

/// Whether the fields lie in memory, where there are any.
pub open spec fn fields_lie_in(memory: Seq<u8>, at: int) -> bool {
    let productions = word(memory, at + 28);
    let fields = word(memory, at + 32);
    let slices = pointer(memory, at + 64);
    let entries = pointer(memory, at + 68);
    fields > 0 && productions > 0 ==> {
        &&& lies_in(memory, slices, productions * 4)
        &&& forall|greatest: int| #[trigger]
            is_greatest_end(memory, slices, productions, greatest) ==> lies_in(
                memory,
                entries,
                greatest * 4,
            )
        &&& strings_lie_in(memory, pointer(memory, at + 60), fields + 1)
    }
}

/// Whether the supertypes lie in memory, where there are any.
pub open spec fn supertypes_lie_in(memory: Seq<u8>, at: int) -> bool {
    let count = word(memory, at + 148);
    let symbols = pointer(memory, at + 152);
    let slices = pointer(memory, at + 156);
    let entries = pointer(memory, at + 160);
    word(memory, at) >= 15 && count > 0 ==> {
        &&& lies_in(memory, symbols, count * 2)
        &&& forall|greatest: int| #[trigger]
            is_greatest_half(memory, symbols, 2, count, greatest) ==> lies_in(
                memory,
                slices,
                (greatest + 1) * 4,
            ) && lies_in(memory, entries, end_of_slice(memory, slices + 4 * greatest) * 2)
    }
}

/// Whether the aliases lie in memory, where there are any.
pub open spec fn aliases_lie_in(memory: Seq<u8>, at: int) -> bool {
    let productions = word(memory, at + 28);
    let longest = half(memory, at + 36);
    longest > 0 && productions > 0 ==> {
        &&& alias_map_lies_in(memory, pointer(memory, at + 80))
        &&& lies_in(memory, pointer(memory, at + 84), productions * longest * 2)
    }
}

/// Whether the tables of the small states lie in memory, where there are any.
pub open spec fn states_lie_in(memory: Seq<u8>, at: int, memory_offset: u32) -> bool {
    let states = word(memory, at + 20);
    let large_states = word(memory, at + 24);
    states > large_states ==> {
        &&& lies_in(memory, pointer(memory, at + 48), (states - large_states) * 4)
        &&& open_array_lies_in(memory, at, memory_offset, pointer(memory, at + 44))
    }
}

/// Whether what newer languages have lies in memory.
pub open spec fn newer_lie_in(memory: Seq<u8>, at: int) -> bool {
    let states = word(memory, at + 20);
    let own = pointer(memory, at + 136);
    let sets = pointer(memory, at + 88) + 4;
    let words = pointer(memory, at + 140);
    let size = half(memory, at + 144);
    &&& word(memory, at) >= 14 ==> lies_in(memory, pointer(memory, at + 132), states * 2)
    &&& word(memory, at) >= 15 ==> {
        &&& exists|length: int| c_string(memory, own, length)
        &&& forall|set: int| #[trigger]
            is_greatest_half(memory, sets, 6, states, set) && set > 0 && size > 0 ==> lies_in(
                memory,
                words,
                (set + 1) * size * 2,
            )
    }
}

/// There is one greatest number.
proof fn one_greatest_half(
    bytes: Seq<u8>,
    at: int,
    stride: int,
    count: int,
    one: int,
    other: int,
)
    requires
        is_greatest_half(bytes, at, stride, count, one),
        is_greatest_half(bytes, at, stride, count, other),
    ensures
        one == other,
{
    if count > 0 {
        let i = choose|i: int| 0 <= i < count && half(bytes, #[trigger] (at + stride * i)) == one;
        let j = choose|j: int| 0 <= j < count && half(bytes, #[trigger] (at + stride * j)) == other;
        assert(half(bytes, at + stride * i) <= other);
        assert(half(bytes, at + stride * j) <= one);
    }
}

/// There is one greatest end.
proof fn one_greatest_end(bytes: Seq<u8>, at: int, count: int, one: int, other: int)
    requires
        is_greatest_end(bytes, at, count, one),
        is_greatest_end(bytes, at, count, other),
    ensures
        one == other,
{
    if count > 0 {
        let i = choose|i: int|
            0 <= i < count && end_of_slice(bytes, #[trigger] (at + 4 * i)) == one;
        let j = choose|j: int|
            0 <= j < count && end_of_slice(bytes, #[trigger] (at + 4 * j)) == other;
        assert(end_of_slice(bytes, at + 4 * i) <= other);
        assert(end_of_slice(bytes, at + 4 * j) <= one);
    }
}

/// Strings can be copied where they lie in memory.
proof fn strings_are_ok_in_memory(memory: Seq<u8>, array: int, count: int)
    requires
        memory.len() <= i32::MAX,
        0 <= count,
    ensures
        strings_ok(memory, array, count) <==> strings_lie_in(memory, array, count),
{
    if strings_ok(memory, array, count) {
        assert forall|index: int| 0 <= index < count implies {
            let at = pointer(memory, #[trigger] (array + 4 * index));
            at == 0 || exists|length: int| c_string(memory, at, length)
        } by {
            assert(string_ok(memory, array, index));
            reads_what_stands(memory, array + 4 * index);
            let at = string_address(memory, array, index) as int;
            if at != 0 {
                found_string_stands(memory, at);
            }
        }
    }
    if strings_lie_in(memory, array, count) {
        assert forall|index: int| 0 <= index < count implies #[trigger] string_ok(
            memory,
            array,
            index,
        ) by {
            reads_what_stands(memory, array + 4 * index);
            let at = pointer(memory, array + 4 * index);
            if at != 0 {
                let length = choose|length: int| c_string(memory, at, length);
                standing_string_is_found(memory, at, length);
            }
        }
    }
}

/// An array of unrecorded length can be copied where it lies in memory.
proof fn open_array_is_ok_in_memory(
    memory: Seq<u8>,
    address: i32,
    memory_offset: u32,
    start: i32,
)
    ensures
        unsized_ok(
            memory,
            start,
            language_at(memory, address as int).sentinels(address, memory_offset),
        ) <==> open_array_lies_in(memory, address as int, memory_offset, start as int),
{
    let at = address as int;
    let sentinels = language_at(memory, at).sentinels(address, memory_offset);
    found_end_is_next(memory, address, memory_offset, start);
    if let Some(end) = least_above(sentinels, start) {
        assert(ends_next(memory, at, memory_offset, start as int, end as int));
        assert forall|other: int| #[trigger]
            ends_next(memory, at, memory_offset, start as int, other) implies other == end by {
            if other < end {
                assert(can_end_at(memory, at, memory_offset, other));
            } else if end < other {
                assert(can_end_at(memory, at, memory_offset, end as int));
            }
        }
    }
}

/// An alias map whose groups stand in memory ends.
proof fn standing_alias_map_ends(memory: Seq<u8>, starts: Seq<int>)
    requires
        memory.len() <= i32::MAX,
        alias_groups(memory, starts),
    ensures
        alias_map_end(memory, starts[0]) == Some(starts.last() + 2),
    decreases starts.len(),
{
    reads_what_stands(memory, starts[0]);
    reads_what_stands(memory, starts[0] + 2);
    if starts.len() > 1 {
        let rest = starts.subrange(1, starts.len() as int);
        assert forall|i: int| 0 <= i < rest.len() implies 0 <= #[trigger] rest[i] && rest[i] + 2
            <= memory.len() by {
            assert(rest[i] == starts[i + 1]);
        }
        assert forall|i: int| 0 <= i < rest.len() - 1 implies {
            &&& half(memory, #[trigger] rest[i]) != 0
            &&& rest[i] + 4 <= memory.len()
            &&& rest[i + 1] == rest[i] + 4 + 2 * half(memory, rest[i] + 2)
        } by {
            assert(rest[i] == starts[i + 1]);
            assert(rest[i + 1] == starts[i + 2]);
        }
        assert(rest.last() == starts.last());
        standing_alias_map_ends(memory, rest);
        assert(half(memory, starts[0]) != 0);
        assert(starts[1] == rest[0]);
    }
}

/// What every language has can be copied where it lies in memory.
#[verifier::spinoff_prover]
proof fn tables_are_ok_in_memory(memory: Seq<u8>, address: i32, memory_offset: u32)
    requires
        memory.len() <= i32::MAX,
    ensures
        ({
            let origin = language_at(memory, address as int);
            let sentinels = origin.sentinels(address, memory_offset);
            origin.tables_ok(memory, sentinels) && origin.scanner_ok(memory) <==> tables_lie_in(
                memory,
                address as int,
                memory_offset,
            )
        }),
{
    let origin = language_at(memory, address as int);
    language_objects_are_read(memory, address as int);
    products_are_not_negative(origin.large_state_count as int, origin.symbol_count as int);
    open_array_is_ok_in_memory(memory, address, memory_offset, origin.parse_actions);
    strings_are_ok_in_memory(memory, origin.symbol_names as int, origin.symbol_name_count());
}

/// Fields can be copied where they lie in memory.
#[verifier::spinoff_prover]
proof fn fields_are_ok_in_memory(memory: Seq<u8>, address: i32)
    requires
        memory.len() <= i32::MAX,
    ensures
        language_at(memory, address as int).fields_ok(memory) <==> fields_lie_in(
            memory,
            address as int,
        ),
{
    let origin = language_at(memory, address as int);
    language_objects_are_read(memory, address as int);
    let slices = origin.field_map_slices as int;
    let productions = origin.production_id_count as int;
    found_end_is_greatest(memory, slices, productions);
    let entries = origin.field_map_entry_count(memory);
    assert(is_greatest_end(memory, slices, productions, entries));
    assert forall|greatest: int| #[trigger]
        is_greatest_end(memory, slices, productions, greatest) implies greatest == entries by {
        one_greatest_end(memory, slices, productions, greatest, entries);
    }
    strings_are_ok_in_memory(memory, origin.field_names as int, origin.field_count + 1);
}

/// Supertypes can be copied where they lie in memory.
#[verifier::spinoff_prover]
proof fn supertypes_are_ok_in_memory(memory: Seq<u8>, address: i32)
    ensures
        language_at(memory, address as int).supertypes_ok(memory) <==> supertypes_lie_in(
            memory,
            address as int,
        ),
{
    let origin = language_at(memory, address as int);
    language_objects_are_read(memory, address as int);
    let symbols = origin.supertype_symbols as int;
    let count = origin.supertype_count as int;
    found_half_is_greatest(memory, symbols, 2, count);
    let supertype = origin.largest_supertype(memory);
    assert(is_greatest_half(memory, symbols, 2, count, supertype));
    assert forall|greatest: int| #[trigger]
        is_greatest_half(memory, symbols, 2, count, greatest) implies greatest == supertype by {
        one_greatest_half(memory, symbols, 2, count, greatest, supertype);
    }
    let last_slice = origin.supertype_map_slices + 4 * supertype;
    reads_what_stands(memory, last_slice);
    reads_what_stands(memory, last_slice + 2);
}

/// Aliases can be copied where they lie in memory.
#[verifier::spinoff_prover]
proof fn aliases_are_ok_in_memory(memory: Seq<u8>, address: i32)
    requires
        memory.len() <= i32::MAX,
    ensures
        language_at(memory, address as int).aliases_ok(memory) <==> aliases_lie_in(
            memory,
            address as int,
        ),
{
    let origin = language_at(memory, address as int);
    language_objects_are_read(memory, address as int);
    let map = origin.alias_map as int;
    products_are_not_negative(
        origin.production_id_count as int,
        origin.max_alias_sequence_length as int,
    );
    if alias_map_end(memory, map) is Some {
        let starts = ended_alias_map_has_groups(memory, map);
        assert(alias_groups(memory, starts));
    }
    if alias_map_lies_in(memory, map) {
        let starts = choose|starts: Seq<int>| #[trigger]
            alias_groups(memory, starts) && starts[0] == map;
        standing_alias_map_ends(memory, starts);
    }
}

/// What newer languages have can be copied where it lies in memory.
#[verifier::spinoff_prover]
proof fn newer_are_ok_in_memory(memory: Seq<u8>, address: i32)
    requires
        memory.len() <= i32::MAX,
    ensures
        language_at(memory, address as int).newer_ok(memory) <==> newer_lie_in(
            memory,
            address as int,
        ),
{
    let origin = language_at(memory, address as int);
    language_objects_are_read(memory, address as int);
    let sets = origin.lex_modes + 4;
    let states = origin.state_count as int;
    let own = origin.name as int;
    found_half_is_greatest(memory, sets, 6, states);
    let set = origin.max_reserved_word_set_id(memory);
    assert(is_greatest_half(memory, sets, 6, states, set));
    assert forall|greatest: int| #[trigger]
        is_greatest_half(memory, sets, 6, states, greatest) implies greatest == set by {
        one_greatest_half(memory, sets, 6, states, greatest, set);
    }
    products_are_not_negative(set + 1, origin.max_reserved_word_set_size as int);
    if first_nul(memory, own) is Some {
        found_string_stands(memory, own);
    }
    if exists|length: int| c_string(memory, own, length) {
        let length = choose|length: int| c_string(memory, own, length);
        standing_string_is_found(memory, own, length);
    }
}

/// A language is copied exactly where its object lies in memory, has one of the
/// three language ABIs that there are by now, and points to nothing outside. The
/// memory is one that signed addresses of 32 bits reach.
pub proof fn languages_are_copied_where_they_lie_in_memory(
    memory: Seq<u8>,
    address: i32,
    memory_offset: u32,
    result: WasmResult<CopyOutput>,
)
    requires
        memory.len() <= i32::MAX,
        copies_out(memory, address, memory_offset, result),
    ensures
        result is Ok <==> {
            &&& 0 <= address
            &&& address + 168 <= memory.len()
            &&& 13 <= word(memory, address as int) <= 15
            &&& all_lies_in(memory, address as int, memory_offset)
        },
        result matches Err((kind, message)) ==> kind == 3 && message@ == if 0 <= address && address
            + 4 <= memory.len() && !(13 <= word(memory, address as int) <= 15) {
            "incompatible language ABI version "@ + decimal(
                word(memory, address as int) as nat,
            ) + "; expected between "@ + seq!['1', '3'] + " and "@ + seq!['1', '5']
        } else {
            "invalid language memory address"@
        },
{
    let at = address as int;
    let origin = language_at(memory, at);
    let sentinels = origin.sentinels(address, memory_offset);
    language_objects_are_read(memory, at);
    tables_are_ok_in_memory(memory, address, memory_offset);
    fields_are_ok_in_memory(memory, address);
    supertypes_are_ok_in_memory(memory, address);
    aliases_are_ok_in_memory(memory, address);
    newer_are_ok_in_memory(memory, address);
    open_array_is_ok_in_memory(memory, address, memory_offset, origin.small_parse_table);
    assert(origin.small_states_ok(memory, sentinels) <==> states_lie_in(
        memory,
        at,
        memory_offset,
    ));
    assert(decimal(1) =~= seq!['1']);
    assert(decimal(13) =~= seq!['1', '3']);
    assert(decimal(15) =~= seq!['1', '5']);
}

} // verus!
