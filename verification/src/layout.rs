//! The layout of a grammar's language object, and of the lexer object, as
//! they stand in Wasm linear memory.

use vstd::prelude::*;

use crate::bytes::{get_i32, get_u16, get_u32, le_bytes, le_i32, le_u16, le_u32, put_u32};

verus! {

/// The size of a language object in Wasm memory.
pub const LANGUAGE_SIZE: usize = 168;

/// The size of a lexer object in Wasm memory.
pub const LEXER_SIZE: usize = 28;

/// The external scanner of a language: the addresses of its two tables, and
/// the function table indices of its five functions.
#[derive(Clone, Copy, Debug, PartialEq, Eq, Structural)]
pub struct WasmExternalScanner {
    pub states: i32,
    pub symbol_map: i32,
    pub create: i32,
    pub destroy: i32,
    pub scan: i32,
    pub serialize: i32,
    pub deserialize: i32,
}

/// The version of a grammar.
#[derive(Clone, Copy, Debug, PartialEq, Eq, Structural)]
pub struct WasmLanguageMetadata {
    pub major_version: u8,
    pub minor_version: u8,
    pub patch_version: u8,
}

/// A language object as a wasm32 grammar lays it out: counts, and the
/// addresses of static arrays (168 bytes, aligned to 4).
#[derive(Clone, Copy, Debug, PartialEq, Eq, Structural)]
pub struct LanguageInWasmMemory {
    pub abi_version: u32,
    pub symbol_count: u32,
    pub alias_count: u32,
    pub token_count: u32,
    pub external_token_count: u32,
    pub state_count: u32,
    pub large_state_count: u32,
    pub production_id_count: u32,
    pub field_count: u32,
    pub max_alias_sequence_length: u16,
    pub parse_table: i32,
    pub small_parse_table: i32,
    pub small_parse_table_map: i32,
    pub parse_actions: i32,
    pub symbol_names: i32,
    pub field_names: i32,
    pub field_map_slices: i32,
    pub field_map_entries: i32,
    pub symbol_metadata: i32,
    pub public_symbol_map: i32,
    pub alias_map: i32,
    pub alias_sequences: i32,
    pub lex_modes: i32,
    pub lex_fn: i32,
    pub keyword_lex_fn: i32,
    pub keyword_capture_token: u16,
    pub external_scanner: WasmExternalScanner,
    pub primary_state_ids: i32,
    pub name: i32,
    pub reserved_words: i32,
    pub max_reserved_word_set_size: u16,
    pub supertype_count: u32,
    pub supertype_symbols: i32,
    pub supertype_map_slices: i32,
    pub supertype_map_entries: i32,
    pub metadata: WasmLanguageMetadata,
}

/// The language object at `at`.
pub open spec fn language_at(memory: Seq<u8>, at: int) -> LanguageInWasmMemory {
    LanguageInWasmMemory {
        abi_version: le_u32(memory, at),
        symbol_count: le_u32(memory, at + 4),
        alias_count: le_u32(memory, at + 8),
        token_count: le_u32(memory, at + 12),
        external_token_count: le_u32(memory, at + 16),
        state_count: le_u32(memory, at + 20),
        large_state_count: le_u32(memory, at + 24),
        production_id_count: le_u32(memory, at + 28),
        field_count: le_u32(memory, at + 32),
        max_alias_sequence_length: le_u16(memory, at + 36),
        parse_table: le_i32(memory, at + 40),
        small_parse_table: le_i32(memory, at + 44),
        small_parse_table_map: le_i32(memory, at + 48),
        parse_actions: le_i32(memory, at + 52),
        symbol_names: le_i32(memory, at + 56),
        field_names: le_i32(memory, at + 60),
        field_map_slices: le_i32(memory, at + 64),
        field_map_entries: le_i32(memory, at + 68),
        symbol_metadata: le_i32(memory, at + 72),
        public_symbol_map: le_i32(memory, at + 76),
        alias_map: le_i32(memory, at + 80),
        alias_sequences: le_i32(memory, at + 84),
        lex_modes: le_i32(memory, at + 88),
        lex_fn: le_i32(memory, at + 92),
        keyword_lex_fn: le_i32(memory, at + 96),
        keyword_capture_token: le_u16(memory, at + 100),
        external_scanner: WasmExternalScanner {
            states: le_i32(memory, at + 104),
            symbol_map: le_i32(memory, at + 108),
            create: le_i32(memory, at + 112),
            destroy: le_i32(memory, at + 116),
            scan: le_i32(memory, at + 120),
            serialize: le_i32(memory, at + 124),
            deserialize: le_i32(memory, at + 128),
        },
        primary_state_ids: le_i32(memory, at + 132),
        name: le_i32(memory, at + 136),
        reserved_words: le_i32(memory, at + 140),
        max_reserved_word_set_size: le_u16(memory, at + 144),
        supertype_count: le_u32(memory, at + 148),
        supertype_symbols: le_i32(memory, at + 152),
        supertype_map_slices: le_i32(memory, at + 156),
        supertype_map_entries: le_i32(memory, at + 160),
        metadata: WasmLanguageMetadata {
            major_version: memory[at + 164],
            minor_version: memory[at + 165],
            patch_version: memory[at + 166],
        },
    }
}

impl LanguageInWasmMemory {
    /// Reads the language object at `at`.
    pub fn from_bytes(bytes: &[u8], at: usize) -> (language: LanguageInWasmMemory)
        requires
            at + LANGUAGE_SIZE <= bytes.len(),
        ensures
            language == language_at(bytes@, at as int),
    {
        LanguageInWasmMemory {
            abi_version: get_u32(bytes, at),
            symbol_count: get_u32(bytes, at + 4),
            alias_count: get_u32(bytes, at + 8),
            token_count: get_u32(bytes, at + 12),
            external_token_count: get_u32(bytes, at + 16),
            state_count: get_u32(bytes, at + 20),
            large_state_count: get_u32(bytes, at + 24),
            production_id_count: get_u32(bytes, at + 28),
            field_count: get_u32(bytes, at + 32),
            max_alias_sequence_length: get_u16(bytes, at + 36),
            parse_table: get_i32(bytes, at + 40),
            small_parse_table: get_i32(bytes, at + 44),
            small_parse_table_map: get_i32(bytes, at + 48),
            parse_actions: get_i32(bytes, at + 52),
            symbol_names: get_i32(bytes, at + 56),
            field_names: get_i32(bytes, at + 60),
            field_map_slices: get_i32(bytes, at + 64),
            field_map_entries: get_i32(bytes, at + 68),
            symbol_metadata: get_i32(bytes, at + 72),
            public_symbol_map: get_i32(bytes, at + 76),
            alias_map: get_i32(bytes, at + 80),
            alias_sequences: get_i32(bytes, at + 84),
            lex_modes: get_i32(bytes, at + 88),
            lex_fn: get_i32(bytes, at + 92),
            keyword_lex_fn: get_i32(bytes, at + 96),
            keyword_capture_token: get_u16(bytes, at + 100),
            external_scanner: WasmExternalScanner {
                states: get_i32(bytes, at + 104),
                symbol_map: get_i32(bytes, at + 108),
                create: get_i32(bytes, at + 112),
                destroy: get_i32(bytes, at + 116),
                scan: get_i32(bytes, at + 120),
                serialize: get_i32(bytes, at + 124),
                deserialize: get_i32(bytes, at + 128),
            },
            primary_state_ids: get_i32(bytes, at + 132),
            name: get_i32(bytes, at + 136),
            reserved_words: get_i32(bytes, at + 140),
            max_reserved_word_set_size: get_u16(bytes, at + 144),
            supertype_count: get_u32(bytes, at + 148),
            supertype_symbols: get_i32(bytes, at + 152),
            supertype_map_slices: get_i32(bytes, at + 156),
            supertype_map_entries: get_i32(bytes, at + 160),
            metadata: WasmLanguageMetadata {
                major_version: bytes[at + 164],
                minor_version: bytes[at + 165],
                patch_version: bytes[at + 166],
            },
        }
    }
}

/// A lexer object as a wasm32 grammar lays it out: the data prefix, then the
/// function table indices of the five lexer functions (28 bytes, aligned to 4).
#[derive(Clone, Copy, Debug, PartialEq, Eq, Structural)]
pub struct LexerInWasmMemory {
    pub lookahead: i32,
    pub result_symbol: u16,
    pub advance: i32,
    pub mark_end: i32,
    pub get_column: i32,
    pub is_at_included_range_start: i32,
    pub eof: i32,
}

impl LexerInWasmMemory {
    /// The bytes of the object. The two padding bytes behind the result symbol
    /// are zero.
    pub open spec fn image(self) -> Seq<u8> {
        le_bytes(self.lookahead as u32) + le_bytes(self.result_symbol as u32) + le_bytes(
            self.advance as u32,
        ) + le_bytes(self.mark_end as u32) + le_bytes(self.get_column as u32) + le_bytes(
            self.is_at_included_range_start as u32,
        ) + le_bytes(self.eof as u32)
    }

    /// Lays the object out.
    pub fn to_bytes(&self) -> (bytes: Vec<u8>)
        ensures
            bytes@ == self.image(),
            bytes@.len() == LEXER_SIZE,
    {
        let mut bytes: Vec<u8> = Vec::new();
        push_u32(&mut bytes, self.lookahead as u32);
        push_u32(&mut bytes, self.result_symbol as u32);
        push_u32(&mut bytes, self.advance as u32);
        push_u32(&mut bytes, self.mark_end as u32);
        push_u32(&mut bytes, self.get_column as u32);
        push_u32(&mut bytes, self.is_at_included_range_start as u32);
        push_u32(&mut bytes, self.eof as u32);
        bytes
    }
}

/// Appends the four bytes of `value`.
fn push_u32(bytes: &mut Vec<u8>, value: u32)
    ensures
        final(bytes)@ == old(bytes)@ + le_bytes(value),
{
    let four = put_u32(value);
    bytes.push(four[0]);
    bytes.push(four[1]);
    bytes.push(four[2]);
    bytes.push(four[3]);
}

} // verus!
