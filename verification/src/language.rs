//! Languages on the native side: the copy of a grammar's static data, which
//! lives on after the Wasm memory it came from has moved or grown.

use vstd::prelude::*;

use crate::bytes::le_u16;
use crate::layout::{LanguageInWasmMemory, WasmLanguageMetadata};
use crate::memory::{first_nul, in_memory};
use crate::statics::{
    contents, sized_copy, sized_ok, string_copy, strings_ok, unsized_copy, unsized_ok, StringTable,
};

verus! {

/// The newest language ABI that can be loaded.
pub const TREE_SITTER_LANGUAGE_VERSION: u32 = 15;

/// The oldest language ABI that can be loaded.
pub const TREE_SITTER_MIN_COMPATIBLE_LANGUAGE_VERSION: u32 = 13;

/// The first language ABI with primary states.
pub const LANGUAGE_VERSION_WITH_PRIMARY_STATES: u32 = 14;

/// The first language ABI with a name, reserved words and supertypes.
pub const LANGUAGE_VERSION_WITH_RESERVED_WORDS: u32 = 15;

/// The function that a language lexes with.
#[derive(Clone, Copy, Debug, PartialEq, Eq, Structural)]
pub enum LexFn {
    /// The sentinel that marks every language backed by a Wasm module.
    Sentinel,
    /// A native lexer.
    Native,
}

/// The native side of an external scanner.
pub struct CExternalScanner {
    /// Linear-memory offset of the valid-tokens table, never a native address.
    pub states: i32,
    pub symbol_map: Option<Vec<u8>>,
}

/// A language on the native side. Each static array is held as the bytes that
/// stood in Wasm memory; an array that the language does not have is missing.
pub struct CLanguage {
    pub abi_version: u32,
    pub symbol_count: u32,
    pub alias_count: u32,
    pub token_count: u32,
    pub external_token_count: u32,
    pub state_count: u32,
    pub large_state_count: u32,
    pub production_id_count: u32,
    pub field_count: u32,
    pub max_alias_sequence_length: u16,
    pub parse_table: Option<Vec<u8>>,
    pub small_parse_table: Option<Vec<u8>>,
    pub small_parse_table_map: Option<Vec<u8>>,
    pub parse_actions: Option<Vec<u8>>,
    pub symbol_names: Option<StringTable>,
    pub field_names: Option<StringTable>,
    pub field_map_slices: Option<Vec<u8>>,
    pub field_map_entries: Option<Vec<u8>>,
    pub symbol_metadata: Option<Vec<u8>>,
    pub public_symbol_map: Option<Vec<u8>>,
    pub alias_map: Option<Vec<u8>>,
    pub alias_sequences: Option<Vec<u8>>,
    pub lex_modes: Option<Vec<u8>>,
    pub lex_fn: Option<LexFn>,
    pub keyword_lex_fn: Option<LexFn>,
    pub keyword_capture_token: u16,
    pub external_scanner: CExternalScanner,
    pub primary_state_ids: Option<Vec<u8>>,
    pub name: Option<Vec<u8>>,
    pub reserved_words: Option<Vec<u8>>,
    pub max_reserved_word_set_size: u16,
    pub supertype_count: u32,
    pub supertype_symbols: Option<Vec<u8>>,
    pub supertype_map_slices: Option<Vec<u8>>,
    pub supertype_map_entries: Option<Vec<u8>>,
    pub metadata: WasmLanguageMetadata,
}

/// The greatest of `count` 16-bit integers, the first at `at`, `stride` bytes
/// apart; zero where there are none.
pub open spec fn greatest_u16(memory: Seq<u8>, at: int, stride: int, count: int) -> int
    decreases count,
{
    if count <= 0 {
        0
    } else {
        let rest = greatest_u16(memory, at, stride, count - 1);
        let last = le_u16(memory, at + stride * (count - 1)) as int;
        if last > rest {
            last
        } else {
            rest
        }
    }
}

/// The end of the slice at `at`: a slice is an index and a length, of 16 bits
/// each.
pub open spec fn slice_end(memory: Seq<u8>, at: int) -> int {
    le_u16(memory, at) + le_u16(memory, at + 2)
}

/// The greatest end among `count` slices, the first at `at`; zero where there
/// are none.
pub open spec fn greatest_slice_end(memory: Seq<u8>, at: int, count: int) -> int
    decreases count,
{
    if count <= 0 {
        0
    } else {
        let rest = greatest_slice_end(memory, at, count - 1);
        let last = slice_end(memory, at + 4 * (count - 1));
        if last > rest {
            last
        } else {
            rest
        }
    }
}

/// `greatest_u16` is an upper bound, and is reached.
pub proof fn greatest_u16_is_greatest(memory: Seq<u8>, at: int, stride: int, count: int)
    ensures
        0 <= greatest_u16(memory, at, stride, count) <= u16::MAX,
        forall|i: int|
            0 <= i < count ==> #[trigger] le_u16(memory, at + stride * i) <= greatest_u16(
                memory,
                at,
                stride,
                count,
            ),
        count > 0 ==> exists|i: int|
            0 <= i < count && #[trigger] le_u16(memory, at + stride * i) == greatest_u16(
                memory,
                at,
                stride,
                count,
            ),
    decreases count,
{
    if count > 0 {
        greatest_u16_is_greatest(memory, at, stride, count - 1);
        let last = le_u16(memory, at + stride * (count - 1));
        if count == 1 && last == 0 {
            assert(le_u16(memory, at + stride * 0) == 0);
        }
    }
}

/// `greatest_slice_end` is an upper bound, and is reached.
pub proof fn greatest_slice_end_is_greatest(memory: Seq<u8>, at: int, count: int)
    ensures
        0 <= greatest_slice_end(memory, at, count) <= 2 * u16::MAX,
        forall|i: int|
            0 <= i < count ==> #[trigger] slice_end(memory, at + 4 * i) <= greatest_slice_end(
                memory,
                at,
                count,
            ),
        count > 0 ==> exists|i: int|
            0 <= i < count && #[trigger] slice_end(memory, at + 4 * i) == greatest_slice_end(
                memory,
                at,
                count,
            ),
    decreases count,
{
    if count > 0 {
        greatest_slice_end_is_greatest(memory, at, count - 1);
        let last = slice_end(memory, at + 4 * (count - 1));
        if count == 1 && last == 0 {
            assert(slice_end(memory, at + 4 * 0) == 0);
        }
    }
}

/// The position behind the alias map at `at`: a list of a symbol, a count and
/// that many symbols, of 16 bits each, ended by a null symbol. Missing where
/// the list runs out of the memory that a 32-bit address reaches.
pub open spec fn alias_map_end(memory: Seq<u8>, at: int) -> Option<int>
    decreases
        (if at < memory.len() {
            memory.len() - at
        } else {
            0
        }),
{
    if at > i32::MAX || !in_memory(memory, at, 2) {
        None
    } else if le_u16(memory, at) == 0 {
        Some(at + 2)
    } else if at + 2 > i32::MAX || !in_memory(memory, at + 2, 2) {
        None
    } else {
        alias_map_end(memory, at + 4 + 2 * le_u16(memory, at + 2))
    }
}

/// Where the alias map ends lies inside the memory, and behind its start.
pub proof fn alias_map_end_bounds(memory: Seq<u8>, at: int)
    ensures
        match alias_map_end(memory, at) {
            Some(end) => 0 <= at && at + 2 <= end <= memory.len(),
            None => true,
        },
    decreases
        (if at < memory.len() {
            memory.len() - at
        } else {
            0
        }),
{
    if at <= i32::MAX && in_memory(memory, at, 2) && le_u16(memory, at) != 0 && at + 2 <= i32::MAX
        && in_memory(memory, at + 2, 2) {
        alias_map_end_bounds(memory, at + 4 + 2 * le_u16(memory, at + 2));
    }
}

impl LanguageInWasmMemory {
    /// Only newer grammars that declare any have supertypes.
    pub open spec fn has_supertypes(self) -> bool {
        self.abi_version >= LANGUAGE_VERSION_WITH_RESERVED_WORDS && self.supertype_count > 0
    }

    /// Fields are recorded per production.
    pub open spec fn has_fields(self) -> bool {
        self.field_count > 0 && self.production_id_count > 0
    }

    /// Aliases are recorded per production.
    pub open spec fn has_aliases(self) -> bool {
        self.max_alias_sequence_length > 0 && self.production_id_count > 0
    }

    /// The states that are not large are small.
    pub open spec fn has_small_states(self) -> bool {
        self.state_count > self.large_state_count
    }

    /// The number of names of symbols.
    pub open spec fn symbol_name_count(self) -> int {
        self.symbol_count + self.alias_count
    }

    /// The number of field map entries: the greatest slice end across all
    /// productions.
    pub open spec fn field_map_entry_count(self, memory: Seq<u8>) -> int {
        greatest_slice_end(
            memory,
            self.field_map_slices as int,
            self.production_id_count as int,
        )
    }

    /// The greatest supertype.
    pub open spec fn largest_supertype(self, memory: Seq<u8>) -> int {
        greatest_u16(memory, self.supertype_symbols as int, 2, self.supertype_count as int)
    }

    /// The number of supertype map entries: the end of the greatest
    /// supertype's slice.
    pub open spec fn supertype_map_entry_count(self, memory: Seq<u8>) -> int {
        slice_end(memory, self.supertype_map_slices + 4 * self.largest_supertype(memory))
    }

    /// The greatest reserved word set across all lex modes. A lex mode is three
    /// 16-bit integers, of which this is the last.
    pub open spec fn max_reserved_word_set_id(self, memory: Seq<u8>) -> int {
        greatest_u16(memory, self.lex_modes + 4, 6, self.state_count as int)
    }

    /// Only some grammars of the newest ABI reserve words.
    pub open spec fn has_reserved_words(self, memory: Seq<u8>) -> bool {
        &&& self.abi_version >= LANGUAGE_VERSION_WITH_RESERVED_WORDS
        &&& self.max_reserved_word_set_id(memory) > 0
        &&& self.max_reserved_word_set_size > 0
    }

    /// The number of reserved words, over all sets.
    pub open spec fn reserved_word_count(self, memory: Seq<u8>) -> int {
        (self.max_reserved_word_set_id(memory) + 1) * self.max_reserved_word_set_size
    }

    /// The addresses that bound the arrays of unrecorded length: those of every
    /// static array, then that of the language object itself and the offset at
    /// which the next module is placed.
    pub open spec fn sentinels(self, language_address: i32, memory_offset: u32) -> Seq<i32> {
        seq![
            self.parse_table,
            self.small_parse_table,
            self.small_parse_table_map,
            self.parse_actions,
            self.symbol_names,
            self.field_names,
            self.field_map_slices,
            self.field_map_entries,
            self.symbol_metadata,
            self.public_symbol_map,
            self.alias_map,
            self.alias_sequences,
            self.lex_modes,
            self.lex_fn,
            self.keyword_lex_fn,
            self.primary_state_ids,
            self.name,
            self.reserved_words,
        ] + (if self.has_supertypes() {
            seq![self.supertype_symbols, self.supertype_map_entries, self.supertype_map_slices]
        } else {
            seq![]
        }) + (if self.external_token_count > 0 {
            seq![
                self.external_scanner.states,
                self.external_scanner.symbol_map,
                self.external_scanner.create,
                self.external_scanner.destroy,
                self.external_scanner.scan,
                self.external_scanner.serialize,
                self.external_scanner.deserialize,
            ]
        } else {
            seq![]
        }) + seq![language_address, memory_offset as i32]
    }

    /// Whether the tables that every language has can be copied.
    pub open spec fn tables_ok(self, memory: Seq<u8>, sentinels: Seq<i32>) -> bool {
        &&& sized_ok(
            memory,
            self.parse_table as int,
            self.large_state_count * self.symbol_count * 2,
        )
        &&& unsized_ok(memory, self.parse_actions, sentinels)
        &&& strings_ok(memory, self.symbol_names as int, self.symbol_name_count())
        &&& sized_ok(memory, self.symbol_metadata as int, self.symbol_name_count() * 3)
        &&& sized_ok(memory, self.public_symbol_map as int, self.symbol_name_count() * 2)
        &&& sized_ok(memory, self.lex_modes as int, self.state_count * 6)
    }

    /// Whether the fields can be copied.
    pub open spec fn fields_ok(self, memory: Seq<u8>) -> bool {
        self.has_fields() ==> {
            &&& sized_ok(memory, self.field_map_slices as int, self.production_id_count * 4)
            &&& sized_ok(
                memory,
                self.field_map_entries as int,
                self.field_map_entry_count(memory) * 4,
            )
            &&& strings_ok(memory, self.field_names as int, self.field_count + 1)
        }
    }

    /// Whether the supertypes can be copied.
    pub open spec fn supertypes_ok(self, memory: Seq<u8>) -> bool {
        self.has_supertypes() ==> {
            &&& sized_ok(memory, self.supertype_symbols as int, self.supertype_count * 2)
            &&& sized_ok(
                memory,
                self.supertype_map_slices as int,
                (self.largest_supertype(memory) + 1) * 4,
            )
            &&& sized_ok(
                memory,
                self.supertype_map_entries as int,
                self.supertype_map_entry_count(memory) * 2,
            )
        }
    }

    /// Whether the aliases can be copied.
    pub open spec fn aliases_ok(self, memory: Seq<u8>) -> bool {
        self.has_aliases() ==> {
            &&& alias_map_end(memory, self.alias_map as int) is Some
            &&& sized_ok(
                memory,
                self.alias_sequences as int,
                self.production_id_count * self.max_alias_sequence_length * 2,
            )
        }
    }

    /// Whether the tables of the small states can be copied.
    pub open spec fn small_states_ok(self, memory: Seq<u8>, sentinels: Seq<i32>) -> bool {
        self.has_small_states() ==> {
            &&& sized_ok(
                memory,
                self.small_parse_table_map as int,
                (self.state_count - self.large_state_count) * 4,
            )
            &&& unsized_ok(memory, self.small_parse_table, sentinels)
        }
    }

    /// Whether what the newer ABIs added can be copied.
    pub open spec fn newer_ok(self, memory: Seq<u8>) -> bool {
        &&& self.abi_version >= LANGUAGE_VERSION_WITH_PRIMARY_STATES ==> sized_ok(
            memory,
            self.primary_state_ids as int,
            self.state_count * 2,
        )
        &&& self.abi_version >= LANGUAGE_VERSION_WITH_RESERVED_WORDS ==> first_nul(
            memory,
            self.name as int,
        ) is Some
        &&& self.has_reserved_words(memory) ==> sized_ok(
            memory,
            self.reserved_words as int,
            self.reserved_word_count(memory) * 2,
        )
    }

    /// Whether the external scanner's symbols can be copied.
    pub open spec fn scanner_ok(self, memory: Seq<u8>) -> bool {
        self.external_token_count > 0 ==> sized_ok(
            memory,
            self.external_scanner.symbol_map as int,
            self.external_token_count * 2,
        )
    }

    /// Whether all static data of the language can be copied.
    pub open spec fn copy_ok(self, memory: Seq<u8>, sentinels: Seq<i32>) -> bool {
        &&& self.tables_ok(memory, sentinels)
        &&& self.fields_ok(memory)
        &&& self.supertypes_ok(memory)
        &&& self.aliases_ok(memory)
        &&& self.small_states_ok(memory, sentinels)
        &&& self.newer_ok(memory)
        &&& self.scanner_ok(memory)
    }
}

/// A table of strings that is there on a condition only.
pub open spec fn strings_copied(
    table: Option<StringTable>,
    present: bool,
    memory: Seq<u8>,
    address: i32,
    count: int,
) -> bool {
    match table {
        Some(strings) => present && strings.wf() && strings.is_copy(memory, address as int, count),
        None => !present,
    }
}

/// An array that is there on a condition only.
pub open spec fn copied(
    array: Option<Vec<u8>>,
    present: bool,
    memory: Seq<u8>,
    address: i32,
    size: int,
) -> bool {
    contents(array) == if present {
        sized_copy(memory, address as int, size)
    } else {
        None
    }
}

impl CLanguage {
    /// A language of which nothing is known yet: every number is zero, and
    /// everything else is missing.
    pub fn zeroed() -> (language: CLanguage)
        ensures
            language.abi_version == 0,
            language.symbol_count == 0,
            language.alias_count == 0,
            language.token_count == 0,
            language.external_token_count == 0,
            language.state_count == 0,
            language.large_state_count == 0,
            language.production_id_count == 0,
            language.field_count == 0,
            language.max_alias_sequence_length == 0,
            language.parse_table is None,
            language.small_parse_table is None,
            language.small_parse_table_map is None,
            language.parse_actions is None,
            language.symbol_names is None,
            language.field_names is None,
            language.field_map_slices is None,
            language.field_map_entries is None,
            language.symbol_metadata is None,
            language.public_symbol_map is None,
            language.alias_map is None,
            language.alias_sequences is None,
            language.lex_modes is None,
            language.lex_fn is None,
            language.keyword_lex_fn is None,
            language.keyword_capture_token == 0,
            language.external_scanner.states == 0,
            language.external_scanner.symbol_map is None,
            language.primary_state_ids is None,
            language.name is None,
            language.reserved_words is None,
            language.max_reserved_word_set_size == 0,
            language.supertype_count == 0,
            language.supertype_symbols is None,
            language.supertype_map_slices is None,
            language.supertype_map_entries is None,
            language.metadata == (WasmLanguageMetadata {
                major_version: 0,
                minor_version: 0,
                patch_version: 0,
            }),
    {
        CLanguage {
            abi_version: 0,
            symbol_count: 0,
            alias_count: 0,
            token_count: 0,
            external_token_count: 0,
            state_count: 0,
            large_state_count: 0,
            production_id_count: 0,
            field_count: 0,
            max_alias_sequence_length: 0,
            parse_table: None,
            small_parse_table: None,
            small_parse_table_map: None,
            parse_actions: None,
            symbol_names: None,
            field_names: None,
            field_map_slices: None,
            field_map_entries: None,
            symbol_metadata: None,
            public_symbol_map: None,
            alias_map: None,
            alias_sequences: None,
            lex_modes: None,
            lex_fn: None,
            keyword_lex_fn: None,
            keyword_capture_token: 0,
            external_scanner: CExternalScanner { states: 0, symbol_map: None },
            primary_state_ids: None,
            name: None,
            reserved_words: None,
            max_reserved_word_set_size: 0,
            supertype_count: 0,
            supertype_symbols: None,
            supertype_map_slices: None,
            supertype_map_entries: None,
            metadata: WasmLanguageMetadata { major_version: 0, minor_version: 0, patch_version: 0 },
        }
    }

    /// Whether the counts are those of `origin`.
    pub open spec fn counts_are(self, origin: LanguageInWasmMemory) -> bool {
        &&& self.abi_version == origin.abi_version
        &&& self.symbol_count == origin.symbol_count
        &&& self.alias_count == origin.alias_count
        &&& self.token_count == origin.token_count
        &&& self.external_token_count == origin.external_token_count
        &&& self.state_count == origin.state_count
        &&& self.large_state_count == origin.large_state_count
        &&& self.production_id_count == origin.production_id_count
        &&& self.field_count == origin.field_count
        &&& self.supertype_count == origin.supertype_count
        &&& self.max_alias_sequence_length == origin.max_alias_sequence_length
        &&& self.keyword_capture_token == origin.keyword_capture_token
        &&& self.metadata == origin.metadata
        &&& self.max_reserved_word_set_size == if origin.abi_version
            >= LANGUAGE_VERSION_WITH_RESERVED_WORDS {
            origin.max_reserved_word_set_size
        } else {
            0
        }
    }

    /// Whether the tables that every language has are copies of those of
    /// `origin`.
    pub open spec fn tables_are(
        self,
        memory: Seq<u8>,
        origin: LanguageInWasmMemory,
        sentinels: Seq<i32>,
    ) -> bool {
        let names = origin.symbol_name_count();
        &&& copied(
            self.parse_table,
            true,
            memory,
            origin.parse_table,
            origin.large_state_count * origin.symbol_count * 2,
        )
        &&& contents(self.parse_actions) == unsized_copy(memory, origin.parse_actions, sentinels)
        &&& strings_copied(self.symbol_names, true, memory, origin.symbol_names, names)
        &&& copied(self.symbol_metadata, true, memory, origin.symbol_metadata, names * 3)
        &&& copied(self.public_symbol_map, true, memory, origin.public_symbol_map, names * 2)
        &&& copied(self.lex_modes, true, memory, origin.lex_modes, origin.state_count * 6)
    }

    /// Whether the fields are copies of those of `origin`.
    pub open spec fn fields_are(self, memory: Seq<u8>, origin: LanguageInWasmMemory) -> bool {
        let present = origin.has_fields();
        &&& copied(
            self.field_map_slices,
            present,
            memory,
            origin.field_map_slices,
            origin.production_id_count * 4,
        )
        &&& copied(
            self.field_map_entries,
            present,
            memory,
            origin.field_map_entries,
            origin.field_map_entry_count(memory) * 4,
        )
        &&& strings_copied(
            self.field_names,
            present,
            memory,
            origin.field_names,
            origin.field_count + 1,
        )
    }

    /// Whether the supertypes are copies of those of `origin`.
    pub open spec fn supertypes_are(self, memory: Seq<u8>, origin: LanguageInWasmMemory) -> bool {
        let present = origin.has_supertypes();
        &&& copied(
            self.supertype_symbols,
            present,
            memory,
            origin.supertype_symbols,
            origin.supertype_count * 2,
        )
        &&& copied(
            self.supertype_map_slices,
            present,
            memory,
            origin.supertype_map_slices,
            (origin.largest_supertype(memory) + 1) * 4,
        )
        &&& copied(
            self.supertype_map_entries,
            present,
            memory,
            origin.supertype_map_entries,
            origin.supertype_map_entry_count(memory) * 2,
        )
    }

    /// Whether the aliases are copies of those of `origin`.
    pub open spec fn aliases_are(self, memory: Seq<u8>, origin: LanguageInWasmMemory) -> bool {
        let present = origin.has_aliases();
        &&& copied(
            self.alias_map,
            present,
            memory,
            origin.alias_map,
            alias_map_end(memory, origin.alias_map as int)->0 - origin.alias_map,
        )
        &&& copied(
            self.alias_sequences,
            present,
            memory,
            origin.alias_sequences,
            origin.production_id_count * origin.max_alias_sequence_length * 2,
        )
    }

    /// Whether the tables of the small states are copies of those of `origin`.
    pub open spec fn small_states_are(
        self,
        memory: Seq<u8>,
        origin: LanguageInWasmMemory,
        sentinels: Seq<i32>,
    ) -> bool {
        let present = origin.has_small_states();
        &&& copied(
            self.small_parse_table_map,
            present,
            memory,
            origin.small_parse_table_map,
            (origin.state_count - origin.large_state_count) * 4,
        )
        &&& contents(self.small_parse_table) == if present {
            unsized_copy(memory, origin.small_parse_table, sentinels)
        } else {
            None
        }
    }

    /// Whether what the newer ABIs added are copies of those of `origin`.
    pub open spec fn newer_are(self, memory: Seq<u8>, origin: LanguageInWasmMemory) -> bool {
        &&& copied(
            self.primary_state_ids,
            origin.abi_version >= LANGUAGE_VERSION_WITH_PRIMARY_STATES,
            memory,
            origin.primary_state_ids,
            origin.state_count * 2,
        )
        &&& contents(self.name) == if origin.abi_version >= LANGUAGE_VERSION_WITH_RESERVED_WORDS {
            Some(string_copy(memory, origin.name as int))
        } else {
            None
        }
        &&& copied(
            self.reserved_words,
            origin.has_reserved_words(memory),
            memory,
            origin.reserved_words,
            origin.reserved_word_count(memory) * 2,
        )
    }

    /// Whether the external scanner is that of `origin`: its symbols copied,
    /// its states left in Wasm memory.
    pub open spec fn scanner_is(self, memory: Seq<u8>, origin: LanguageInWasmMemory) -> bool {
        let present = origin.external_token_count > 0;
        &&& copied(
            self.external_scanner.symbol_map,
            present,
            memory,
            origin.external_scanner.symbol_map,
            origin.external_token_count * 2,
        )
        &&& self.external_scanner.states == if present {
            origin.external_scanner.states
        } else {
            0
        }
    }

    /// Whether this is the copy of the static data of `origin`.
    pub open spec fn is_copy(
        self,
        memory: Seq<u8>,
        origin: LanguageInWasmMemory,
        sentinels: Seq<i32>,
    ) -> bool {
        &&& self.counts_are(origin)
        &&& self.tables_are(memory, origin, sentinels)
        &&& self.fields_are(memory, origin)
        &&& self.supertypes_are(memory, origin)
        &&& self.aliases_are(memory, origin)
        &&& self.small_states_are(memory, origin, sentinels)
        &&& self.newer_are(memory, origin)
        &&& self.scanner_is(memory, origin)
        &&& self.lex_fn is None
        &&& self.keyword_lex_fn is None
    }
}

} // verus!
