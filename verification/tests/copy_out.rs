use wasm_store::copy_out::{copy_language_from, read_instance_addresses};
use wasm_store::error::INSTANTIATE;
use wasm_store::language::CLanguage;
use wasm_store::layout::{LanguageInWasmMemory, LANGUAGE_SIZE};
use wasm_store::memory::WasmMemoryView;
use wasm_store::statics::{
    copy, copy_string, copy_strings, copy_unsized_static_array, finalize_string_table, StringTable,
};

/// Where the language object stands.
const AT: usize = 8;

/// A memory with a language object, and arrays behind it.
struct Image {
    bytes: Vec<u8>,
}

impl Image {
    fn new(abi_version: u32) -> Image {
        let mut memory = Image { bytes: vec![0; AT + LANGUAGE_SIZE] };
        memory.set(0, abi_version);
        memory.array(19, &[]);
        memory.array(14, &[]);
        memory.array(34, b"demo\0");
        memory
    }

    /// Sets the 32-bit field number `index` of the language object.
    fn set(&mut self, index: usize, value: u32) {
        let at = AT + 4 * index;
        self.bytes[at..at + 4].copy_from_slice(&value.to_le_bytes());
    }

    /// Appends an array, and lets a field of the language object point to it.
    fn array(&mut self, index: usize, bytes: &[u8]) -> u32 {
        let address = self.append(bytes);
        self.set(index, address);
        address
    }

    fn append(&mut self, bytes: &[u8]) -> u32 {
        while self.bytes.len() % 4 != 0 {
            self.bytes.push(0xee);
        }
        let address = self.bytes.len() as u32;
        self.bytes.extend(bytes);
        address
    }

    fn copy(&self) -> Result<CLanguage, (u32, String)> {
        copy_language_from(&self.bytes, AT as i32, self.bytes.len() as u32)
            .map(|output| output.language)
    }

    fn copied(&self) -> CLanguage {
        self.copy().expect("a language")
    }

    fn assert_invalid(&self) {
        let failure = self.copy().err();
        assert_eq!(
            failure,
            Some((INSTANTIATE, "invalid language memory address".to_string()))
        );
    }
}

fn halves(values: &[u16]) -> Vec<u8> {
    values.iter().flat_map(|value| value.to_le_bytes()).collect()
}

fn words(values: &[u32]) -> Vec<u8> {
    values.iter().flat_map(|value| value.to_le_bytes()).collect()
}

#[test]
fn the_language_object_is_read_field_by_field() {
    let bytes: Vec<u8> = (0..LANGUAGE_SIZE as u8 + 4).collect();
    let language = LanguageInWasmMemory::from_bytes(&bytes, 4);
    assert_eq!(language.abi_version, 0x0706_0504);
    assert_eq!(language.max_alias_sequence_length, 0x2928);
    assert_eq!(language.parse_table, 0x2f2e_2d2c);
    assert_eq!(language.keyword_capture_token, 0x6968);
    assert_eq!(language.external_scanner.states, 0x6f6e_6d6c);
    assert_eq!(language.external_scanner.deserialize, 0x8786_8584u32 as i32);
    assert_eq!(language.supertype_map_entries, 0xa7a6_a5a4u32 as i32);
    assert_eq!(language.metadata.patch_version, 0xaa);
}

#[test]
fn addresses_are_picked_out_of_the_language_object() {
    let mut memory = Image::new(15);
    for (index, value) in [(23, 1), (24, 2), (26, 3), (28, 4), (29, 5), (30, 6), (31, 7), (32, 8)] {
        memory.set(index, value);
    }
    let addresses = read_instance_addresses(&memory.bytes, AT as i32).expect("addresses");
    assert_eq!(addresses.lex_fn, 1);
    assert_eq!(addresses.keyword_lex_fn, 2);
    assert_eq!(addresses.external_states_address, 3);
    assert_eq!(addresses.scanner_create, 4);
    assert_eq!(addresses.scanner_destroy, 5);
    assert_eq!(addresses.scanner_scan, 6);
    assert_eq!(addresses.scanner_serialize, 7);
    assert_eq!(addresses.scanner_deserialize, 8);
    assert!(read_instance_addresses(&memory.bytes, memory.bytes.len() as i32 - 167).is_none());
    assert!(read_instance_addresses(&memory.bytes, -1).is_none());
}

#[test]
fn a_bare_language_has_no_arrays() {
    let language = Image::new(13).copied();
    assert_eq!(language.abi_version, 13);
    assert!(language.parse_table.is_none());
    assert!(language.primary_state_ids.is_none());
    assert!(language.name.is_none());
    assert!(language.lex_fn.is_none());
    let names = language.symbol_names.expect("names");
    assert!(names.array.is_empty());
    assert!(names.scratch.is_empty());
}

#[test]
fn versions_outside_of_the_range_are_refused() {
    for version in [0, 12, 16, u32::MAX] {
        assert_eq!(
            Image::new(version).copy().err(),
            Some((
                INSTANTIATE,
                format!(
                    "incompatible language ABI version {version}; expected between 13 and 15"
                )
            ))
        );
    }
}

#[test]
fn a_language_object_must_lie_inside_the_memory() {
    let mut memory = Image::new(13);
    memory.bytes.truncate(AT + LANGUAGE_SIZE - 1);
    memory.assert_invalid();
    memory.bytes.truncate(AT + 3);
    memory.assert_invalid();
    assert!(copy_language_from(&memory.bytes, -4, 0).is_err());
}

#[test]
fn parse_tables_are_sized_by_states_and_symbols() {
    let mut memory = Image::new(13);
    memory.set(1, 2);
    memory.set(5, 2);
    memory.set(6, 2);
    memory.array(10, &halves(&[1, 2, 3, 4]));
    memory.array(14, &words(&[0, 0]));
    memory.array(18, &[1; 6]);
    memory.array(19, &halves(&[0, 1]));
    memory.array(22, &halves(&[0; 6]));
    let language = memory.copied();
    assert_eq!(language.parse_table, Some(halves(&[1, 2, 3, 4])));
    assert_eq!(language.symbol_metadata, Some(vec![1; 6]));
    assert_eq!(language.lex_modes, Some(vec![0; 12]));
    memory.set(6, u32::MAX);
    memory.assert_invalid();
}

#[test]
fn small_states_have_tables_of_their_own() {
    let mut memory = Image::new(13);
    memory.set(5, 3);
    memory.set(6, 1);
    memory.array(22, &[0; 18]);
    memory.array(12, &words(&[7, 8]));
    memory.array(11, &halves(&[1, 2, 3]));
    let language = memory.copied();
    assert_eq!(language.small_parse_table_map, Some(words(&[7, 8])));
    assert_eq!(language.small_parse_table, Some(halves(&[1, 2, 3])));
    memory.set(11, -4i32 as u32);
    memory.assert_invalid();
}

#[test]
fn field_maps_are_as_long_as_the_greatest_slice_end() {
    let mut memory = Image::new(13);
    memory.set(7, 3);
    memory.set(8, 1);
    memory.array(16, &halves(&[0, 1, 2, 3, 1, 1]));
    memory.array(17, &[5; 20]);
    let name = memory.append(b"left\0");
    memory.array(15, &words(&[0, name]));
    let language = memory.copied();
    let slices = language.field_map_slices.expect("slices");
    let entries = language.field_map_entries.expect("entries");
    assert_eq!(slices, halves(&[0, 1, 2, 3, 1, 1]));
    assert_eq!(entries, [5; 20]);
    for slice in slices.chunks(4) {
        let end = u16::from_le_bytes([slice[0], slice[1]])
            + u16::from_le_bytes([slice[2], slice[3]]);
        assert!(end as usize * 4 <= entries.len());
    }
    let names = language.field_names.expect("names");
    assert_eq!(names.array, [None, Some(0)]);
    assert_eq!(names.scratch, b"left\0");
    memory.set(17, memory.bytes.len() as u32 - 19);
    memory.assert_invalid();
}

#[test]
fn supertypes_have_slices_up_to_the_greatest() {
    let mut memory = Image::new(15);
    memory.set(37, 2);
    memory.array(38, &halves(&[2, 1]));
    memory.array(39, &halves(&[0, 0, 0, 1, 1, 2]));
    memory.array(40, &halves(&[9, 8, 7]));
    let language = memory.copied();
    assert_eq!(language.supertype_symbols, Some(halves(&[2, 1])));
    assert_eq!(language.supertype_map_slices, Some(halves(&[0, 0, 0, 1, 1, 2])));
    assert_eq!(language.supertype_map_entries, Some(halves(&[9, 8, 7])));
    memory.set(0, 14);
    assert!(memory.copied().supertype_symbols.is_none());
    memory.set(0, 15);
    memory.set(39, memory.bytes.len() as u32 - 8);
    memory.assert_invalid();
}

#[test]
fn alias_maps_end_with_a_null_symbol() {
    let mut memory = Image::new(13);
    memory.set(7, 2);
    memory.set(9, 3);
    let map = halves(&[4, 2, 10, 11, 5, 0, 0]);
    let aliases = memory.array(20, &map);
    memory.array(21, &halves(&[1, 2, 3, 4, 5, 6]));
    let language = memory.copied();
    assert_eq!(language.alias_map, Some(map));
    assert_eq!(language.alias_sequences, Some(halves(&[1, 2, 3, 4, 5, 6])));
    // Without the null symbol the map runs out of the memory.
    let at = aliases as usize;
    memory.bytes[at + 2..at + 4].copy_from_slice(&[0xff, 0xff]);
    memory.assert_invalid();
}

#[test]
fn newer_languages_have_primary_states_and_a_name() {
    let mut memory = Image::new(14);
    memory.set(5, 1);
    memory.set(6, 1);
    memory.array(22, &halves(&[0, 0, 9]));
    memory.array(33, &halves(&[3]));
    let language = memory.copied();
    assert_eq!(language.primary_state_ids, Some(halves(&[3])));
    assert!(language.name.is_none());
    assert_eq!(language.max_reserved_word_set_size, 0);
    memory.set(0, 15);
    assert_eq!(memory.copied().name, Some(b"demo\0".to_vec()));
    memory.set(34, memory.bytes.len() as u32);
    memory.assert_invalid();
}

#[test]
fn reserved_words_reach_up_to_the_greatest_set() {
    let mut memory = Image::new(15);
    memory.set(5, 2);
    memory.set(6, 2);
    memory.array(22, &halves(&[0, 0, 2, 0, 0, 1]));
    memory.array(33, &halves(&[0, 0]));
    memory.set(36, 2);
    memory.array(35, &halves(&[1, 2, 3, 4, 5, 6]));
    let language = memory.copied();
    assert_eq!(language.max_reserved_word_set_size, 2);
    assert_eq!(language.reserved_words, Some(halves(&[1, 2, 3, 4, 5, 6])));
    memory.set(36, 0);
    assert!(memory.copied().reserved_words.is_none());
    memory.set(36, 3);
    memory.assert_invalid();
}

#[test]
fn external_scanners_keep_the_address_of_their_states() {
    let mut memory = Image::new(13);
    memory.set(26, 77);
    assert_eq!(memory.copied().external_scanner.states, 0);
    memory.set(4, 2);
    memory.array(27, &halves(&[5, 6]));
    let scanner = memory.copied().external_scanner;
    assert_eq!(scanner.states, 77);
    assert_eq!(scanner.symbol_map, Some(halves(&[5, 6])));
    memory.set(27, memory.bytes.len() as u32 - 3);
    memory.assert_invalid();
}

#[test]
fn sized_arrays_are_copied_once_all_is_well() {
    let view = WasmMemoryView { data: &[1, 2, 3] };
    let mut ok = true;
    assert_eq!(copy(&view, 1, 2, &mut ok), Some(vec![2, 3]));
    assert_eq!(copy(&view, 99, 0, &mut ok), None);
    assert!(ok);
    assert_eq!(copy(&view, 2, 2, &mut ok), None);
    assert!(!ok);
    assert_eq!(copy(&view, 0, 1, &mut ok), None);
}

#[test]
fn unsized_arrays_end_at_the_next_address() {
    let view = WasmMemoryView { data: &[0, 1, 2, 3, 4, 5] };
    let mut ok = true;
    assert_eq!(copy_unsized_static_array(&view, 2, &[6, 4, 2, 1], &mut ok), Some(vec![2, 3]));
    assert_eq!(copy_unsized_static_array(&view, 0, &[4], &mut ok), None);
    assert_eq!(copy_unsized_static_array(&view, 4, &[4, 1], &mut ok), None);
    assert!(ok);
    assert_eq!(copy_unsized_static_array(&view, 4, &[7], &mut ok), None);
    assert!(!ok);
    ok = true;
    assert_eq!(copy_unsized_static_array(&view, -1, &[1], &mut ok), None);
    assert!(!ok);
}

#[test]
fn strings_are_copied_with_their_nul() {
    let view = WasmMemoryView { data: b"ab\0c" };
    let mut ok = true;
    assert_eq!(copy_string(&view, 1, &mut ok), Some(b"b\0".to_vec()));
    assert_eq!(copy_string(&view, 2, &mut ok), Some(b"\0".to_vec()));
    assert_eq!(copy_string(&view, 3, &mut ok), None);
    assert!(!ok);
}

#[test]
fn string_tables_hold_offsets_that_become_pointers() {
    let mut data = b"xab\0c\0xx".to_vec();
    data.extend(words(&[4, 0, 1, 4]));
    let view = WasmMemoryView { data: &data };
    let mut ok = true;
    let table = copy_strings(&view, 8, 4, &mut ok).expect("a table");
    assert_eq!(table.array, [Some(0), None, Some(2), Some(5)]);
    assert_eq!(table.scratch, b"c\0ab\0c\0");
    assert_eq!(finalize_string_table(&table, 1000), [1000, 0, 1002, 1005]);
    assert!(copy_strings(&view, 8, 5, &mut ok).is_none());
    assert!(!ok);
    let empty = StringTable { array: vec![None], scratch: vec![] };
    assert_eq!(finalize_string_table(&empty, 9), [0]);
}

#[test]
fn strings_must_end_inside_the_memory() {
    let mut data = words(&[4]);
    data.extend(b"ab");
    let view = WasmMemoryView { data: &data };
    let mut ok = true;
    assert!(copy_strings(&view, 0, 1, &mut ok).is_none());
    assert!(!ok);
}
