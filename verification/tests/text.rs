use wasm_store::callbacks::{compose_debug_text, truth_value};
use wasm_store::language_id::LanguageId;
use wasm_store::layout::{LexerInWasmMemory, LEXER_SIZE};
use wasm_store::lexer::LexerData;
use wasm_store::module::{is_module_initializer, take_language_address};
use wasm_store::records::{count_unmarked, find_place};
use wasm_store::stdlib::stdlib_symbols;
use wasm_store::text::{
    characters, holds_nul, join2, join3, position, same_text, to_decimal, to_signed_decimal,
};

#[test]
fn numbers_are_written_in_decimal() {
    assert_eq!(to_decimal(0), "0");
    assert_eq!(to_decimal(1_234_567_890), "1234567890");
    assert_eq!(to_decimal(u64::MAX), "18446744073709551615");
    assert_eq!(to_signed_decimal(-7), "-7");
    assert_eq!(to_signed_decimal(i32::MIN), "-2147483648");
    assert_eq!(to_signed_decimal(i32::MAX), "2147483647");
}

#[test]
fn texts_are_compared_and_joined() {
    assert!(same_text("grün", "grün"));
    assert!(!same_text("grün", "grun"));
    assert!(!same_text("a", "ab"));
    assert!(same_text("", ""));
    assert_eq!(join2("ä", "b"), "äb");
    assert_eq!(join3("a", "", "c"), "ac");
    assert_eq!(characters("aß€"), ['a', 'ß', '€']);
}

#[test]
fn texts_are_found_in_lists() {
    let list = ["b".to_string(), "a".to_string(), "b".to_string()];
    assert_eq!(position(&list, "b"), Some(0));
    assert_eq!(position(&list, "a"), Some(1));
    assert_eq!(position(&list, "c"), None);
}

#[test]
fn nuls_are_found() {
    assert!(holds_nul("a\0b"));
    assert!(!holds_nul("a0b"));
    assert!(!holds_nul(""));
}

#[test]
fn symbols_are_one_to_a_line() {
    let list = "\"malloc\",\n  \"free\" ,\r\n\n\t\u{3000}\"strlen\"\n,\nmemcpy\n\"a b\",";
    assert_eq!(stdlib_symbols(list), ["malloc", "free\" ", "strlen", "memcpy", "a b"]);
    assert!(stdlib_symbols("").is_empty());
    assert!(stdlib_symbols("\"\",\n \n").is_empty());
}

#[test]
fn initializers_are_known_by_name() {
    assert!(is_module_initializer("_initialize"));
    assert!(is_module_initializer("__wasm_apply_data_relocs"));
    assert!(is_module_initializer("__wasm_call_ctors"));
    assert!(!is_module_initializer("_start"));
}

#[test]
fn a_language_function_returns_one_integer() {
    assert_eq!(take_language_address(&[Some(-3)], "f"), Ok(-3));
    let failure = "language function did not return an integer: f\n".to_string();
    assert_eq!(take_language_address(&[None], "f"), Err((3, failure.clone())));
    assert_eq!(take_language_address(&[], "f"), Err((3, failure)));
}

#[test]
fn debug_texts_are_composed() {
    let data = b"hi\0gr\xc3\xbcn\0\xff!\0tail";
    assert_eq!(compose_debug_text(data, 0, 5), "DEBUG: hi 5");
    assert_eq!(compose_debug_text(data, 3, -1), "DEBUG: grün 4294967295");
    assert_eq!(compose_debug_text(data, 9, 0), "DEBUG: \u{fffd}! 0");
    assert_eq!(compose_debug_text(data, 12, 0), "DEBUG:  0");
    assert_eq!(compose_debug_text(data, data.len() as i32, 0), "DEBUG:  0");
    assert_eq!(compose_debug_text(data, data.len() as i32 + 1, 0), "DEBUG:  0");
    assert_eq!(compose_debug_text(data, -1, 0), "DEBUG:  0");
}

#[test]
fn truth_values_are_zero_and_one() {
    assert_eq!(truth_value(true), 1u32);
    assert_eq!(truth_value(false), 0);
}

#[test]
fn unmarked_items_are_counted() {
    assert_eq!(count_unmarked(&[]), 0);
    assert_eq!(count_unmarked(&[true, false, true, false, false]), 3);
}

#[test]
fn places_are_found_behind_what_stays() {
    let marked = [true, false, true, false, false];
    assert_eq!(find_place(Some(1), &marked), Some(0));
    assert_eq!(find_place(Some(4), &marked), Some(2));
    assert_eq!(find_place(Some(2), &marked), None);
    assert_eq!(find_place(Some(5), &marked), None);
    assert_eq!(find_place(None, &marked), None);
}

#[test]
fn a_new_identity_is_not_deleted() {
    let id = LanguageId::new(&[]);
    assert!(!id.is_deleted());
    id.delete();
    assert!(id.is_deleted());
    assert!(!LanguageId::new(&[]).is_deleted());
}

#[test]
fn lexer_data_reads_back_as_laid_out() {
    let data = LexerData { lookahead: -2, result_symbol: 0x1234, padding: 0xabcd };
    let bytes = data.to_bytes();
    assert_eq!(bytes, [0xfe, 0xff, 0xff, 0xff, 0x34, 0x12, 0xcd, 0xab]);
    let mut memory = vec![9; 3];
    memory.extend(bytes);
    memory.push(9);
    assert_eq!(LexerData::from_bytes(&memory, 3), data);
}

#[test]
fn a_lexer_object_is_laid_out() {
    let lexer = LexerInWasmMemory {
        lookahead: -1,
        result_symbol: 2,
        advance: 3,
        mark_end: 4,
        get_column: 5,
        is_at_included_range_start: 6,
        eof: 0x0102_0304,
    };
    let bytes = lexer.to_bytes();
    assert_eq!(bytes.len(), LEXER_SIZE);
    assert_eq!(bytes[..8], [0xff, 0xff, 0xff, 0xff, 2, 0, 0, 0]);
    assert_eq!(bytes[8..12], [3, 0, 0, 0]);
    assert_eq!(bytes[24..], [4, 3, 2, 1]);
}
