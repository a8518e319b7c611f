use std::sync::{Arc, Mutex};

use wasm_store::api::{
    error_bytes, lexer_data, set_lexer_data, take_debug_messages, ts_language_is_wasm,
    ts_wasm_language_release, ts_wasm_language_retain, ts_wasm_store_call_lex_keyword,
    ts_wasm_store_call_lex_main, ts_wasm_store_call_scanner_create,
    ts_wasm_store_call_scanner_deserialize, ts_wasm_store_call_scanner_destroy,
    ts_wasm_store_call_scanner_scan, ts_wasm_store_call_scanner_serialize,
    ts_wasm_store_has_error, ts_wasm_store_language_count, ts_wasm_store_load_language,
    ts_wasm_store_new, ts_wasm_store_reset, ts_wasm_store_start, ts_wasm_store__sentinel_lex_fn,
};
use wasm_store::bridge::provide_builtin_import;
use wasm_store::engine::StoreInner;
use wasm_store::error::{ALLOCATE, COMPILE, INSTANTIATE, PARSE};
use wasm_store::language::LexFn;
use wasm_store::lexer::{CLexer, LexerData, LexerFunctions};
use wasm_store::load::{add_language, WasmLanguage};
use wasm_store::module::instantiate;
use wasm_store::runtime::Import;
use wasm_store::setup::StoreFailure;

/// Where the first module's data is placed: behind two pages and the lexer.
const BASE: u32 = 2 * 65536 + 28;

/// Where the first module's table entries are placed: behind the initial entry
/// and the five lexer functions.
const TABLE_BASE: u32 = 6;

const SYMBOLS: &str = "  \"malloc\",\n\"free\",\r\n\n";

const STDLIB: &str = r#"
(module
  (import "env" "memory" (memory 2))
  (import "env" "abort" (func $abort))
  (global $stack_pointer (mut i32) (i32.const 1024))
  (export "__stack_pointer" (global $stack_pointer))
  (func (export "_initialize") (i32.store (i32.const 20) (i32.const 77)))
  (func (export "reset_heap") (param i32)
    (i32.store (i32.const 16) (local.get 0))
    (i32.store (i32.const 24) (i32.add (i32.load (i32.const 24)) (i32.const 1))))
  (func (export "malloc") (param i32) (result i32) (i32.const 4096))
  (func (export "free") (param i32)))
"#;

/// An engine that reserves no more address space than memories have.
fn engine() -> wasmtime::Engine {
    let mut config = wasmtime::Config::new();
    config.memory_reservation(0);
    config.memory_reservation_for_growth(0);
    config.memory_guard_size(0);
    wasmtime::Engine::new(&config).expect("an engine")
}

fn wasm(text: &str) -> Vec<u8> {
    wat::parse_str(text).expect("a module")
}

fn try_store(stdlib: &str, symbols: &str) -> Result<StoreInner, StoreFailure> {
    ts_wasm_store_new(engine(), &wasm(stdlib), symbols)
}

fn new_store() -> StoreInner {
    try_store(STDLIB, SYMBOLS).expect("a store")
}

fn store_failure(stdlib: &str, symbols: &str) -> (u32, String) {
    match try_store(stdlib, symbols) {
        Ok(_) => panic!("a store was made"),
        Err(failure) => {
            assert!(failure.debug_messages.is_empty());
            (failure.kind, failure.message)
        }
    }
}

fn memory(store: &StoreInner, at: u32, size: usize) -> Vec<u8> {
    store.memory.data(&store.store)[at as usize..at as usize + size].to_vec()
}

fn word(store: &StoreInner, at: u32) -> u32 {
    u32::from_le_bytes(memory(store, at, 4).try_into().unwrap())
}

/// Puts a `dylink.0` section in front of a module.
fn with_dylink(module: &[u8], memory_size: u32, table_size: u32) -> Vec<u8> {
    let mut info = leb(memory_size);
    info.push(2);
    info.extend(leb(table_size));
    info.push(0);
    let mut section = vec![8];
    section.extend(b"dylink.0");
    section.push(1);
    section.extend(leb(info.len() as u32));
    section.extend(info);
    let mut result = module[..8].to_vec();
    result.push(0);
    result.extend(leb(section.len() as u32));
    result.extend(section);
    result.extend(&module[8..]);
    result
}

fn leb(mut value: u32) -> Vec<u8> {
    let mut bytes = Vec::new();
    loop {
        let byte = (value & 0x7f) as u8;
        value >>= 7;
        if value == 0 {
            bytes.push(byte);
            return bytes;
        }
        bytes.push(byte | 0x80);
    }
}

/// The static data of a grammar that is placed at `base`, with its functions
/// in the table from `table_base` on. The language object comes first.
fn language_image(abi_version: u32, base: u32, table_base: u32) -> Vec<u8> {
    let at = |offset: u32| base + offset;
    let mut words = vec![0u32; 42];
    words[0] = abi_version;
    words[1] = 2; // symbol_count
    words[2] = 0; // alias_count
    words[3] = 1; // token_count
    words[4] = 1; // external_token_count
    words[5] = 1; // state_count
    words[6] = 1; // large_state_count
    words[10] = at(168); // parse_table, 4 bytes
    words[13] = at(172); // parse_actions, up to symbol_names
    words[14] = at(180); // symbol_names, 8 bytes
    words[18] = at(188); // symbol_metadata, 6 bytes
    words[19] = at(196); // public_symbol_map, 4 bytes
    words[22] = at(200); // lex_modes, 6 bytes
    words[23] = table_base; // lex_fn
    words[24] = table_base + 1; // keyword_lex_fn
    words[26] = at(208); // states
    words[27] = at(212); // symbol_map, 2 bytes
    words[28] = table_base + 2; // create
    words[29] = table_base + 3; // destroy
    words[30] = table_base + 4; // scan
    words[31] = table_base + 5; // serialize
    words[32] = table_base + 6; // deserialize
    words[33] = at(216); // primary_state_ids, 2 bytes
    words[34] = at(220); // name, 5 bytes
    let mut image: Vec<u8> = words.iter().flat_map(|word| word.to_le_bytes()).collect();
    image[164..167].copy_from_slice(&[1, 2, 3]);
    image.extend([1, 0, 2, 0]); // parse_table
    image.extend([9, 8, 7, 6, 5, 4, 3, 2]); // parse_actions
    image.extend(at(226).to_le_bytes()); // symbol_names
    image.extend(0u32.to_le_bytes());
    image.extend([1, 1, 0, 0, 1, 0, 0, 0]); // symbol_metadata
    image.extend([0, 0, 1, 0]); // public_symbol_map
    image.extend([5, 0, 6, 0, 0, 0, 0, 0]); // lex_modes
    image.extend([1, 0, 0, 0]); // states
    image.extend([7, 0, 0, 0]); // symbol_map
    image.extend([3, 0, 0, 0]); // primary_state_ids
    image.extend(b"demo\0\0"); // name
    image.extend(b"end\0"); // the first symbol name
    image
}

const TABLE_SIZE: u32 = 7;

/// The text of a grammar module around static data.
fn grammar_text(image: &[u8], imports: &str, extra: &str) -> String {
    let data: String = image.iter().map(|byte| format!("\\{byte:02x}")).collect();
    format!(
        r#"
(module
  (type $advance (func (param i32 i32)))
  (type $ask (func (param i32) (result i32)))
  (import "env" "memory" (memory 1))
  (import "env" "__memory_base" (global $memory_base i32))
  (import "env" "__table_base" (global $table_base i32))
  (import "env" "__indirect_function_table" (table 0 funcref))
  (import "env" "malloc" (func $malloc (param i32) (result i32)))
  (import "env" "tree_sitter_debug_message" (func $debug (param i32 i32)))
  {imports}
  (data (global.get $memory_base) "{data}")
  (elem (global.get $table_base) func
    $lex $keyword $create $destroy $scan $serialize $deserialize)
  (func (export "tree_sitter_demo") (result i32) (global.get $memory_base))
  ;; Advances, then accepts the lex state as a symbol.
  (func $lex (param $lexer i32) (param $state i32) (result i32)
    (call_indirect (type $advance)
      (local.get $lexer) (i32.const 1) (i32.load offset=8 (local.get $lexer)))
    (i32.store16 offset=4 (local.get $lexer) (local.get $state))
    (i32.const 1))
  ;; Puts the answers of the lexer into memory, and finds nothing.
  (func $keyword (param $lexer i32) (param $state i32) (result i32)
    (i32.store (i32.const 32)
      (call_indirect (type $ask) (local.get $lexer) (i32.load offset=16 (local.get $lexer))))
    (i32.store (i32.const 36)
      (call_indirect (type $ask) (local.get $lexer) (i32.load offset=20 (local.get $lexer))))
    (i32.store (i32.const 40)
      (call_indirect (type $ask) (local.get $lexer) (i32.load offset=24 (local.get $lexer))))
    (call_indirect (param i32) (local.get $lexer) (i32.load offset=12 (local.get $lexer)))
    (i32.const 0))
  (func $create (result i32) (call $malloc (i32.const 8)))
  (func $destroy (param i32)
    (if (i32.eqz (local.get 0)) (then unreachable))
    (i32.store (i32.const 44) (local.get 0)))
  ;; Finds a token where the table of valid tokens says so.
  (func $scan (param $scanner i32) (param $lexer i32) (param $valid i32) (result i32)
    (if (i32.eqz (local.get $scanner)) (then unreachable))
    (i32.load8_u (local.get $valid)))
  ;; Writes as many bytes as the scanner's address says.
  (func $serialize (param $scanner i32) (param $buffer i32) (result i32)
    (memory.fill (local.get $buffer) (i32.const 170)
      (select (local.get $scanner) (i32.const 1024)
        (i32.lt_u (local.get $scanner) (i32.const 1024))))
    (local.get $scanner))
  ;; Keeps its arguments and the first byte.
  (func $deserialize (param $scanner i32) (param $buffer i32) (param $length i32)
    (i32.store (i32.const 48) (local.get $buffer))
    (i32.store (i32.const 52) (local.get $length))
    (i32.store (i32.const 56) (i32.load8_u (local.get $buffer))))
  {extra})
"#
    )
}

fn grammar(store: &StoreInner) -> Vec<u8> {
    let image = language_image(
        15,
        store.current_memory_offset,
        store.current_function_table_offset,
    );
    with_dylink(&wasm(&grammar_text(&image, "", "")), image.len() as u32, TABLE_SIZE)
}

fn load(store: &mut StoreInner) -> WasmLanguage {
    let bytes = grammar(store);
    ts_wasm_store_load_language(store, "demo", &bytes).expect("a language")
}

fn load_failure(store: &mut StoreInner, name: &str, bytes: &[u8]) -> (u32, String) {
    let offsets = (store.current_memory_offset, store.current_function_table_offset);
    let failure = match ts_wasm_store_load_language(store, name, bytes) {
        Ok(_) => panic!("a language was loaded"),
        Err(failure) => failure,
    };
    assert_eq!(
        (store.current_memory_offset, store.current_function_table_offset),
        offsets
    );
    failure
}

/// A lexer that keeps a log.
struct Logger {
    log: Arc<Mutex<Vec<String>>>,
}

impl Logger {
    fn note(&mut self, text: String) {
        self.log.lock().unwrap().push(text);
    }
}

impl LexerFunctions for Logger {
    fn advance(&mut self, data: &mut LexerData, skip: bool) {
        self.note(format!("advance {} {skip}", data.lookahead));
        data.lookahead += 1;
    }

    fn mark_end(&mut self, _data: &mut LexerData) {
        self.note("mark_end".to_string());
    }

    fn get_column(&mut self, _data: &mut LexerData) -> u32 {
        self.note("get_column".to_string());
        42
    }

    fn is_at_included_range_start(&mut self, _data: &mut LexerData) -> bool {
        self.note("is_at_included_range_start".to_string());
        true
    }

    fn eof(&mut self, _data: &mut LexerData) -> bool {
        self.note("eof".to_string());
        false
    }
}

fn lexer(lookahead: i32) -> (CLexer, Arc<Mutex<Vec<String>>>) {
    let log = Arc::new(Mutex::new(Vec::new()));
    let lexer = CLexer {
        data: LexerData { lookahead, result_symbol: 0, padding: 0x5566 },
        functions: Box::new(Logger { log: Arc::clone(&log) }),
    };
    (lexer, log)
}

/// A store that parses with the demo language.
fn parsing() -> (StoreInner, WasmLanguage, Arc<Mutex<Vec<String>>>) {
    let mut store = new_store();
    let language = load(&mut store);
    let (lexer, log) = lexer(97);
    assert!(ts_wasm_store_start(&mut store, lexer, &language));
    (store, language, log)
}

#[test]
fn a_new_store_is_laid_out() {
    let store = new_store();
    assert_eq!(store.lexer_address(), 2 * 65536);
    assert_eq!(store.current_memory_offset, BASE);
    assert_eq!(store.heap_address(), BASE + 1024);
    assert_eq!(store.current_function_table_offset, TABLE_BASE);
    assert_eq!(store.memory.size(&store.store), 3);
    assert_eq!(store.table.size(&store.store), 6);
    let image: Vec<u32> = (0..7).map(|i| word(&store, store.lexer_address() + 4 * i)).collect();
    assert_eq!(image, [0, 0, 1, 2, 3, 4, 5]);
    assert_eq!(store.stdlib_symbols, ["malloc", "free"]);
    assert_eq!(store.stdlib_fns.len(), 2);
    assert!(store.builtin_fns.reset_heap.is_some());
    assert_eq!(word(&store, 20), 77);
    assert_eq!(ts_wasm_store_language_count(&store), 0);
    assert!(!ts_wasm_store_has_error(&store));
}

#[test]
fn the_stack_pointer_comes_from_the_stdlib() {
    let mut store = new_store();
    let global = store.stack_pointer_global;
    assert_eq!(global.get(&mut store.store).i32(), Some(1024));
}

#[test]
fn a_stdlib_that_does_not_compile_is_refused() {
    let failure = ts_wasm_store_new(engine(), b"no module", SYMBOLS).err();
    let failure = failure.expect("a failure");
    assert_eq!(failure.kind, COMPILE);
    let text = wasmtime::Module::new(&engine(), b"no module").err().unwrap().to_string();
    assert_eq!(failure.message, format!("failed to compile Wasm stdlib: {text}"));
}

/// A stdlib that asks to have something printed before it goes on to `then`.
fn talkative_stdlib(then: &str) -> String {
    STDLIB
        .replace(
            "(global $stack_pointer ",
            r#"(import "env" "tree_sitter_debug_message" (func $debug (param i32 i32)))
               (data (i32.const 100) "hello\00")
               (global $stack_pointer "#,
        )
        .replace(
            "(i32.store (i32.const 20) (i32.const 77))",
            &format!("(call $debug (i32.const 100) (i32.const 9)) {then}"),
        )
}

#[test]
fn what_the_stdlib_has_printed_is_kept() {
    let mut store = try_store(&talkative_stdlib(""), SYMBOLS).expect("a store");
    assert_eq!(take_debug_messages(&mut store), ["DEBUG: hello 9"]);
}

#[test]
fn a_refused_store_tells_what_was_printed() {
    let failure = match try_store(&talkative_stdlib("(call $abort)"), SYMBOLS) {
        Ok(_) => panic!("a store was made"),
        Err(failure) => failure,
    };
    assert_eq!(failure.kind, INSTANTIATE);
    assert!(failure.message.starts_with("trap when calling stdlib relocation function: "));
    assert_eq!(failure.debug_messages, ["DEBUG: hello 9"]);
    let failure = match try_store(&talkative_stdlib(""), "calloc") {
        Ok(_) => panic!("a store was made"),
        Err(failure) => failure,
    };
    assert_eq!(failure.message, "missing exported symbol in Wasm stdlib: calloc");
    assert_eq!(failure.debug_messages, ["DEBUG: hello 9"]);
}

#[test]
fn host_functions_find_the_places_of_a_store() {
    let store = new_store();
    let state = store.store.data();
    assert!(state.memory.is_some());
    assert!(state.table.is_some());
    assert_eq!(state.memory().data_ptr(&store.store), store.memory.data_ptr(&store.store));
    assert_eq!(state.table().size(&store.store), store.table.size(&store.store));
    assert_eq!(state.lexer_address, store.lexer_address());
    assert!(state.current_lexer.is_none());
}

#[test]
fn lexer_functions_go_behind_the_entries_of_the_stdlib() {
    let text = STDLIB
        .replace(
            "(global $stack_pointer ",
            r#"(import "env" "__indirect_function_table" (table $table 1 funcref))
               (elem declare func $own)
               (func $own)
               (global $stack_pointer "#,
        )
        .replace(
            "(i32.store (i32.const 20) (i32.const 77))",
            "(drop (table.grow $table (ref.func $own) (i32.const 3)))",
        );
    let mut store = try_store(&text, SYMBOLS).expect("a store");
    assert_eq!(store.current_function_table_offset, 9);
    assert_eq!(store.table.size(&store.store), 9);
    let image: Vec<u32> = (0..7).map(|i| word(&store, store.lexer_address() + 4 * i)).collect();
    assert_eq!(image, [0, 0, 4, 5, 6, 7, 8]);
    let table = store.table;
    let mut filled: Vec<bool> = Vec::new();
    let mut params: Vec<usize> = Vec::new();
    for i in 0..9 {
        let entry = table.get(&mut store.store, i).unwrap();
        let func = entry.as_func().unwrap().cloned();
        filled.push(func.is_some());
        params.push(func.map_or(0, |func| func.ty(&store.store).params().len()));
    }
    assert_eq!(filled, [false, true, true, true, true, true, true, true, true]);
    assert_eq!(params, [0, 0, 0, 0, 2, 1, 1, 1, 1]);
}

#[test]
fn without_a_stack_pointer_there_is_a_mutable_one_at_zero() {
    let text = STDLIB.replace("\"__stack_pointer\"", "\"other\"");
    let mut store = try_store(&text, SYMBOLS).expect("a store");
    let global = store.stack_pointer_global;
    assert_eq!(global.get(&mut store.store).i32(), Some(0));
    assert!(global.ty(&store.store).mutability() == wasmtime::Mutability::Var);
}

#[test]
fn a_stdlib_without_memory_is_refused() {
    assert_eq!(
        store_failure("(module)", SYMBOLS),
        (COMPILE, "Wasm stdlib is missing the 'memory' import".to_string())
    );
}

#[test]
fn a_stdlib_with_too_much_memory_is_refused() {
    let (kind, message) =
        store_failure(r#"(module (import "env" "memory" (memory 2049)))"#, SYMBOLS);
    assert_eq!(kind, ALLOCATE);
    assert!(message.starts_with("failed to allocate Wasm memory: "));
}

#[test]
fn a_stdlib_that_leaves_no_room_for_the_lexer_is_refused() {
    let text = STDLIB.replace("(memory 2)", "(memory 2048)");
    let (kind, message) = store_failure(&text, SYMBOLS);
    assert_eq!(kind, ALLOCATE);
    assert!(message.starts_with("failed to allocate Wasm memory: "));
}

#[test]
fn a_stdlib_with_an_unknown_import_is_refused() {
    let text = r#"(module (import "env" "memory" (memory 1)) (import "env" "nope" (func)))"#;
    assert_eq!(
        store_failure(text, SYMBOLS),
        (INSTANTIATE, "unexpected import in Wasm stdlib: nope\n".to_string())
    );
}

#[test]
fn a_stdlib_that_cannot_be_linked_is_refused() {
    let text = r#"(module (import "env" "memory" (memory 1)) (import "env" "abort" (global i32)))"#;
    let (kind, message) = store_failure(text, SYMBOLS);
    assert_eq!(kind, INSTANTIATE);
    assert!(message.starts_with("failed to instantiate Wasm stdlib module: "));
}

#[test]
fn a_stdlib_whose_initializer_traps_is_refused() {
    let text = STDLIB.replace("(i32.store (i32.const 20) (i32.const 77))", "(call $abort)");
    let (kind, message) = store_failure(&text, SYMBOLS);
    assert_eq!(kind, INSTANTIATE);
    assert!(message.starts_with("trap when calling stdlib relocation function: "));
    assert!(message.ends_with('\n'));
}

#[test]
fn a_stdlib_without_reset_is_refused() {
    let text = STDLIB.replace("\"reset_heap\"", "\"other\"");
    assert_eq!(
        store_failure(&text, SYMBOLS),
        (INSTANTIATE, "missing malloc reset function in Wasm stdlib".to_string())
    );
}

#[test]
fn a_stdlib_without_a_listed_symbol_is_refused() {
    assert_eq!(
        store_failure(STDLIB, "\"malloc\",\n\"calloc\",\n\"realloc\"\n"),
        (INSTANTIATE, "missing exported symbol in Wasm stdlib: calloc".to_string())
    );
}

#[test]
fn a_symbol_that_is_listed_twice_is_missing() {
    assert_eq!(
        store_failure(STDLIB, "free\nfree"),
        (INSTANTIATE, "missing exported symbol in Wasm stdlib: free".to_string())
    );
}

#[test]
fn a_language_is_copied_out() {
    let mut store = new_store();
    let bytes = grammar(&store);
    let loaded = ts_wasm_store_load_language(&mut store, "demo", &bytes).expect("a language");
    let language = &loaded.language;
    assert_eq!(loaded.name, "demo");
    assert_eq!(loaded.dylink_info.memory_size, 230);
    assert_eq!(loaded.dylink_info.table_size, TABLE_SIZE);
    assert!(ts_language_is_wasm(language));
    assert!(language.lex_fn == Some(LexFn::Sentinel));
    assert!(language.keyword_lex_fn.is_none());
    assert_eq!(language.abi_version, 15);
    assert_eq!(language.symbol_count, 2);
    assert_eq!(language.parse_table.as_deref(), Some(&[1, 0, 2, 0][..]));
    assert_eq!(language.parse_actions.as_deref(), Some(&[9, 8, 7, 6, 5, 4, 3, 2][..]));
    assert_eq!(language.symbol_metadata.as_deref(), Some(&[1, 1, 0, 0, 1, 0][..]));
    assert_eq!(language.public_symbol_map.as_deref(), Some(&[0, 0, 1, 0][..]));
    assert_eq!(language.lex_modes.as_deref(), Some(&[5, 0, 6, 0, 0, 0][..]));
    assert_eq!(language.primary_state_ids.as_deref(), Some(&[3, 0][..]));
    assert_eq!(language.name.as_deref(), Some(&b"demo\0"[..]));
    assert_eq!(language.external_scanner.symbol_map.as_deref(), Some(&[7, 0][..]));
    assert_eq!(language.external_scanner.states, (BASE + 208) as i32);
    let names = language.symbol_names.as_ref().expect("names");
    assert_eq!(names.array, [Some(0), None]);
    assert_eq!(names.scratch, b"end\0");
    assert!(language.small_parse_table.is_none());
    assert!(language.reserved_words.is_none());
    assert!(language.field_names.is_none());
    assert_eq!(language.metadata.minor_version, 2);
    assert_eq!(ts_wasm_store_language_count(&store), 1);
    assert_eq!(store.current_memory_offset, BASE + 230);
    assert_eq!(store.current_function_table_offset, TABLE_BASE + TABLE_SIZE);
    assert_eq!(store.instances[0].external_states_address, (BASE + 208) as i32);
    assert!(store.instances[0].lex_main_fn.is_some());
}

#[test]
fn two_languages_are_placed_one_behind_the_other() {
    let mut store = new_store();
    let first = load(&mut store);
    let second = load(&mut store);
    assert_eq!(first.language.external_scanner.states, (BASE + 208) as i32);
    assert_eq!(second.language.external_scanner.states, (BASE + 230 + 208) as i32);
    assert_eq!(ts_wasm_store_language_count(&store), 2);
    assert_eq!(store.current_memory_offset, BASE + 460);
    assert_eq!(store.current_function_table_offset, TABLE_BASE + 2 * TABLE_SIZE);
}

#[test]
fn a_module_without_dylink_section_is_refused() {
    let mut store = new_store();
    assert_eq!(
        load_failure(&mut store, "demo", &wasm("(module)")),
        (PARSE, "failed to parse dylink section of Wasm module".to_string())
    );
}

#[test]
fn a_module_that_does_not_compile_is_refused() {
    let mut store = new_store();
    let mut bytes = with_dylink(&wasm("(module)"), 0, 0);
    bytes.push(99);
    let (kind, message) = load_failure(&mut store, "demo", &bytes);
    assert_eq!(kind, COMPILE);
    assert!(message.starts_with("error compiling Wasm module: "));
}

#[test]
fn a_module_with_too_large_a_table_is_refused() {
    let mut store = new_store();
    let bytes = with_dylink(&wasm("(module)"), 0, u32::MAX);
    assert_eq!(
        load_failure(&mut store, "demo", &bytes),
        (INSTANTIATE, "invalid function table size 4294967295".to_string())
    );
}

#[test]
fn a_module_with_too_much_memory_is_refused() {
    let mut store = new_store();
    for size in [128 * 1024 * 1024, u32::MAX] {
        let bytes = with_dylink(&wasm("(module)"), size, 1);
        assert_eq!(
            load_failure(&mut store, "demo", &bytes),
            (INSTANTIATE, format!("invalid memory size {size}"))
        );
    }
    assert_eq!(store.table.size(&store.store), 8);
}

#[test]
fn memory_grows_for_a_module() {
    let mut store = new_store();
    let image = language_image(15, BASE, TABLE_BASE);
    let bytes = with_dylink(&wasm(&grammar_text(&image, "", "")), 3 * 65536, TABLE_SIZE);
    assert!(ts_wasm_store_load_language(&mut store, "demo", &bytes).is_ok());
    assert_eq!(store.memory.size(&store.store), 6);
    assert_eq!(store.current_memory_offset, BASE + 3 * 65536);
}

#[test]
fn imports_must_be_known() {
    let mut store = new_store();
    let unknown = with_dylink(&wasm(r#"(module (import "env" "strlen" (func)))"#), 0, 0);
    assert_eq!(
        load_failure(&mut store, "demo", &unknown),
        (INSTANTIATE, "invalid import 'strlen'\n".to_string())
    );
    let unnamed = with_dylink(&wasm(r#"(module (import "env" "" (func)))"#), 0, 0);
    assert_eq!(
        load_failure(&mut store, "demo", &unnamed),
        (INSTANTIATE, "empty import name".to_string())
    );
}

#[test]
fn every_builtin_can_be_imported() {
    let mut store = new_store();
    let imports = r#"
      (import "env" "__stack_pointer" (global (mut i32)))
      (import "env" "__assert_fail" (func (param i32 i32 i32 i32)))
      (import "env" "__cxa_atexit" (func (param i32 i32 i32) (result i32)))
      (import "env" "args_get" (func (param i32 i32) (result i32)))
      (import "env" "args_sizes_get" (func (param i32 i32) (result i32)))
      (import "env" "abort" (func))
      (import "env" "proc_exit" (func (param i32)))
      (import "env" "emscripten_notify_memory_growth" (func (param i32)))
      (import "env" "free" (func (param i32)))
    "#;
    let image = language_image(15, BASE, TABLE_BASE);
    let bytes = with_dylink(&wasm(&grammar_text(&image, imports, "")), 230, TABLE_SIZE);
    assert!(ts_wasm_store_load_language(&mut store, "demo", &bytes).is_ok());
}

#[test]
fn a_module_that_cannot_be_linked_is_refused() {
    let mut store = new_store();
    let bytes = with_dylink(&wasm(r#"(module (import "env" "abort" (global i32)))"#), 0, 0);
    let (kind, message) = load_failure(&mut store, "demo", &bytes);
    assert_eq!(kind, INSTANTIATE);
    assert!(message.starts_with("error instantiating Wasm module: "));
    assert!(message.ends_with('\n'));
}

#[test]
fn initializers_run_before_the_language_function() {
    let mut store = new_store();
    let image = language_image(15, BASE, TABLE_BASE);
    let extra = r#"
      (func (export "__wasm_apply_data_relocs")
        (i32.store (i32.const 60) (i32.add (i32.load (i32.const 60)) (i32.const 1))))
      (func (export "__wasm_call_ctors")
        (i32.store (i32.const 60) (i32.mul (i32.load (i32.const 60)) (i32.const 10))))
    "#;
    let bytes = with_dylink(&wasm(&grammar_text(&image, "", extra)), 230, TABLE_SIZE);
    assert!(ts_wasm_store_load_language(&mut store, "demo", &bytes).is_ok());
    assert_eq!(word(&store, 60), 10);
}

#[test]
fn an_initializer_that_traps_is_reported() {
    let mut store = new_store();
    let bytes = with_dylink(
        &wasm(r#"(module (func (export "_initialize") unreachable))"#),
        8,
        1,
    );
    let (kind, message) = load_failure(&mut store, "demo", &bytes);
    assert_eq!(kind, INSTANTIATE);
    assert!(message.starts_with("trap when calling data relocation function: "));
    assert!(message.ends_with('\n'));
}

#[test]
fn the_language_function_must_exist_and_return_an_integer() {
    let mut store = new_store();
    assert_eq!(
        load_failure(&mut store, "demo", &with_dylink(&wasm("(module)"), 8, 1)),
        (INSTANTIATE, "module did not contain language function: tree_sitter_demo".to_string())
    );
    let bytes = with_dylink(
        &wasm(r#"(module (func (export "tree_sitter_demo") (result i64) (i64.const 1)))"#),
        8,
        1,
    );
    assert_eq!(
        load_failure(&mut store, "demo", &bytes),
        (
            INSTANTIATE,
            "language function did not return an integer: tree_sitter_demo\n".to_string()
        )
    );
    let bytes = with_dylink(
        &wasm(r#"(module (func (export "tree_sitter_demo") (result i32) unreachable))"#),
        8,
        1,
    );
    let (kind, message) = load_failure(&mut store, "demo", &bytes);
    assert_eq!(kind, INSTANTIATE);
    assert!(message.starts_with("trapped when calling language function: tree_sitter_demo: "));
    assert!(message.ends_with('\n'));
}

#[test]
fn a_language_outside_of_memory_is_refused() {
    let mut store = new_store();
    let bytes = with_dylink(
        &wasm(r#"(module (func (export "tree_sitter_demo") (result i32) (i32.const -1)))"#),
        0,
        0,
    );
    assert_eq!(
        load_failure(&mut store, "demo", &bytes),
        (INSTANTIATE, "invalid language memory address".to_string())
    );
}

#[test]
fn an_incompatible_language_is_refused() {
    let mut store = new_store();
    let image = language_image(12, BASE, TABLE_BASE);
    let bytes = with_dylink(&wasm(&grammar_text(&image, "", "")), 230, TABLE_SIZE);
    assert_eq!(
        load_failure(&mut store, "demo", &bytes),
        (
            INSTANTIATE,
            "incompatible language ABI version 12; expected between 13 and 15".to_string()
        )
    );
}

#[test]
fn a_name_with_a_nul_is_refused() {
    let mut store = new_store();
    let image = language_image(15, BASE, TABLE_BASE);
    let text = grammar_text(&image, "", "").replace("tree_sitter_demo", "tree_sitter_de\\00mo");
    let bytes = with_dylink(&wasm(&text), 230, TABLE_SIZE);
    assert_eq!(
        load_failure(&mut store, "de\0mo", &bytes),
        (INSTANTIATE, "invalid language name: embedded NUL byte".to_string())
    );
}

#[test]
fn failures_are_told_in_their_order() {
    let mut store = new_store();
    let image = language_image(12, BASE, TABLE_BASE + 1);
    let text = grammar_text(&image, "", "").replace("tree_sitter_demo", "tree_sitter_de\\00mo");
    let bytes = with_dylink(&wasm(&text), 230, TABLE_SIZE);
    let (_, message) = load_failure(&mut store, "de\0mo", &bytes);
    assert_eq!(message, "incompatible language ABI version 12; expected between 13 and 15");
    let mut store = new_store();
    let image = language_image(15, BASE, TABLE_BASE + 1);
    let text = grammar_text(&image, "", "").replace("tree_sitter_demo", "tree_sitter_de\\00mo");
    let bytes = with_dylink(&wasm(&text), 230, TABLE_SIZE);
    let (_, message) = load_failure(&mut store, "de\0mo", &bytes);
    assert_eq!(message, "invalid language name: embedded NUL byte");
    let mut store = new_store();
    let bytes = with_dylink(&wasm(r#"(module (import "env" "nope" (func)))"#), 70000, 4);
    let (_, message) = load_failure(&mut store, "demo", &bytes);
    assert_eq!(message, "invalid import 'nope'\n");
    assert_eq!(store.table.size(&store.store), TABLE_BASE as u64 + 4);
    assert_eq!(store.memory.size(&store.store), 4);
}

#[test]
fn a_language_with_functions_outside_of_the_table_is_refused() {
    let mut store = new_store();
    let image = language_image(15, BASE, TABLE_BASE + 1);
    let bytes = with_dylink(&wasm(&grammar_text(&image, "", "")), 230, TABLE_SIZE);
    assert_eq!(
        load_failure(&mut store, "demo", &bytes),
        (INSTANTIATE, "invalid function table entry 13".to_string())
    );
    assert_eq!(ts_wasm_store_language_count(&store), 0);
}

#[test]
fn a_failed_load_leaves_the_records_alone() {
    let mut store = new_store();
    let deleted = load(&mut store);
    let kept = load(&mut store);
    assert!(ts_wasm_language_release(&deleted));
    let count = ts_wasm_store_language_count(&store);
    assert_eq!(count, 1);
    load_failure(&mut store, "demo", &wasm("(module)"));
    load_failure(&mut store, "demo", &with_dylink(&wasm("(module)"), 8, 1));
    let (base, table_base) = (store.current_memory_offset, store.table.size(&store.store));
    let image = language_image(15, base, table_base as u32 + 100);
    let bytes = with_dylink(&wasm(&grammar_text(&image, "", "")), 230, TABLE_SIZE);
    let (_, message) = load_failure(&mut store, "demo", &bytes);
    assert!(message.starts_with("invalid function table entry "));
    assert_eq!(store.instances.len(), 2);
    assert!(Arc::ptr_eq(&store.instances[0].language_id, &deleted.language_id));
    assert!(Arc::ptr_eq(&store.instances[1].language_id, &kept.language_id));
    assert_eq!(ts_wasm_store_language_count(&store), count);
}

#[test]
fn a_loaded_language_has_one_reference_and_an_identity_of_its_own() {
    let mut store = new_store();
    let first = load(&mut store);
    assert_eq!(ts_wasm_store_language_count(&store), 1);
    let second = load(&mut store);
    assert_eq!(ts_wasm_store_language_count(&store), 2);
    assert!(!Arc::ptr_eq(&first.language_id, &second.language_id));
    assert!(!first.language_id.is_deleted());
    assert!(Arc::ptr_eq(&store.instances[0].language_id, &first.language_id));
    assert!(Arc::ptr_eq(&store.instances[1].language_id, &second.language_id));
    assert!(ts_wasm_language_release(&first));
    assert!(store.instances[0].language_id.is_deleted());
    assert!(!store.instances[1].language_id.is_deleted());
    let third = load(&mut store);
    assert_eq!(store.instances.len(), 2);
    assert!(Arc::ptr_eq(&store.instances[1].language_id, &third.language_id));
    assert_eq!(ts_wasm_store_language_count(&store), 2);
}

#[test]
fn a_language_is_added_once() {
    let mut first = new_store();
    let language = load(&mut first);
    let mut second =
        ts_wasm_store_new(first.engine.clone(), &wasm(STDLIB), SYMBOLS).expect("a store");
    assert_eq!(add_language(&mut second, &language), Some(0));
    let offsets = (second.current_memory_offset, second.current_function_table_offset);
    assert_eq!(add_language(&mut second, &language), Some(0));
    assert_eq!(second.instances.len(), 1);
    assert!(Arc::ptr_eq(&second.instances[0].language_id, &language.language_id));
    assert_eq!(
        (second.current_memory_offset, second.current_function_table_offset),
        offsets
    );
    assert!(ts_wasm_language_release(&language));
    assert!(first.instances[0].language_id.is_deleted());
    assert!(second.instances[0].language_id.is_deleted());
}

#[test]
fn each_module_gets_new_constants() {
    let mut store = new_store();
    let mut globals: Vec<wasmtime::Global> = Vec::new();
    for _ in 0..2 {
        match provide_builtin_import(&mut store, "__memory_base") {
            Some(Import::Global(global)) => globals.push(global),
            _ => panic!("no global"),
        }
    }
    assert_eq!(globals[0].get(&mut store.store).i32(), Some(BASE as i32));
    assert_eq!(globals[1].get(&mut store.store).i32(), Some(BASE as i32));
    assert!(globals[0].ty(&store.store).mutability() == wasmtime::Mutability::Const);
    assert_ne!(format!("{:?}", globals[0]), format!("{:?}", globals[1]));
}

#[test]
fn a_failed_load_leaves_the_store_usable() {
    let mut store = new_store();
    load_failure(&mut store, "demo", &with_dylink(&wasm("(module)"), 8, 1));
    let language = load(&mut store);
    let (lexer, _) = lexer(1);
    assert!(ts_wasm_store_start(&mut store, lexer, &language));
    assert!(ts_wasm_store_call_lex_main(&mut store, 3));
}

#[test]
fn starting_resets_the_heap_behind_the_serialization_buffer() {
    let (mut store, _, _) = parsing();
    assert_eq!(store.instances.len(), 1);
    assert_eq!(store.current_instance, Some(0));
    let given = LexerData { lookahead: 97, result_symbol: 0, padding: 0x5566 };
    assert_eq!(lexer_data(&mut store), Some(given));
    assert_eq!(word(&store, 16), BASE + 230 + 1024);
    assert_eq!(word(&store, 24), 1);
    assert!(!ts_wasm_store_has_error(&store));
}

#[test]
fn resetting_ends_parsing() {
    let (mut store, _, _) = parsing();
    store.has_error = true;
    ts_wasm_store_reset(&mut store);
    assert_eq!(store.current_instance, None);
    assert!(!ts_wasm_store_has_error(&store));
    assert_eq!(word(&store, 24), 2);
    assert_eq!(lexer_data(&mut store), None);
    ts_wasm_store_call_scanner_destroy(&mut store, 0);
    assert!(!ts_wasm_store_has_error(&store));
}

#[test]
fn lexing_shares_the_data_prefix() {
    let (mut store, _, log) = parsing();
    assert!(ts_wasm_store_call_lex_main(&mut store, 300));
    assert_eq!(*log.lock().unwrap(), ["advance 97 true"]);
    let expected = LexerData { lookahead: 98, result_symbol: 300, padding: 0x5566 };
    assert_eq!(lexer_data(&mut store), Some(expected));
    assert_eq!(memory(&store, store.lexer_address(), 8), [98, 0, 0, 0, 44, 1, 0x66, 0x55]);
    set_lexer_data(&mut store, LexerData { lookahead: -5, result_symbol: 1, padding: 0 });
    assert!(ts_wasm_store_call_lex_main(&mut store, 2));
    let expected = LexerData { lookahead: -4, result_symbol: 2, padding: 0 };
    assert_eq!(lexer_data(&mut store), Some(expected));
}

#[test]
fn keyword_lexing_asks_the_lexer() {
    let (mut store, _, log) = parsing();
    assert!(!ts_wasm_store_call_lex_keyword(&mut store, 1));
    assert!(!ts_wasm_store_has_error(&store));
    assert_eq!(
        *log.lock().unwrap(),
        ["get_column", "is_at_included_range_start", "eof", "mark_end"]
    );
    assert_eq!([word(&store, 32), word(&store, 36), word(&store, 40)], [42, 1, 0]);
    let untouched = LexerData { lookahead: 97, result_symbol: 0, padding: 0x5566 };
    assert_eq!(lexer_data(&mut store), Some(untouched));
}

#[test]
fn scanners_are_created_and_destroyed() {
    let (mut store, _, _) = parsing();
    assert_eq!(ts_wasm_store_call_scanner_create(&mut store), 4096);
    ts_wasm_store_call_scanner_destroy(&mut store, 4096);
    assert_eq!(word(&store, 44), 4096);
    assert!(!ts_wasm_store_has_error(&store));
}

#[test]
fn scanning_uses_the_table_of_valid_tokens() {
    let (mut store, _, _) = parsing();
    assert!(ts_wasm_store_call_scanner_scan(&mut store, 4096, 0));
    assert!(!ts_wasm_store_call_scanner_scan(&mut store, 4096, 1));
    assert!(!ts_wasm_store_has_error(&store));
}

#[test]
fn a_trap_sets_the_error_which_stays() {
    let (mut store, _, _) = parsing();
    assert!(!ts_wasm_store_call_scanner_scan(&mut store, 0, 0));
    assert!(ts_wasm_store_has_error(&store));
    assert!(!ts_wasm_store_call_scanner_scan(&mut store, 4096, 0));
    assert_eq!(ts_wasm_store_call_scanner_create(&mut store), 0);
    let mut buffer = [1u8; 1024];
    assert_eq!(ts_wasm_store_call_scanner_serialize(&mut store, 4, &mut buffer), 0);
    assert_eq!(buffer, [1u8; 1024]);
    assert!(ts_wasm_store_has_error(&store));
    ts_wasm_store_reset(&mut store);
    assert!(!ts_wasm_store_has_error(&store));
}

#[test]
fn serialization_is_copied_up_to_its_length() {
    let (mut store, _, _) = parsing();
    let mut buffer = [1u8; 1030];
    assert_eq!(ts_wasm_store_call_scanner_serialize(&mut store, 3, &mut buffer), 3);
    assert_eq!(buffer[..5], [170, 170, 170, 1, 1]);
    assert_eq!(ts_wasm_store_call_scanner_serialize(&mut store, 1024, &mut buffer), 1024);
    assert_eq!(buffer[1022..], [170, 170, 1, 1, 1, 1, 1, 1]);
    assert!(!ts_wasm_store_has_error(&store));
}

#[test]
fn too_long_a_serialization_is_an_error() {
    let (mut store, _, _) = parsing();
    let mut buffer = [1u8; 1024];
    assert_eq!(ts_wasm_store_call_scanner_serialize(&mut store, 1025, &mut buffer), 0);
    assert_eq!(buffer, [1u8; 1024]);
    assert!(ts_wasm_store_has_error(&store));
}

#[test]
fn deserialization_hands_bytes_over() {
    let (mut store, _, _) = parsing();
    ts_wasm_store_call_scanner_deserialize(&mut store, 4096, &[9, 8, 7]);
    assert!(!ts_wasm_store_has_error(&store));
    assert_eq!(word(&store, 48), store.current_memory_offset);
    assert_eq!(word(&store, 52), 3);
    assert_eq!(word(&store, 56), 9);
    assert_eq!(memory(&store, store.current_memory_offset, 3), [9, 8, 7]);
    ts_wasm_store_call_scanner_deserialize(&mut store, 4096, &[]);
    assert_eq!(word(&store, 52), 0);
}

#[test]
fn debug_messages_are_queued() {
    let mut store = new_store();
    let image = language_image(15, BASE, TABLE_BASE);
    let extra = r#"
      (func (export "_initialize")
        (call $debug (i32.add (global.get $memory_base) (i32.const 220)) (i32.const -1))
        (call $debug (i32.const -1) (i32.const 7)))
    "#;
    let bytes = with_dylink(&wasm(&grammar_text(&image, "", extra)), 230, TABLE_SIZE);
    assert!(ts_wasm_store_load_language(&mut store, "demo", &bytes).is_ok());
    assert_eq!(take_debug_messages(&mut store), ["DEBUG: demo 4294967295", "DEBUG:  7"]);
    assert!(take_debug_messages(&mut store).is_empty());
}

#[test]
fn aborting_ends_the_call() {
    let mut store = new_store();
    let bytes = with_dylink(
        &wasm(
            r#"(module
                 (import "env" "abort" (func $abort))
                 (func (export "tree_sitter_demo") (result i32) (call $abort) (i32.const 0)))"#,
        ),
        0,
        0,
    );
    let (kind, message) = load_failure(&mut store, "demo", &bytes);
    assert_eq!(kind, INSTANTIATE);
    assert!(message.starts_with("trapped when calling language function: tree_sitter_demo: "));
}

#[test]
fn functions_that_do_nothing_return_their_first_argument() {
    let mut store = new_store();
    let image = language_image(15, BASE, TABLE_BASE);
    let imports = r#"
      (import "env" "args_get" (func $args_get (param i32 i32) (result i32)))
      (import "env" "__cxa_atexit" (func $atexit (param i32 i32 i32) (result i32)))
      (import "env" "emscripten_notify_memory_growth" (func $growth (param i32)))
    "#;
    let extra = r#"
      (func (export "_initialize")
        (call $growth (i32.const 1))
        (i32.store (i32.const 60) (call $args_get (i32.const 11) (i32.const 12)))
        (i32.store (i32.const 64) (call $atexit (i32.const 13) (i32.const 14) (i32.const 15))))
    "#;
    let bytes = with_dylink(&wasm(&grammar_text(&image, imports, extra)), 230, TABLE_SIZE);
    assert!(ts_wasm_store_load_language(&mut store, "demo", &bytes).is_ok());
    assert_eq!([word(&store, 60), word(&store, 64)], [11, 13]);
}

#[test]
fn lexing_without_a_lexer_traps() {
    let mut store = new_store();
    let image = language_image(15, BASE, TABLE_BASE);
    let extra = r#"
      (func (export "_initialize")
        (call_indirect (type $advance) (i32.const 0) (i32.const 0) (i32.const 1)))
    "#;
    let bytes = with_dylink(&wasm(&grammar_text(&image, "", extra)), 230, TABLE_SIZE);
    let (kind, message) = load_failure(&mut store, "demo", &bytes);
    assert_eq!(kind, INSTANTIATE);
    assert!(message.starts_with("trap when calling data relocation function: "));
}

#[test]
fn a_language_is_used_in_another_store() {
    let mut first = new_store();
    let language = load(&mut first);
    let mut second =
        ts_wasm_store_new(first.engine.clone(), &wasm(STDLIB), SYMBOLS).expect("a store");
    let (lexer_one, _) = lexer(97);
    assert!(ts_wasm_store_start(&mut second, lexer_one, &language));
    assert_eq!(second.instances.len(), 1);
    assert_eq!(second.current_memory_offset, BASE + 230);
    assert!(ts_wasm_store_call_lex_main(&mut second, 1));
    let (lexer_two, _) = lexer(98);
    assert!(ts_wasm_store_start(&mut second, lexer_two, &language));
    assert_eq!(second.instances.len(), 1);
    assert_eq!(second.current_memory_offset, BASE + 230);
}

#[test]
fn a_language_that_cannot_be_used_is_not_started() {
    let mut first = new_store();
    let language = load(&mut first);
    let mut second = new_store();
    let (lexer, _) = lexer(97);
    assert!(!ts_wasm_store_start(&mut second, lexer, &language));
    assert_eq!(second.current_memory_offset, BASE);
    assert_eq!(second.current_function_table_offset, TABLE_BASE);
    assert_eq!(second.current_instance, None);
    assert_eq!(word(&second, 24), 0);
}

#[test]
fn a_language_of_another_engine_is_not_started() {
    let mut first = new_store();
    let language = load(&mut first);
    let engine = engine();
    // The engine has numbered many function types before those of the store.
    let types: String = (1..60)
        .map(|count| format!("(func (export \"f{count}\") (param {}))", "i64 ".repeat(count)))
        .collect();
    let crowd = wasmtime::Module::new(&engine, wasm(&format!("(module {types})"))).unwrap();
    let mut second = ts_wasm_store_new(engine, &wasm(STDLIB), SYMBOLS).expect("a store");
    let (lexer, _) = lexer(97);
    assert!(!ts_wasm_store_start(&mut second, lexer, &language));
    assert_eq!(second.instances.len(), 0);
    assert_eq!(second.current_instance, None);
    assert_eq!(second.current_memory_offset, BASE);
    assert_eq!(crowd.exports().len(), 59);
    match instantiate(&mut second, &language.module, "demo", &language.dylink_info) {
        Ok(_) => panic!("a module was instantiated"),
        Err((kind, message)) => {
            assert_eq!(kind, INSTANTIATE);
            assert_eq!(
                message,
                "error instantiating Wasm module: \
                 cross-`Engine` instantiation is not currently supported\n"
            );
        }
    }
}

#[test]
fn the_current_language_moves_with_its_record() {
    let mut store = new_store();
    let first = load(&mut store);
    let second = load(&mut store);
    let (lexer, log) = lexer(97);
    assert!(ts_wasm_store_start(&mut store, lexer, &second));
    assert_eq!(store.current_instance, Some(1));
    assert!(ts_wasm_language_release(&first));
    let third = load(&mut store);
    assert_eq!(store.instances.len(), 2);
    assert_eq!(store.current_instance, Some(0));
    assert!(Arc::ptr_eq(&store.current_instance().language_id, &second.language_id));
    assert!(ts_wasm_store_call_lex_main(&mut store, 5));
    assert_eq!(*log.lock().unwrap(), ["advance 97 true"]);
    assert!(ts_wasm_language_release(&second));
    load(&mut store);
    assert_eq!(store.instances.len(), 2);
    assert_eq!(store.current_instance, None);
    assert!(Arc::ptr_eq(&store.instances[0].language_id, &third.language_id));
}

#[test]
fn the_last_release_drops_a_language() {
    let mut store = new_store();
    let count = ts_wasm_store_language_count(&store);
    let language = load(&mut store);
    for _ in 0..3 {
        ts_wasm_language_retain(&language);
    }
    for _ in 0..3 {
        assert!(!ts_wasm_language_release(&language));
        assert!(!language.language_id.is_deleted());
        assert_eq!(ts_wasm_store_language_count(&store), count + 1);
    }
    assert!(ts_wasm_language_release(&language));
    assert!(language.language_id.is_deleted());
    assert_eq!(ts_wasm_store_language_count(&store), count);
    assert_eq!(store.instances.len(), 1);
}

#[test]
fn released_languages_are_collected() {
    let mut store = new_store();
    let first = load(&mut store);
    let second = load(&mut store);
    ts_wasm_language_retain(&first);
    assert!(!ts_wasm_language_release(&first));
    assert_eq!(ts_wasm_store_language_count(&store), 2);
    assert!(ts_wasm_language_release(&first));
    assert!(first.language_id.is_deleted());
    assert_eq!(ts_wasm_store_language_count(&store), 1);
    assert_eq!(store.instances.len(), 2);
    let (lexer, _) = lexer(97);
    assert!(ts_wasm_store_start(&mut store, lexer, &second));
    assert_eq!(store.instances.len(), 1);
    assert_eq!(store.current_instance, Some(0));
}

#[test]
fn the_sentinel_finds_nothing() {
    let (mut lexer, _) = lexer(97);
    assert!(!ts_wasm_store__sentinel_lex_fn(&mut lexer, 1));
    assert_eq!(lexer.data.lookahead, 97);
}

#[test]
fn failures_are_handed_out_with_a_nul() {
    assert_eq!(error_bytes("no"), [b'n', b'o', 0]);
}
