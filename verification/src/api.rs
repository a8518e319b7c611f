//! The interface of the store, under the names that it has in C.

use vstd::prelude::*;
use vstd::utf8::encode_utf8;

use crate::callbacks::state_kept;
use crate::calls::{
    call_lex_function, call_scanner_create, call_scanner_deserialize, call_scanner_destroy,
    call_scanner_scan, call_scanner_serialize, deserialize_call, destruction_ended, heap_reset,
    integer_call, lexed, lexer_call, only_ran, prefix_shared, reset_heap, scanned,
    scanner_created, scanner_deserialized, scanner_destroyed, scanner_serialized, serialize_call,
    with_lexer_data, LexFunction,
};
use crate::engine::{call_made, running_keeps_the_store_usable, State, StoreInner};
use crate::error::WasmResult;
use crate::language::{CLanguage, LexFn};
use crate::language_id::{
    can_count_down, can_count_up, count_down, count_up, counted_up, was_last_reference,
};
use crate::lexer::{CLexer, LexerData};
use crate::load::{
    add_language, language_loaded, language_used, load_failed, load_language, load_refused,
    WasmLanguage,
};
use crate::memory::SERIALIZATION_BUFFER_SIZE;
use crate::records::{are_findings, collected, count_languages, languages_counted, unmarked};
use crate::runtime::store_data_mut;
use crate::setup::{store_made, store_new, store_refused, StoreFailure};

verus! {

/// Whether bytes are the text of a failure as C takes it.
pub open spec fn is_c_text(message: Seq<char>, bytes: Seq<u8>) -> bool {
    bytes == encode_utf8(message).push(0)
}

/// The text of a failure as C takes it: its bytes, and a NUL.
pub fn error_bytes(message: &str) -> (bytes: Vec<u8>)
    ensures
        bytes@ == encode_utf8(message@).push(0),
        is_c_text(message@, bytes@),
{
    let text = message.as_bytes();
    let mut bytes = vstd::slice::slice_to_vec(text);
    bytes.push(0);
    bytes
}

/// Makes a store, from the bytes of the stdlib module and the list of the
/// symbols that it exports.
pub fn ts_wasm_store_new(engine: wasmtime::Engine, stdlib_wasm: &[u8], imports: &str) -> (result:
    Result<StoreInner, StoreFailure>)
    ensures
        match result {
            Ok(inner) => store_made(inner, stdlib_wasm@, imports@) && inner.engine == engine,
            Err(failure) => store_refused(stdlib_wasm@, imports@, failure),
        },
{
    store_new(engine, stdlib_wasm, imports)
}

/// Loads a language into a store, which is left alone where that fails, but for
/// what ran in it.
pub fn ts_wasm_store_load_language(store: &mut StoreInner, name: &str, wasm: &[u8]) -> (result:
    WasmResult<WasmLanguage>)
    requires
        old(store).wf(),
    ensures
        final(store).wf(),
        match result {
            Ok(language) => language_loaded(*old(store), name@, wasm@, *final(store), language),
            Err(failure) => {
                &&& *final(store) == (StoreInner { store: final(store).store, ..*old(store) })
                &&& load_refused(*old(store), name@, wasm@, final(store).held(), failure)
                &&& load_failed(*old(store), name@, wasm@, *final(store), failure)
            },
        },
{
    load_language(store, name, wasm)
}

/// How many languages there are in a store that are not found deleted.
pub fn ts_wasm_store_language_count(store: &StoreInner) -> (count: usize)
    ensures
        exists|deleted: Seq<bool>|
            are_findings(store.instances@, deleted) && count == #[trigger] unmarked(deleted),
        languages_counted(store.instances@, count),
{
    count_languages(store)
}

/// Whether a language counts as backed by a Wasm module.
pub open spec fn counts_as_wasm(language: CLanguage) -> bool {
    language.lex_fn == Some(LexFn::Sentinel)
}

/// Whether a language is backed by a Wasm module.
pub fn ts_language_is_wasm(language: &CLanguage) -> (yes: bool)
    ensures
        yes == (language.lex_fn == Some(LexFn::Sentinel)),
        yes == counts_as_wasm(*language),
{
    match language.lex_fn {
        Some(LexFn::Sentinel) => true,
        _ => false,
    }
}

/// Whether the lex function that marks a language as backed by a Wasm module ran.
pub open spec fn sentinel_ran(before: CLexer, after: CLexer, found: bool) -> bool {
    !found && after == before
}

/// The lex function that marks a language as backed by a Wasm module. It finds
/// nothing.
#[allow(non_snake_case)]
pub fn ts_wasm_store__sentinel_lex_fn(_lexer: &mut CLexer, _state: u16) -> (found: bool)
    ensures
        !found,
        *final(_lexer) == *old(_lexer),
        sentinel_ran(*old(_lexer), *final(_lexer), found),
{
    false
}

/// Whether a store was readied for parsing with the language of `index`, where
/// there is one, and with `lexer`.
pub open spec fn parsing_started(
    added: StoreInner,
    lexer: Option<CLexer>,
    index: Option<usize>,
    after: StoreInner,
) -> bool {
    exists|ready: StoreInner|
        {
            &&& ready == (StoreInner {
                store: ready.store,
                current_instance: index,
                has_error: false,
                ..added
            })
            &&& ready.held() == added.held().with_state(
                State { current_lexer: lexer, ..added.held().state },
            )
            &&& #[trigger] heap_reset(ready, after)
        }
}

/// Readies a store for parsing with the language of `index`, where there is
/// one, and with `lexer`.
fn start_parsing(store: &mut StoreInner, lexer: Option<CLexer>, index: Option<usize>)
    requires
        old(store).wf(),
        index matches Some(index) ==> index < old(store).instances@.len(),
    ensures
        final(store).wf(),
        parsing_started(*old(store), lexer, index, *final(store)),
        final(store).held().state.current_lexer is Some == lexer is Some,
{
    store_data_mut(&mut store.store).current_lexer = lexer;
    proof {
        running_keeps_the_store_usable(*old(store), *store);
    }
    store.current_instance = index;
    store.has_error = false;
    reset_heap(store);
}

/// Whether starting to parse with a language succeeded, or its language could
/// not be used.
pub open spec fn start_ended(
    before: StoreInner,
    lexer: CLexer,
    language: WasmLanguage,
    after: StoreInner,
    started: bool,
) -> bool {
    exists|clean: StoreInner, added: StoreInner, index: Option<usize>|
        {
            &&& collected(before, clean)
            &&& #[trigger] language_used(clean, language, added, index)
            &&& started == index is Some
            &&& if started {
                parsing_started(added, Some(lexer), index, after)
            } else {
                after == added
            }
        }
}

/// Starts to parse with a language and a lexer: uses the language in the store,
/// forgets any error, and resets the scanner heap.
pub fn ts_wasm_store_start(store: &mut StoreInner, lexer: CLexer, language: &WasmLanguage) -> (
started: bool)
    requires
        old(store).wf(),
    ensures
        final(store).wf(),
        start_ended(*old(store), lexer, *language, *final(store), started),
        started ==> final(store).held().state.current_lexer is Some,
        !started ==> state_kept(old(store).held().state, final(store).held().state),
{
    let index = add_language(store, language);
    let ghost added = *store;
    let ghost clean = choose|clean: StoreInner|
        {
            &&& #[trigger] collected(*old(store), clean)
            &&& language_used(clean, *language, added, index)
        };
    assert(language_used(clean, *language, added, index));
    if index.is_none() {
        return false;
    }
    start_parsing(store, Some(lexer), index);
    true
}

/// Whether a store was made to stop parsing.
pub open spec fn parsing_stopped(before: StoreInner, after: StoreInner) -> bool {
    parsing_started(before, None, None, after)
}

/// Stops to parse: there is no language and no lexer any more. Forgets any
/// error, and resets the scanner heap.
pub fn ts_wasm_store_reset(store: &mut StoreInner)
    requires
        old(store).wf(),
    ensures
        final(store).wf(),
        parsing_started(*old(store), None, None, *final(store)),
        parsing_stopped(*old(store), *final(store)),
        final(store).held().state.current_lexer is None,
{
    start_parsing(store, None, None);
}

/// Whether a store reports that a call came to nothing.
pub open spec fn reports_error(store: StoreInner) -> bool {
    store.has_error
}

/// Whether a call came to nothing since parsing started.
pub fn ts_wasm_store_has_error(store: &StoreInner) -> (has_error: bool)
    ensures
        has_error == store.has_error,
        has_error == reports_error(*store),
{
    store.has_error
}

/// Whether the main lex function of the current language was called in a lex
/// state, and whether it found anything.
pub open spec fn lexed_main(
    before: StoreInner,
    state: u16,
    after: StoreInner,
    found: bool,
) -> bool {
    lexed(before, LexFunction::Main, state, after, found)
}

/// Whether the keyword lex function of the current language was called in a lex
/// state, and whether it found anything.
pub open spec fn lexed_keyword(
    before: StoreInner,
    state: u16,
    after: StoreInner,
    found: bool,
) -> bool {
    lexed(before, LexFunction::Keyword, state, after, found)
}

/// Lexes with the main lex function of the current language.
pub fn ts_wasm_store_call_lex_main(store: &mut StoreInner, state: u16) -> (found: bool)
    requires
        old(store).wf(),
        old(store).is_active(),
        old(store).active().lex_main_fn is Some,
    ensures
        final(store).wf(),
        only_ran(*old(store), *final(store)),
        state_kept(old(store).held().state, final(store).held().state),
        final(store).has_error ==> !found,
        !final(store).has_error ==> prefix_shared(*final(store)),
        lexer_call(
            *old(store),
            old(store).active().lex_main_fn->0,
            seq![old(store).lexer_address as i32, state as i32],
            *final(store),
            found,
        ),
        lexed(*old(store), LexFunction::Main, state, *final(store), found),
        lexed_main(*old(store), state, *final(store), found),
{
    call_lex_function(store, LexFunction::Main, state)
}

/// Lexes with the keyword lex function of the current language.
pub fn ts_wasm_store_call_lex_keyword(store: &mut StoreInner, state: u16) -> (found: bool)
    requires
        old(store).wf(),
        old(store).is_active(),
        old(store).active().lex_keyword_fn is Some,
    ensures
        final(store).wf(),
        only_ran(*old(store), *final(store)),
        state_kept(old(store).held().state, final(store).held().state),
        final(store).has_error ==> !found,
        !final(store).has_error ==> prefix_shared(*final(store)),
        lexer_call(
            *old(store),
            old(store).active().lex_keyword_fn->0,
            seq![old(store).lexer_address as i32, state as i32],
            *final(store),
            found,
        ),
        lexed(*old(store), LexFunction::Keyword, state, *final(store), found),
        lexed_keyword(*old(store), state, *final(store), found),
{
    call_lex_function(store, LexFunction::Keyword, state)
}

/// Creates an external scanner, and returns its address, or zero where that
/// failed.
pub fn ts_wasm_store_call_scanner_create(store: &mut StoreInner) -> (address: u32)
    requires
        old(store).wf(),
        old(store).is_active(),
        old(store).active().scanner_create_fn is Some,
    ensures
        final(store).wf(),
        only_ran(*old(store), *final(store)),
        exists|result: Option<i32>|
            #[trigger] integer_call(
                *old(store),
                old(store).active().scanner_create_fn->0,
                seq![],
                *final(store),
                result,
            ) && address == match result {
                Some(result) => result as u32,
                None => 0,
            },
        scanner_created(*old(store), *final(store), address),
{
    call_scanner_create(store)
}

/// Destroys an external scanner. Does nothing while there is no current
/// language.
pub fn ts_wasm_store_call_scanner_destroy(store: &mut StoreInner, scanner_address: u32)
    requires
        old(store).wf(),
        old(store).current_instance is Some ==> old(store).is_active()
            && old(store).active().scanner_destroy_fn is Some,
    ensures
        final(store).wf(),
        old(store).current_instance is None ==> *final(store) == *old(store),
        old(store).current_instance is Some ==> exists|values: Option<Seq<Option<i32>>>|
            #[trigger] call_made(
                *old(store),
                old(store).active().scanner_destroy_fn->0,
                seq![scanner_address as i32],
                0,
                *final(store),
                values,
            ),
        old(store).current_instance is Some ==> scanner_destroyed(
            *old(store),
            scanner_address,
            *final(store),
        ),
        destruction_ended(*old(store), scanner_address, *final(store)),
{
    call_scanner_destroy(store, scanner_address)
}

/// Scans with an external scanner.
pub fn ts_wasm_store_call_scanner_scan(
    store: &mut StoreInner,
    scanner_address: u32,
    valid_tokens_ix: u32,
) -> (found: bool)
    requires
        old(store).wf(),
        old(store).is_active(),
        old(store).active().scanner_scan_fn is Some,
    ensures
        final(store).wf(),
        only_ran(*old(store), *final(store)),
        state_kept(old(store).held().state, final(store).held().state),
        final(store).has_error ==> !found,
        !final(store).has_error ==> prefix_shared(*final(store)),
        lexer_call(
            *old(store),
            old(store).active().scanner_scan_fn->0,
            seq![
                scanner_address as i32,
                old(store).lexer_address as i32,
                old(store).active().external_states_address.wrapping_add(valid_tokens_ix as i32),
            ],
            *final(store),
            found,
        ),
        scanned(*old(store), scanner_address, valid_tokens_ix, *final(store), found),
{
    call_scanner_scan(store, scanner_address, valid_tokens_ix)
}

/// Serializes an external scanner into `buffer`, and returns how many bytes
/// that took.
pub fn ts_wasm_store_call_scanner_serialize(
    store: &mut StoreInner,
    scanner_address: u32,
    buffer: &mut [u8],
) -> (length: u32)
    requires
        old(store).wf(),
        old(store).is_active(),
        old(store).active().scanner_serialize_fn is Some,
        old(buffer)@.len() >= SERIALIZATION_BUFFER_SIZE,
    ensures
        final(store).wf(),
        only_ran(*old(store), *final(store)),
        length <= SERIALIZATION_BUFFER_SIZE,
        serialize_call(
            *old(store),
            old(store).active().scanner_serialize_fn->0,
            seq![scanner_address as i32, old(store).current_memory_offset as i32],
            old(buffer)@,
            *final(store),
            final(buffer)@,
            length,
        ),
        scanner_serialized(
            *old(store),
            scanner_address,
            old(buffer)@,
            *final(store),
            final(buffer)@,
            length,
        ),
{
    call_scanner_serialize(store, scanner_address, buffer)
}

/// Deserializes `buffer` into an external scanner.
pub fn ts_wasm_store_call_scanner_deserialize(
    store: &mut StoreInner,
    scanner_address: u32,
    buffer: &[u8],
)
    requires
        old(store).wf(),
        old(store).is_active(),
        old(store).active().scanner_deserialize_fn is Some,
        buffer@.len() <= u32::MAX,
        old(store).current_memory_offset + buffer@.len() <= old(store).bytes().len(),
    ensures
        final(store).wf(),
        only_ran(*old(store), *final(store)),
        deserialize_call(
            *old(store),
            old(store).active().scanner_deserialize_fn->0,
            seq![
                scanner_address as i32,
                old(store).current_memory_offset as i32,
                buffer@.len() as i32,
            ],
            buffer@,
            *final(store),
        ),
        scanner_deserialized(*old(store), scanner_address, buffer@, *final(store)),
{
    call_scanner_deserialize(store, scanner_address, buffer)
}

/// Whether a language can be retained where it has `previous` references.
pub open spec fn reference_retained(language: WasmLanguage, previous: u32) -> bool {
    can_count_up(language.ref_count, previous)
}

/// Whether a language can be released where it has `previous` references, and is
/// to be dropped then.
pub open spec fn reference_released(language: WasmLanguage, previous: u32, drop: bool) -> bool {
    &&& can_count_down(language.ref_count, previous)
    &&& drop == (previous == 1)
    &&& drop ==> counted_up(language.language_id.is_deleted)
}

/// Counts one more reference to a language.
pub fn ts_wasm_language_retain(language: &WasmLanguage)
    ensures
        counted_up(language.ref_count),
        exists|previous: u32| #[trigger] reference_retained(*language, previous),
{
    let previous = count_up(&language.ref_count);
    assert(reference_retained(*language, previous));
}

/// Counts one reference to a language less. Where that was the last one, marks
/// the language as deleted and returns that it is to be dropped.
pub fn ts_wasm_language_release(language: &WasmLanguage) -> (drop: bool)
    ensures
        exists|previous: u32|
            #[trigger] can_count_down(language.ref_count, previous) && drop == (previous == 1),
        drop ==> counted_up(language.language_id.is_deleted),
        exists|previous: u32| #[trigger] reference_released(*language, previous, drop),
{
    let previous = count_down(&language.ref_count);
    let last = was_last_reference(previous);
    if last {
        language.language_id.delete();
    }
    assert(reference_released(*language, previous, last));
    last
}

/// The data prefix of the lexer of a store, where there is one.
pub open spec fn data_of_lexer(store: StoreInner) -> Option<LexerData> {
    match store.held().state.current_lexer {
        Some(lexer) => Some(lexer.data),
        None => None,
    }
}

/// The data prefix of the current lexer, where there is one.
pub fn lexer_data(store: &mut StoreInner) -> (data: Option<LexerData>)
    requires
        old(store).wf(),
    ensures
        final(store).wf(),
        *final(store) == (StoreInner { store: final(store).store, ..*old(store) }),
        final(store).held() == old(store).held(),
        data == match old(store).held().state.current_lexer {
            Some(lexer) => Some(lexer.data),
            None => None,
        },
        data == data_of_lexer(*old(store)),
{
    let data = match &store_data_mut(&mut store.store).current_lexer {
        Some(lexer) => Some(lexer.data),
        None => None,
    };
    proof {
        running_keeps_the_store_usable(*old(store), *store);
    }
    data
}

/// Whether the data prefix of the lexer of a store was changed to `data`.
pub open spec fn lexer_data_set(before: StoreInner, data: LexerData, after: StoreInner) -> bool {
    &&& after == (StoreInner { store: after.store, ..before })
    &&& after.held() == with_lexer_data(before.held(), data)
}

/// Changes the data prefix of the current lexer, where there is one.
pub fn set_lexer_data(store: &mut StoreInner, data: LexerData)
    requires
        old(store).wf(),
    ensures
        final(store).wf(),
        *final(store) == (StoreInner { store: final(store).store, ..*old(store) }),
        final(store).held() == with_lexer_data(old(store).held(), data),
        lexer_data_set(*old(store), data, *final(store)),
{
    match &mut store_data_mut(&mut store.store).current_lexer {
        Some(lexer) => {
            lexer.data = data;
        },
        None => {},
    }
    proof {
        running_keeps_the_store_usable(*old(store), *store);
    }
}

/// Whether the texts that wait to be printed were taken out of a store.
pub open spec fn debug_messages_taken(
    before: StoreInner,
    after: StoreInner,
    messages: Seq<String>,
) -> bool {
    &&& after == (StoreInner { store: after.store, ..before })
    &&& messages == before.held().state.debug_messages@
    &&& after.held() == before.held().with_state(
        State {
            debug_messages: after.held().state.debug_messages,
            ..before.held().state
        },
    )
    &&& after.held().state.debug_messages@.len() == 0
}

/// Takes the texts that modules asked to have printed, oldest first.
pub fn take_debug_messages(store: &mut StoreInner) -> (messages: Vec<String>)
    requires
        old(store).wf(),
    ensures
        final(store).wf(),
        *final(store) == (StoreInner { store: final(store).store, ..*old(store) }),
        messages == old(store).held().state.debug_messages,
        final(store).held() == old(store).held().with_state(
            State {
                debug_messages: final(store).held().state.debug_messages,
                ..old(store).held().state
            },
        ),
        final(store).held().state.debug_messages@.len() == 0,
        debug_messages_taken(*old(store), *final(store), messages@),
{
    let mut messages: Vec<String> = Vec::new();
    std::mem::swap(&mut messages, &mut store_data_mut(&mut store.store).debug_messages);
    proof {
        running_keeps_the_store_usable(*old(store), *store);
    }
    messages
}

} // verus!
