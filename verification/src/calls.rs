//! The calls that a parser makes into the language that it parses with.
//!
//! Bytes of the linear memory are looked up anew after each call, since Wasm
//! code may grow the memory and so move it.

use vstd::prelude::*;

use crate::callbacks::state_kept;
use crate::engine::{call_made, running_keeps_the_store_usable, State, StoreInner};
use crate::lexer::{lexer_data_at, CLexer, LexerData};
use crate::memory::{serialization_buffer_address, SERIALIZATION_BUFFER_SIZE};
use crate::runtime::{
    growth_is_transitive, memory_data, overwritten, store_data_mut, write_memory, StoreContents,
};

verus! {

/// Whether only the runtime's store and the error flag differ.
pub open spec fn only_ran(before: StoreInner, after: StoreInner) -> bool {
    after == (StoreInner { store: after.store, has_error: after.has_error, ..before })
}

/// Resets the scanner heap, by a call of the stdlib's `reset_heap` with the
/// address at which it is to start.
pub fn reset_heap(inner: &mut StoreInner)
    requires
        old(inner).wf(),
    ensures
        final(inner).wf(),
        heap_reset(*old(inner), *final(inner)),
{
    let address = inner.heap_address() as i32;
    match inner.builtin_fns.reset_heap {
        Some(func) => {
            let values = inner.call_unchecked(func, &[address], 0);
            proof {
                running_keeps_the_store_usable(*old(inner), *inner);
                assert([address]@ =~= seq![heap_start(*old(inner)) as i32]);
                assert(call_made(
                    *old(inner),
                    func,
                    seq![heap_start(*old(inner)) as i32],
                    0,
                    *inner,
                    results(values),
                ));
            }
        },
        None => {},
    }
}

/// The results of a call.
pub open spec fn results(values: Option<Vec<Option<i32>>>) -> Option<Seq<Option<i32>>> {
    match values {
        Some(values) => Some(values@),
        None => None,
    }
}

/// Where the scanner heap starts: behind the serialization buffer.
pub open spec fn heap_start(inner: StoreInner) -> u32 {
    (inner.current_memory_offset + SERIALIZATION_BUFFER_SIZE) as u32
}

/// Whether the scanner heap was reset.
pub open spec fn heap_reset(before: StoreInner, after: StoreInner) -> bool {
    exists|values: Option<Seq<Option<i32>>>|
        #[trigger] call_made(
            before,
            before.builtin_fns.reset_heap->0,
            seq![heap_start(before) as i32],
            0,
            after,
            values,
        )
}

/// The contents of a store with other data in its lexer.
pub open spec fn with_lexer_data(store: StoreContents, data: LexerData) -> StoreContents {
    match store.state.current_lexer {
        Some(lexer) => store.with_state(
            State { current_lexer: Some(CLexer { data, ..lexer }), ..store.state },
        ),
        None => store,
    }
}

/// Which way the data prefix of the lexer is copied.
#[derive(Clone, Copy, Debug, PartialEq, Eq, Structural)]
pub enum CopyDirection {
    IntoWasm,
    OutOfWasm,
}

/// What a store holds once the data prefix of its lexer was copied into the
/// lexer object in memory, or out of it.
pub open spec fn prefix_copied(inner: StoreInner, direction: CopyDirection) -> StoreContents {
    match direction {
        CopyDirection::IntoWasm => match inner.held().state.current_lexer {
            Some(lexer) => inner.held().with_memory(
                inner.memory,
                overwritten(inner.bytes(), inner.lexer_address as int, lexer.data.image()),
            ),
            None => inner.held(),
        },
        CopyDirection::OutOfWasm => with_lexer_data(
            inner.held(),
            lexer_data_at(inner.bytes(), inner.lexer_address as int),
        ),
    }
}

/// Copies the data prefix of the lexer into the lexer object in memory, or out
/// of it. Without a lexer there is nothing to copy.
pub fn copy_prefix(inner: &mut StoreInner, direction: CopyDirection)
    requires
        old(inner).wf(),
    ensures
        final(inner).wf(),
        *final(inner) == (StoreInner { store: final(inner).store, ..*old(inner) }),
        final(inner).held() == prefix_copied(*old(inner), direction),
        old(inner).held().grows_to(final(inner).held()),
{
    let address = inner.lexer_address() as usize;
    match direction {
        CopyDirection::IntoWasm => {
            let data = match &store_data_mut(&mut inner.store).current_lexer {
                Some(lexer) => Some(lexer.data),
                None => None,
            };
            match data {
                Some(data) => {
                    write_memory(&mut inner.store, inner.memory, address, &data.to_bytes());
                },
                None => {},
            }
        },
        CopyDirection::OutOfWasm => {
            let data = LexerData::from_bytes(memory_data(&inner.store, inner.memory), address);
            match &mut store_data_mut(&mut inner.store).current_lexer {
                Some(lexer) => {
                    lexer.data = data;
                },
                None => {},
            }
        },
    }
    proof {
        running_keeps_the_store_usable(*old(inner), *inner);
    }
}

/// Whether the lexer, where there is one, has the data prefix of the lexer
/// object in memory.
pub open spec fn prefix_shared(inner: StoreInner) -> bool {
    inner.held().state.current_lexer matches Some(lexer) ==> lexer.data == lexer_data_at(
        inner.bytes(),
        inner.lexer_address as int,
    )
}

/// The single result of a call, where it is an integer.
pub open spec fn single(values: Option<Seq<Option<i32>>>) -> Option<i32> {
    match values {
        Some(values) => if values.len() == 1 {
            values[0]
        } else {
            None
        },
        None => None,
    }
}

/// What a call with the single result `value` comes to, in the store as the
/// call left it: an integer, unless the store has an error by then. A result
/// that is no integer is an error.
pub open spec fn call_ends(
    called: StoreInner,
    value: Option<i32>,
    after: StoreInner,
    result: Option<i32>,
) -> bool {
    if called.has_error {
        after == called && result is None
    } else {
        after == (StoreInner { has_error: value is None, ..called }) && result == value
    }
}

/// Takes the single result of a call.
pub fn take_result(inner: &mut StoreInner, values: Option<Vec<Option<i32>>>) -> (result: Option<
    i32,
>)
    ensures
        call_ends(*old(inner), single(results(values)), *final(inner), result),
{
    if inner.has_error {
        return None;
    }
    let value = match values {
        Some(values) => if values.len() == 1 {
            values[0]
        } else {
            None
        },
        None => None,
    };
    if value.is_none() {
        inner.has_error = true;
    }
    value
}

/// Whether a call for one integer was made and came to `result`.
pub open spec fn integer_call(
    before: StoreInner,
    func: wasmtime::Func,
    args: Seq<i32>,
    after: StoreInner,
    result: Option<i32>,
) -> bool {
    exists|called: StoreInner, values: Option<Seq<Option<i32>>>|
        #[trigger] call_made(before, func, args, 1, called, values) && call_ends(
            called,
            single(values),
            after,
            result,
        )
}

/// Calls a function for one integer.
fn call_for_integer(inner: &mut StoreInner, func: wasmtime::Func, args: &[i32]) -> (result: Option<
    i32,
>)
    requires
        old(inner).wf(),
        old(inner).held().funcs.contains_key(func),
    ensures
        final(inner).wf(),
        only_ran(*old(inner), *final(inner)),
        old(inner).held().grows_to(final(inner).held()),
        state_kept(old(inner).held().state, final(inner).held().state),
        integer_call(*old(inner), func, args@, *final(inner), result),
        result is None ==> final(inner).has_error,
        result is Some ==> !final(inner).has_error,
{
    let values = inner.call_unchecked(func, args, 1);
    let ghost called = *inner;
    assert(call_made(*old(inner), func, args@, 1, called, results(values)));
    let result = take_result(inner, values);
    proof {
        running_keeps_the_store_usable(*old(inner), *inner);
    }
    result
}

/// Whether a call was made with the lexer's data prefix copied into memory
/// before it and, unless there was an error, out of memory after it; and
/// whether it came to true.
pub open spec fn lexer_call(
    before: StoreInner,
    func: wasmtime::Func,
    args: Seq<i32>,
    after: StoreInner,
    result: bool,
) -> bool {
    exists|ready: StoreInner, called: StoreInner, value: Option<i32>|
        {
            &&& ready == (StoreInner { store: ready.store, ..before })
            &&& ready.held() == prefix_copied(before, CopyDirection::IntoWasm)
            &&& #[trigger] integer_call(ready, func, args, called, value)
            &&& match value {
                Some(value) => {
                    &&& after == (StoreInner { store: after.store, ..called })
                    &&& after.held() == prefix_copied(called, CopyDirection::OutOfWasm)
                    &&& result == (value != 0)
                },
                None => after == called && !result,
            }
        }
}

/// Calls a function that works on the lexer.
fn call_with_lexer(inner: &mut StoreInner, func: wasmtime::Func, args: &[i32]) -> (result: bool)
    requires
        old(inner).wf(),
        old(inner).held().funcs.contains_key(func),
    ensures
        final(inner).wf(),
        only_ran(*old(inner), *final(inner)),
        old(inner).held().grows_to(final(inner).held()),
        state_kept(old(inner).held().state, final(inner).held().state),
        lexer_call(*old(inner), func, args@, *final(inner), result),
        final(inner).has_error ==> !result,
        !final(inner).has_error ==> prefix_shared(*final(inner)),
{
    copy_prefix(inner, CopyDirection::IntoWasm);
    let ghost ready = *inner;
    let value = call_for_integer(inner, func, args);
    let ghost called = *inner;
    proof {
        growth_is_transitive(old(inner).held(), ready.held(), called.held());
        assert(integer_call(ready, func, args@, called, value));
    }
    match value {
        Some(value) => {
            copy_prefix(inner, CopyDirection::OutOfWasm);
            proof {
                growth_is_transitive(old(inner).held(), called.held(), inner.held());
            }
            value != 0
        },
        None => false,
    }
}

/// Which function of a language to lex with.
#[derive(Clone, Copy, Debug, PartialEq, Eq, Structural)]
pub enum LexFunction {
    Main,
    Keyword,
}

/// The function of the current language to lex with.
pub open spec fn lex_function(inner: StoreInner, which: LexFunction) -> Option<wasmtime::Func> {
    match which {
        LexFunction::Main => inner.active().lex_main_fn,
        LexFunction::Keyword => inner.active().lex_keyword_fn,
    }
}

/// Whether a lex function of the current language was called in a lex state, and
/// whether it found anything.
pub open spec fn lexed(
    before: StoreInner,
    which: LexFunction,
    state: u16,
    after: StoreInner,
    found: bool,
) -> bool {
    lexer_call(
        before,
        lex_function(before, which)->0,
        seq![before.lexer_address as i32, state as i32],
        after,
        found,
    )
}

/// Lexes in a lex state: calls a lex function of the current language with the
/// lexer and the state.
pub fn call_lex_function(inner: &mut StoreInner, which: LexFunction, state: u16) -> (found: bool)
    requires
        old(inner).wf(),
        old(inner).is_active(),
        lex_function(*old(inner), which) is Some,
    ensures
        final(inner).wf(),
        only_ran(*old(inner), *final(inner)),
        state_kept(old(inner).held().state, final(inner).held().state),
        final(inner).has_error ==> !found,
        !final(inner).has_error ==> prefix_shared(*final(inner)),
        lexer_call(
            *old(inner),
            lex_function(*old(inner), which)->0,
            seq![old(inner).lexer_address as i32, state as i32],
            *final(inner),
            found,
        ),
        lexed(*old(inner), which, state, *final(inner), found),
{
    let func = match which {
        LexFunction::Main => inner.current_instance().lex_main_fn,
        LexFunction::Keyword => inner.current_instance().lex_keyword_fn,
    };
    let func = func.unwrap();
    let args: [i32; 2] = [inner.lexer_address() as i32, state as i32];
    assert(args@ =~= seq![old(inner).lexer_address as i32, state as i32]);
    call_with_lexer(inner, func, &args)
}

/// Whether an external scanner of the current language was created at `address`,
/// which is zero where that failed.
pub open spec fn scanner_created(before: StoreInner, after: StoreInner, address: u32) -> bool {
    exists|result: Option<i32>|
        #[trigger] integer_call(
            before,
            before.active().scanner_create_fn->0,
            seq![],
            after,
            result,
        ) && address == match result {
            Some(result) => result as u32,
            None => 0,
        }
}

/// Creates an external scanner of the current language, and returns its
/// address, or zero where that failed.
pub fn call_scanner_create(inner: &mut StoreInner) -> (address: u32)
    requires
        old(inner).wf(),
        old(inner).is_active(),
        old(inner).active().scanner_create_fn is Some,
    ensures
        final(inner).wf(),
        only_ran(*old(inner), *final(inner)),
        exists|result: Option<i32>|
            #[trigger] integer_call(
                *old(inner),
                old(inner).active().scanner_create_fn->0,
                seq![],
                *final(inner),
                result,
            ) && address == match result {
                Some(result) => result as u32,
                None => 0,
            },
        scanner_created(*old(inner), *final(inner), address),
{
    let func = inner.current_instance().scanner_create_fn.unwrap();
    let args: [i32; 0] = [];
    assert(args@ =~= seq![]);
    match call_for_integer(inner, func, &args) {
        Some(address) => address as u32,
        None => 0,
    }
}

/// Whether an external scanner of the current language was destroyed.
pub open spec fn scanner_destroyed(
    before: StoreInner,
    scanner_address: u32,
    after: StoreInner,
) -> bool {
    exists|values: Option<Seq<Option<i32>>>|
        #[trigger] call_made(
            before,
            before.active().scanner_destroy_fn->0,
            seq![scanner_address as i32],
            0,
            after,
            values,
        )
}

/// Whether destroying an external scanner came to its end: without a current
/// language nothing happened.
pub open spec fn destruction_ended(
    before: StoreInner,
    scanner_address: u32,
    after: StoreInner,
) -> bool {
    match before.current_instance {
        Some(_) => scanner_destroyed(before, scanner_address, after),
        None => after == before,
    }
}

/// Destroys an external scanner of the current language. Does nothing while
/// there is no current language.
pub fn call_scanner_destroy(inner: &mut StoreInner, scanner_address: u32)
    requires
        old(inner).wf(),
        old(inner).current_instance is Some ==> old(inner).is_active()
            && old(inner).active().scanner_destroy_fn is Some,
    ensures
        final(inner).wf(),
        old(inner).current_instance is None ==> *final(inner) == *old(inner),
        old(inner).current_instance is Some ==> exists|values: Option<Seq<Option<i32>>>|
            #[trigger] call_made(
                *old(inner),
                old(inner).active().scanner_destroy_fn->0,
                seq![scanner_address as i32],
                0,
                *final(inner),
                values,
            ),
        old(inner).current_instance is Some ==> scanner_destroyed(
            *old(inner),
            scanner_address,
            *final(inner),
        ),
        destruction_ended(*old(inner), scanner_address, *final(inner)),
{
    if inner.current_instance.is_some() {
        let func = inner.current_instance().scanner_destroy_fn.unwrap();
        let args: [i32; 1] = [scanner_address as i32];
        let values = inner.call_unchecked(func, &args, 0);
        proof {
            assert(args@ =~= seq![scanner_address as i32]);
            assert(call_made(
                *old(inner),
                func,
                seq![scanner_address as i32],
                0,
                *inner,
                results(values),
            ));
            running_keeps_the_store_usable(*old(inner), *inner);
        }
    }
}

/// Whether an external scanner of the current language scanned, and whether it
/// found anything.
pub open spec fn scanned(
    before: StoreInner,
    scanner_address: u32,
    valid_tokens_ix: u32,
    after: StoreInner,
    found: bool,
) -> bool {
    lexer_call(
        before,
        before.active().scanner_scan_fn->0,
        seq![
            scanner_address as i32,
            before.lexer_address as i32,
            before.active().external_states_address.wrapping_add(valid_tokens_ix as i32),
        ],
        after,
        found,
    )
}

/// Scans with an external scanner of the current language: calls its scan
/// function with the scanner, the lexer, and the table of valid tokens, which
/// is that of the given index among the external states.
pub fn call_scanner_scan(inner: &mut StoreInner, scanner_address: u32, valid_tokens_ix: u32) -> (
found: bool)
    requires
        old(inner).wf(),
        old(inner).is_active(),
        old(inner).active().scanner_scan_fn is Some,
    ensures
        final(inner).wf(),
        only_ran(*old(inner), *final(inner)),
        state_kept(old(inner).held().state, final(inner).held().state),
        final(inner).has_error ==> !found,
        !final(inner).has_error ==> prefix_shared(*final(inner)),
        lexer_call(
            *old(inner),
            old(inner).active().scanner_scan_fn->0,
            seq![
                scanner_address as i32,
                old(inner).lexer_address as i32,
                old(inner).active().external_states_address.wrapping_add(valid_tokens_ix as i32),
            ],
            *final(inner),
            found,
        ),
        scanned(*old(inner), scanner_address, valid_tokens_ix, *final(inner), found),
{
    let func = inner.current_instance().scanner_scan_fn.unwrap();
    let external_states_address = inner.current_instance().external_states_address;
    let valid_tokens_address = external_states_address.wrapping_add(valid_tokens_ix as i32);
    let args: [i32; 3] = [
        scanner_address as i32,
        inner.lexer_address() as i32,
        valid_tokens_address,
    ];
    assert(args@ =~= seq![
        scanner_address as i32,
        old(inner).lexer_address as i32,
        old(inner).active().external_states_address.wrapping_add(valid_tokens_ix as i32),
    ]);
    call_with_lexer(inner, func, &args)
}

/// What a serialization that returned `result` comes to: that many bytes out of
/// the serialization buffer in memory, where they fit into it. More of them are
/// an error.
pub open spec fn serialization_ends(
    called: StoreInner,
    result: Option<i32>,
    before: Seq<u8>,
    after: StoreInner,
    buffer: Seq<u8>,
    length: u32,
) -> bool {
    match result {
        Some(result) if result as u32 <= SERIALIZATION_BUFFER_SIZE => {
            let start = called.current_memory_offset as int;
            &&& after == called
            &&& length == result as u32
            &&& buffer == overwritten(before, 0, called.bytes().subrange(start, start + length))
        },
        Some(result) => {
            &&& after == (StoreInner { has_error: true, ..called })
            &&& length == 0
            &&& buffer == before
        },
        None => {
            &&& after == called
            &&& length == 0
            &&& buffer == before
        },
    }
}

/// Takes what a serialization left in the serialization buffer.
pub fn take_serialized(inner: &mut StoreInner, result: Option<i32>, buffer: &mut [u8]) -> (length:
    u32)
    requires
        old(inner).wf(),
        old(buffer)@.len() >= SERIALIZATION_BUFFER_SIZE,
    ensures
        final(inner).wf(),
        serialization_ends(
            *old(inner),
            result,
            old(buffer)@,
            *final(inner),
            final(buffer)@,
            length,
        ),
{
    let length = match result {
        Some(result) => result as u32,
        None => {
            return 0;
        },
    };
    if length > SERIALIZATION_BUFFER_SIZE as u32 {
        inner.has_error = true;
        return 0;
    }
    let start = serialization_buffer_address(inner.current_memory_offset) as usize;
    let data = memory_data(&inner.store, inner.memory);
    let mut i: usize = 0;
    while i < length as usize
        invariant
            i <= length <= SERIALIZATION_BUFFER_SIZE,
            SERIALIZATION_BUFFER_SIZE <= buffer@.len(),
            buffer@.len() == old(buffer)@.len(),
            start + SERIALIZATION_BUFFER_SIZE <= data.len(),
            forall|k: int| 0 <= k < i ==> buffer@[k] == data@[start + k],
            forall|k: int| i <= k < buffer@.len() ==> buffer@[k] == old(buffer)@[k],
        decreases length - i,
    {
        buffer[i] = data[start + i];
        i += 1;
    }
    assert(buffer@ =~= overwritten(
        old(buffer)@,
        0,
        data@.subrange(start as int, start + length),
    ));
    length
}

/// Whether a serialize function was called and left `length` bytes.
pub open spec fn serialize_call(
    before: StoreInner,
    func: wasmtime::Func,
    args: Seq<i32>,
    buffer_before: Seq<u8>,
    after: StoreInner,
    buffer: Seq<u8>,
    length: u32,
) -> bool {
    exists|called: StoreInner, result: Option<i32>|
        #[trigger] integer_call(before, func, args, called, result) && serialization_ends(
            called,
            result,
            buffer_before,
            after,
            buffer,
            length,
        )
}

/// Whether an external scanner of the current language was serialized into
/// `buffer`.
pub open spec fn scanner_serialized(
    before: StoreInner,
    scanner_address: u32,
    buffer_before: Seq<u8>,
    after: StoreInner,
    buffer: Seq<u8>,
    length: u32,
) -> bool {
    serialize_call(
        before,
        before.active().scanner_serialize_fn->0,
        seq![scanner_address as i32, before.current_memory_offset as i32],
        buffer_before,
        after,
        buffer,
        length,
    )
}

/// Serializes an external scanner of the current language: calls its serialize
/// function with the scanner and the serialization buffer in memory, then
/// copies what it left there, and returns how much that is.
pub fn call_scanner_serialize(
    inner: &mut StoreInner,
    scanner_address: u32,
    buffer: &mut [u8],
) -> (length: u32)
    requires
        old(inner).wf(),
        old(inner).is_active(),
        old(inner).active().scanner_serialize_fn is Some,
        old(buffer)@.len() >= SERIALIZATION_BUFFER_SIZE,
    ensures
        final(inner).wf(),
        only_ran(*old(inner), *final(inner)),
        length <= SERIALIZATION_BUFFER_SIZE,
        serialize_call(
            *old(inner),
            old(inner).active().scanner_serialize_fn->0,
            seq![scanner_address as i32, old(inner).current_memory_offset as i32],
            old(buffer)@,
            *final(inner),
            final(buffer)@,
            length,
        ),
        scanner_serialized(
            *old(inner),
            scanner_address,
            old(buffer)@,
            *final(inner),
            final(buffer)@,
            length,
        ),
{
    let func = inner.current_instance().scanner_serialize_fn.unwrap();
    let serialization_address = serialization_buffer_address(inner.current_memory_offset);
    let args: [i32; 2] = [scanner_address as i32, serialization_address as i32];
    assert(args@ =~= seq![scanner_address as i32, old(inner).current_memory_offset as i32]);
    let result = call_for_integer(inner, func, &args);
    take_serialized(inner, result, buffer)
}

/// Whether a deserialize function was called with `buffer` in the serialization
/// buffer in memory.
pub open spec fn deserialize_call(
    before: StoreInner,
    func: wasmtime::Func,
    args: Seq<i32>,
    buffer: Seq<u8>,
    after: StoreInner,
) -> bool {
    exists|ready: StoreInner, values: Option<Seq<Option<i32>>>|
        {
            &&& ready == (StoreInner { store: ready.store, ..before })
            &&& ready.held() == before.held().with_memory(
                before.memory,
                overwritten(before.bytes(), before.current_memory_offset as int, buffer),
            )
            &&& #[trigger] call_made(ready, func, args, 0, after, values)
        }
}

/// Whether `buffer` was deserialized into an external scanner of the current
/// language.
pub open spec fn scanner_deserialized(
    before: StoreInner,
    scanner_address: u32,
    buffer: Seq<u8>,
    after: StoreInner,
) -> bool {
    deserialize_call(
        before,
        before.active().scanner_deserialize_fn->0,
        seq![
            scanner_address as i32,
            before.current_memory_offset as i32,
            buffer.len() as i32,
        ],
        buffer,
        after,
    )
}

/// Deserializes into an external scanner of the current language: copies the
/// bytes into the serialization buffer in memory, then calls the deserialize
/// function with the scanner, the buffer and the number of bytes.
pub fn call_scanner_deserialize(inner: &mut StoreInner, scanner_address: u32, buffer: &[u8])
    requires
        old(inner).wf(),
        old(inner).is_active(),
        old(inner).active().scanner_deserialize_fn is Some,
        buffer@.len() <= u32::MAX,
        old(inner).current_memory_offset + buffer@.len() <= old(inner).bytes().len(),
    ensures
        final(inner).wf(),
        only_ran(*old(inner), *final(inner)),
        deserialize_call(
            *old(inner),
            old(inner).active().scanner_deserialize_fn->0,
            seq![
                scanner_address as i32,
                old(inner).current_memory_offset as i32,
                buffer@.len() as i32,
            ],
            buffer@,
            *final(inner),
        ),
        scanner_deserialized(*old(inner), scanner_address, buffer@, *final(inner)),
{
    let func = inner.current_instance().scanner_deserialize_fn.unwrap();
    let serialization_address = serialization_buffer_address(inner.current_memory_offset);
    write_memory(&mut inner.store, inner.memory, serialization_address as usize, buffer);
    let ghost ready = *inner;
    let args: [i32; 3] = [
        scanner_address as i32,
        serialization_address as i32,
        buffer.len() as u32 as i32,
    ];
    let ghost expected = seq![
        scanner_address as i32,
        old(inner).current_memory_offset as i32,
        buffer@.len() as i32,
    ];
    proof {
        running_keeps_the_store_usable(*old(inner), ready);
        assert(args@ =~= expected);
    }
    let values = inner.call_unchecked(func, &args, 0);
    proof {
        assert(call_made(ready, func, expected, 0, *inner, results(values)));
        running_keeps_the_store_usable(ready, *inner);
    }
}

} // verus!
